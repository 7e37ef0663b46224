use vstd::prelude::*;

verus! {

/// A user's closure together with the record of every argument it has been
/// called with through this wrapper. The closure is private to this module,
/// so a stream can call it only through the methods below, and each call
/// that goes through `&mut` is recorded.
#[verifier::reject_recursive_types(A)]
pub struct Recorded<F, A> {
    f: F,
    calls: Ghost<Seq<A>>,
}

impl<F, A> Recorded<F, A> {
    /// The closure.
    pub closed spec fn func(&self) -> F {
        self.f
    }

    /// The arguments of the recorded calls, oldest first.
    pub closed spec fn calls(&self) -> Seq<A> {
        self.calls@
    }

    /// Wraps `f`, with no call recorded yet.
    pub fn new(f: F) -> (r: Self)
        ensures
            r.func() == f,
            r.calls() == Seq::<A>::empty(),
    {
        Recorded { f, calls: Ghost(Seq::empty()) }
    }
}

impl<T, F: Fn(&T)> Recorded<F, T> {
    /// Calls the closure once with `x`, and records the call.
    pub fn call_with(&mut self, x: &T)
        requires
            call_requires(old(self).func(), (x,)),
        ensures
            final(self).func() == old(self).func(),
            final(self).calls() == old(self).calls().push(*x),
            call_ensures(old(self).func(), (x,), ()),
    {
        (self.f)(x);
        self.calls = Ghost(self.calls@.push(*x));
    }
}

impl<F: Fn()> Recorded<F, ()> {
    /// Calls the closure once, and records the call.
    pub fn call_once(&mut self)
        requires
            call_requires(old(self).func(), ()),
        ensures
            final(self).func() == old(self).func(),
            final(self).calls() == old(self).calls().push(()),
            call_ensures(old(self).func(), (), ()),
    {
        (self.f)();
        self.calls = Ghost(self.calls@.push(()));
    }
}

impl<T, F: Fn(T) -> T> Recorded<F, T> {
    /// Calls the closure once on `x`, records the call, and gives back its
    /// result.
    pub fn apply(&mut self, x: T) -> (r: T)
        requires
            call_requires(old(self).func(), (x,)),
        ensures
            final(self).func() == old(self).func(),
            final(self).calls() == old(self).calls().push(x),
            call_ensures(old(self).func(), (x,), r),
    {
        self.calls = Ghost(self.calls@.push(x));
        (self.f)(x)
    }

    /// Calls the closure on `x` through a shared borrow, so the call is not
    /// recorded.
    pub fn peek(&self, x: T) -> (r: T)
        requires
            call_requires(self.func(), (x,)),
        ensures
            call_ensures(self.func(), (x,), r),
    {
        (self.f)(x)
    }
}

} // verus!
