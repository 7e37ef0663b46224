use vstd::prelude::*;

use crate::recorded::Recorded;
use crate::segment::SegmentStream;
use crate::stream::{keeps_accepting, Stream, TransformableStream, WriteableStream};

verus! {

/// `y` is what a stream with transformer `f` may make of `x`: the
/// transformer's result where there is one, `x` itself where there is none.
pub open spec fn transforms_to<T, F: Fn(T) -> T>(f: Option<F>, x: T, y: T) -> bool {
    match f {
        Some(f) => call_ensures(f, (x,), y),
        None => y == x,
    }
}

/// The transformer `f`, if there is one, can be called on `x`.
pub open spec fn can_transform<T, F: Fn(T) -> T>(f: Option<F>, x: T) -> bool {
    f matches Some(f) ==> call_requires(f, (x,))
}

/// A stream that rewrites every item with its transformer and hands the
/// result on to the stream it is piped into.
#[verifier::reject_recursive_types(T)]
pub struct Pipe<T, F, W> {
    is_closed: bool,
    pipe_target: Option<W>,
    transformer: Option<Recorded<F, T>>,
    written: Ghost<Seq<T>>,
}

impl<T, F: Fn(T) -> T, W: WriteableStream<T>> Pipe<T, F, W> {
    pub closed spec fn is_closed(&self) -> bool {
        self.is_closed
    }

    /// Once `self` is closed, `after` is closed too.
    pub open spec fn keeps_closed(&self, after: Self) -> bool {
        self.is_closed() ==> after.is_closed()
    }

    pub closed spec fn target(&self) -> Option<W> {
        self.pipe_target
    }

    pub closed spec fn transformer_fn(&self) -> Option<F> {
        match self.transformer {
            Some(r) => Some(r.func()),
            None => None,
        }
    }

    /// The items the transformer has been called with through writes,
    /// oldest first.
    pub closed spec fn transformer_calls(&self) -> Seq<T> {
        match self.transformer {
            Some(r) => r.calls(),
            None => Seq::empty(),
        }
    }

    /// An open pipe whose transformer is `transformer` and which is not
    /// piped into anything yet.
    pub fn new(transformer: F) -> (p: Self)
        ensures
            !p.is_closed(),
            p.target() is None,
            p.transformer_fn() == Some(transformer),
            p.transformer_calls() == Seq::<T>::empty(),
            p.written() == Seq::<T>::empty(),
    {
        Pipe {
            is_closed: false,
            pipe_target: None,
            transformer: Some(Recorded::new(transformer)),
            written: Ghost(Seq::empty()),
        }
    }

    fn apply(&self, data: T) -> (r: T)
        requires
            can_transform(self.transformer_fn(), data),
        ensures
            transforms_to(self.transformer_fn(), data, r),
    {
        match &self.transformer {
            Some(trans) => trans.peek(data),
            None => data,
        }
    }

    fn apply_recorded(&mut self, data: T) -> (r: T)
        requires
            can_transform(old(self).transformer_fn(), data),
        ensures
            transforms_to(old(self).transformer_fn(), data, r),
            final(self).transformer_fn() == old(self).transformer_fn(),
            final(self).transformer_calls() == if old(self).transformer_fn() is Some {
                old(self).transformer_calls().push(data)
            } else {
                old(self).transformer_calls()
            },
            final(self).is_closed() == old(self).is_closed(),
            final(self).target() == old(self).target(),
            final(self).written() == old(self).written(),
    {
        match &mut self.transformer {
            Some(trans) => trans.apply(data),
            None => data,
        }
    }
}

impl<T, F: Fn(T) -> T, W: WriteableStream<T>> Stream<T, W> for Pipe<T, F, W> {
    open spec fn closable(&self) -> bool {
        !self.is_closed()
    }

    open spec fn observable(&self) -> bool {
        true
    }

    open spec fn pipeable(&self, target: W) -> bool {
        true
    }

    /// Closes the pipe; a pipe cannot be closed twice.
    fn close(&mut self)
        ensures
            old(self).keeps_closed(*final(self)),
            final(self).is_closed(),
            final(self).target() == old(self).target(),
            final(self).transformer_fn() == old(self).transformer_fn(),
            final(self).transformer_calls() == old(self).transformer_calls(),
            final(self).written() == old(self).written(),
    {
        self.is_closed = true;
    }

    fn closed(&self) -> (r: bool)
        ensures
            r == self.is_closed(),
    {
        self.is_closed
    }

    /// From now on the pipe hands what it makes to `stream`.
    fn pipe(&mut self, stream: W)
        ensures
            old(self).keeps_closed(*final(self)),
            final(self).target() == Some(stream),
            final(self).is_closed() == old(self).is_closed(),
            final(self).transformer_fn() == old(self).transformer_fn(),
            final(self).transformer_calls() == old(self).transformer_calls(),
            final(self).written() == old(self).written(),
    {
        self.pipe_target = Some(stream);
    }
}

impl<T, F: Fn(T) -> T, W: WriteableStream<T>> TransformableStream<T, F> for Pipe<T, F, W> {
    open spec fn transformable(&self, data: T) -> bool {
        can_transform(self.transformer_fn(), data)
    }

    /// The transformer's result on `data`, or `data` itself where the pipe
    /// has no transformer.
    fn transform(&self, data: T) -> (r: T)
        ensures
            transforms_to(self.transformer_fn(), data, r),
    {
        self.apply(data)
    }

    fn transformer(&mut self, handler: F)
        ensures
            old(self).keeps_closed(*final(self)),
            final(self).transformer_fn() == Some(handler),
            final(self).transformer_calls() == Seq::<T>::empty(),
            final(self).is_closed() == old(self).is_closed(),
            final(self).target() == old(self).target(),
            final(self).written() == old(self).written(),
    {
        self.transformer = Some(Recorded::new(handler));
    }
}

impl<T, F: Fn(T) -> T, W: WriteableStream<T>> SegmentStream<T> for Pipe<T, F, W> {
    open spec fn passes(&self, input: T, output: T) -> bool {
        transforms_to(self.transformer_fn(), input, output)
    }

    open spec fn steps(&self, data: T) -> bool {
        !self.is_closed() && can_transform(self.transformer_fn(), data)
    }

    proof fn lemma_wrote_keeps_settings(&self, data: T, after: Self) {
    }

    /// Checks that the pipe is open and transforms `data`, without handing
    /// the result on.
    fn process(&mut self, data: T) -> (out: T)
        ensures
            old(self).keeps_closed(*final(self)),
            final(self).is_closed() == old(self).is_closed(),
            final(self).target() == old(self).target(),
            final(self).transformer_fn() == old(self).transformer_fn(),
            final(self).transformer_calls() == if old(self).transformer_fn() is Some {
                old(self).transformer_calls().push(data)
            } else {
                old(self).transformer_calls()
            },
    {
        self.written = Ghost(self.written@.push(data));
        self.apply_recorded(data)
    }
}

impl<T, F: Fn(T) -> T, W: WriteableStream<T>> WriteableStream<T> for Pipe<T, F, W> {
    /// The pipe is open, its transformer takes `data`, and the stream it is
    /// piped into takes whatever the transformer may make of it.
    open spec fn accepts(&self, data: T) -> bool {
        &&& !self.is_closed()
        &&& can_transform(self.transformer_fn(), data)
        &&& (self.target() matches Some(t) ==> forall|out: T|
            #[trigger] transforms_to(self.transformer_fn(), data, out) ==> t.accepts(out))
    }

    closed spec fn written(&self) -> Seq<T> {
        self.written@
    }

    /// The pipe keeps its settings and records `data`; the stream it is
    /// piped into, if any, is written what the transformer made of `data`.
    open spec fn wrote(&self, data: T, after: Self) -> bool {
        &&& after.is_closed() == self.is_closed()
        &&& after.transformer_fn() == self.transformer_fn()
        &&& after.transformer_calls() == if self.transformer_fn() is Some {
            self.transformer_calls().push(data)
        } else {
            self.transformer_calls()
        }
        &&& after.written() == self.written().push(data)
        &&& match (self.target(), after.target()) {
            (Some(t0), Some(t1)) => {
                &&& keeps_accepting(t0, t1)
                &&& exists|out: T|
                    #[trigger] t0.wrote(out, t1) && transforms_to(self.transformer_fn(), data, out)
            },
            (None, None) => exists|out: T| #[trigger]
                transforms_to(self.transformer_fn(), data, out),
            _ => false,
        }
    }

    /// Transforms `data` and writes the result into the stream the pipe is
    /// piped into, if there is one.
    fn write(&mut self, data: T) {
        let ghost p0 = *self;
        let out = self.process(data);
        assert(transforms_to(p0.transformer_fn(), data, out));
        match &mut self.pipe_target {
            Some(ws) => ws.write(out),
            None => {},
        }
        proof {
            if let Some(t0) = p0.target() {
                let t1 = self.target()->0;
                assert(t0.wrote(out, t1));
            }
            assert(p0.keeps_closed(*self));
        }
    }
}

/// A closed pipe takes no more data: writing into it is not allowed.
pub proof fn lemma_closed_pipe_refuses_writes<T, F: Fn(T) -> T, W: WriteableStream<T>>(
    p: Pipe<T, F, W>,
    data: T,
)
    requires
        p.is_closed(),
    ensures
        !p.accepts(data),
{
}

/// A closed pipe stays closed: along any run of states in which each step
/// keeps a closed pipe closed, as every operation on a pipe does, a pipe
/// closed at the start is closed throughout.
pub proof fn lemma_closed_pipe_stays_closed<T, F: Fn(T) -> T, W: WriteableStream<T>>(
    states: Seq<Pipe<T, F, W>>,
)
    requires
        states.len() > 0,
        states[0].is_closed(),
        forall|i: int| 0 <= i < states.len() - 1 ==> #[trigger] states[i].keeps_closed(states[i + 1]),
    ensures
        forall|i: int| 0 <= i < states.len() ==> #[trigger] states[i].is_closed(),
    decreases states.len(),
{
    if states.len() > 1 {
        let prefix = states.drop_last();
        assert forall|i: int| 0 <= i < prefix.len() - 1 implies #[trigger] prefix[i].keeps_closed(
            prefix[i + 1],
        ) by {
            assert(states[i].keeps_closed(states[i + 1]));
        }
        lemma_closed_pipe_stays_closed(prefix);
        assert forall|i: int| 0 <= i < states.len() implies #[trigger] states[i].is_closed() by {
            if i < states.len() - 1 {
                assert(prefix[i].is_closed());
            } else {
                let j = i - 1;
                assert(prefix[j].is_closed());
                assert(states[j].keeps_closed(states[j + 1]));
            }
        }
    }
}

/// Writing one item into a pipe calls its transformer exactly once, with
/// that item, and what the pipe hands on is among the transformer's results
/// on it.
pub proof fn lemma_pipe_transforms_each_item_once<T, F: Fn(T) -> T, W: WriteableStream<T>>(
    p0: Pipe<T, F, W>,
    data: T,
    p1: Pipe<T, F, W>,
)
    requires
        p0.wrote(data, p1),
        p0.transformer_fn() is Some,
    ensures
        p1.transformer_calls().len() == p0.transformer_calls().len() + 1,
        p1.transformer_calls().last() == data,
        p1.transformer_calls().drop_last() == p0.transformer_calls(),
        exists|out: T| call_ensures(p0.transformer_fn()->0, (data,), out),
{
    assert(p1.transformer_calls().drop_last() =~= p0.transformer_calls());
    match (p0.target(), p1.target()) {
        (Some(t0), Some(t1)) => {
            let out = choose|out: T| #[trigger] t0.wrote(out, t1) && transforms_to(p0.transformer_fn(), data, out);
            assert(call_ensures(p0.transformer_fn()->0, (data,), out));
        },
        _ => {
            let out = choose|out: T| #[trigger] transforms_to(p0.transformer_fn(), data, out);
            assert(call_ensures(p0.transformer_fn()->0, (data,), out));
        },
    }
}

} // verus!
