use vstd::prelude::*;

use crate::recorded::Recorded;
use crate::segment::SegmentStream;
use crate::stream::{keeps_accepting, Stream, WriteableStream};

verus! {

/// A stream that hands every item to its writer and then on to the stream
/// it is piped into.
#[verifier::reject_recursive_types(T)]
pub struct Drain<T, F, H, C, W> {
    close_handler: Option<Recorded<H, ()>>,
    closed_checker: Option<C>,
    pipe_target: Option<W>,
    writer: Recorded<F, T>,
    written: Ghost<Seq<T>>,
}

impl<T, F: Fn(&T), H: Fn(), C: Fn() -> bool, W: WriteableStream<T>> Drain<T, F, H, C, W> {
    pub closed spec fn writer_fn(&self) -> F {
        self.writer.func()
    }

    pub closed spec fn close_handler_fn(&self) -> Option<H> {
        match self.close_handler {
            Some(h) => Some(h.func()),
            None => None,
        }
    }

    /// The items the writer has been called with, oldest first.
    pub closed spec fn writer_calls(&self) -> Seq<T> {
        self.writer.calls()
    }

    /// How many times the close handler has been called.
    pub closed spec fn close_calls(&self) -> nat {
        match self.close_handler {
            Some(h) => h.calls().len(),
            None => 0,
        }
    }

    /// `after` is what closing makes of `self`: the close handler, if there
    /// is one, has run once more; nothing else changes.
    pub open spec fn closes_into(&self, after: Self) -> bool {
        &&& after.writer_fn() == self.writer_fn()
        &&& after.close_handler_fn() == self.close_handler_fn()
        &&& after.closed_checker_fn() == self.closed_checker_fn()
        &&& after.target() == self.target()
        &&& after.written() == self.written()
        &&& after.writer_calls() == self.writer_calls()
        &&& after.close_calls() == if self.close_handler_fn() is Some {
            self.close_calls() + 1
        } else {
            self.close_calls()
        }
        &&& self.close_handler_fn() matches Some(h) ==> call_ensures(h, (), ())
    }

    pub closed spec fn closed_checker_fn(&self) -> Option<C> {
        self.closed_checker
    }

    pub closed spec fn target(&self) -> Option<W> {
        self.pipe_target
    }

    /// A drain with the given writer, close handler and closed checker,
    /// not piped into anything yet.
    pub fn new(writer: F, close_handler: Option<H>, closed_checker: Option<C>) -> (d: Self)
        ensures
            d.writer_fn() == writer,
            d.close_handler_fn() == close_handler,
            d.closed_checker_fn() == closed_checker,
            d.target() is None,
            d.written() == Seq::<T>::empty(),
            d.writer_calls() == Seq::<T>::empty(),
            d.close_calls() == 0,
    {
        let close_handler = match close_handler {
            Some(h) => Some(Recorded::new(h)),
            None => None,
        };
        Drain {
            close_handler,
            closed_checker,
            pipe_target: None,
            writer: Recorded::new(writer),
            written: Ghost(Seq::empty()),
        }
    }
}

impl<T, F: Fn(&T), H: Fn(), C: Fn() -> bool, W: WriteableStream<T>> Stream<T, W> for Drain<
    T,
    F,
    H,
    C,
    W,
> {
    open spec fn closable(&self) -> bool {
        self.close_handler_fn() matches Some(h) ==> call_requires(h, ())
    }

    open spec fn observable(&self) -> bool {
        self.closed_checker_fn() matches Some(c) ==> call_requires(c, ())
    }

    open spec fn pipeable(&self, target: W) -> bool {
        true
    }

    /// Calls the close handler once, if there is one; the drain itself is
    /// otherwise left as it was.
    fn close(&mut self)
        ensures
            old(self).closes_into(*final(self)),
    {
        if let Some(ch) = &mut self.close_handler {
            ch.call_once();
        }
    }

    /// What the closed checker answers, or `false` where there is none.
    fn closed(&self) -> (r: bool)
        ensures
            match self.closed_checker_fn() {
                Some(c) => call_ensures(c, (), r),
                None => !r,
            },
    {
        if let Some(cc) = &self.closed_checker {
            (cc)()
        } else {
            false
        }
    }

    /// From now on the drain hands every item on to `stream`.
    fn pipe(&mut self, stream: W)
        ensures
            final(self).target() == Some(stream),
            final(self).writer_fn() == old(self).writer_fn(),
            final(self).close_handler_fn() == old(self).close_handler_fn(),
            final(self).closed_checker_fn() == old(self).closed_checker_fn(),
            final(self).written() == old(self).written(),
            final(self).writer_calls() == old(self).writer_calls(),
            final(self).close_calls() == old(self).close_calls(),
    {
        self.pipe_target = Some(stream);
    }
}

impl<T, F: Fn(&T), H: Fn(), C: Fn() -> bool, W: WriteableStream<T>> SegmentStream<T> for Drain<
    T,
    F,
    H,
    C,
    W,
> {
    open spec fn passes(&self, input: T, output: T) -> bool {
        output == input && call_ensures(self.writer_fn(), (&input,), ())
    }

    open spec fn steps(&self, data: T) -> bool {
        call_requires(self.writer_fn(), (&data,))
    }

    proof fn lemma_wrote_keeps_settings(&self, data: T, after: Self) {
    }

    /// Hands `data` to the writer and gives it back, without handing it on.
    fn process(&mut self, data: T) -> (out: T)
        ensures
            final(self).writer_fn() == old(self).writer_fn(),
            final(self).close_handler_fn() == old(self).close_handler_fn(),
            final(self).closed_checker_fn() == old(self).closed_checker_fn(),
            final(self).target() == old(self).target(),
            final(self).writer_calls() == old(self).writer_calls().push(data),
            final(self).close_calls() == old(self).close_calls(),
    {
        assert(call_requires(self.writer.func(), (&data,)));
        self.writer.call_with(&data);
        assert(call_ensures(old(self).writer_fn(), (&data,), ()));
        assert(self.writer_fn() == old(self).writer_fn());
        assert(old(self).passes(data, data));
        self.written = Ghost(self.written@.push(data));
        data
    }
}

impl<T, F: Fn(&T), H: Fn(), C: Fn() -> bool, W: WriteableStream<T>> WriteableStream<T> for Drain<
    T,
    F,
    H,
    C,
    W,
> {
    /// The writer takes `data` and the stream the drain is piped into, if
    /// any, takes it too.
    open spec fn accepts(&self, data: T) -> bool {
        &&& call_requires(self.writer_fn(), (&data,))
        &&& (self.target() matches Some(t) ==> t.accepts(data))
    }

    closed spec fn written(&self) -> Seq<T> {
        self.written@
    }

    /// The drain keeps its settings, records `data` and has handed it to
    /// its writer; the stream it is piped into, if any, is written `data`.
    open spec fn wrote(&self, data: T, after: Self) -> bool {
        &&& after.writer_fn() == self.writer_fn()
        &&& after.close_handler_fn() == self.close_handler_fn()
        &&& after.closed_checker_fn() == self.closed_checker_fn()
        &&& after.written() == self.written().push(data)
        &&& after.writer_calls() == self.writer_calls().push(data)
        &&& after.close_calls() == self.close_calls()
        &&& call_ensures(self.writer_fn(), (&data,), ())
        &&& match (self.target(), after.target()) {
            (Some(t0), Some(t1)) => t0.wrote(data, t1) && keeps_accepting(t0, t1),
            (None, None) => true,
            _ => false,
        }
    }

    /// Hands `data` to the writer, then writes it into the stream the drain
    /// is piped into, if there is one.
    fn write(&mut self, data: T) {
        assert(self.accepts(data));
        assert(call_requires(self.writer_fn(), (&data,)));
        assert(self.steps(data));
        let out = self.process(data);
        match &mut self.pipe_target {
            Some(ws) => ws.write(out),
            None => {},
        }
    }
}

/// Writing one item into a drain calls its writer exactly once, with that
/// item, whatever close handler or closed checker the drain has; and a
/// drain whose writer calls matched its record of written items still
/// matches it.
pub proof fn lemma_drain_writes_each_item_once<
    T,
    F: Fn(&T),
    H: Fn(),
    C: Fn() -> bool,
    W: WriteableStream<T>,
>(d0: Drain<T, F, H, C, W>, data: T, d1: Drain<T, F, H, C, W>)
    requires
        d0.wrote(data, d1),
    ensures
        d1.writer_calls().len() == d0.writer_calls().len() + 1,
        d1.writer_calls().last() == data,
        d1.writer_calls().drop_last() == d0.writer_calls(),
        d1.close_calls() == d0.close_calls(),
        d0.writer_calls() == d0.written() ==> d1.writer_calls() == d1.written(),
{
    assert(d1.writer_calls().drop_last() =~= d0.writer_calls());
}

/// Closing a drain runs its close handler exactly once if it has one, and
/// not at all otherwise, whatever closed checker it has; the writer is not
/// called.
pub proof fn lemma_drain_close_runs_handler_once<
    T,
    F: Fn(&T),
    H: Fn(),
    C: Fn() -> bool,
    W: WriteableStream<T>,
>(d0: Drain<T, F, H, C, W>, d1: Drain<T, F, H, C, W>)
    requires
        d0.closes_into(d1),
    ensures
        d0.close_handler_fn() is Some ==> d1.close_calls() == d0.close_calls() + 1,
        d0.close_handler_fn() is None ==> d1.close_calls() == d0.close_calls(),
        d1.writer_calls() == d0.writer_calls(),
        d1.written() == d0.written(),
{
}

} // verus!
