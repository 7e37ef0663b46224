use vstd::prelude::*;

verus! {

/// What a segment of a pipeline does with the data that reaches it.
#[derive(PartialEq, Eq, Structural, Clone, Copy, Debug)]
pub enum StreamType {
    Readable,
    Transformable,
    Writeable,
}

/// A stream whose flow of data can be held back and resumed.
pub trait PausableStream {
    /// Whether the stream is holding its data back.
    spec fn paused(&self) -> bool;

    /// What `uncork` needs in order to hand on the data it held back.
    spec fn resumable(&self) -> bool;

    fn cork(&mut self)
        ensures
            final(self).paused(),
    ;

    fn corked(&self) -> (r: bool)
        ensures
            r == self.paused(),
    ;

    fn uncork(&mut self)
        requires
            old(self).resumable(),
        ensures
            !final(self).paused(),
    ;
}

/// A stream that data can be taken out of.
pub trait ReadableStream<T, H: Fn(&T)> {
    /// Registers the handler that sees every item that enters the stream.
    fn data(&mut self, handler: H);

    /// Takes the next item out of the stream, if there is one to give.
    fn read(&mut self) -> Option<T>;
}

/// The common life cycle of a stream: it can be closed, asked whether it
/// is closed, and piped into a writeable stream of type `W`.
pub trait Stream<T, W: WriteableStream<T>> {
    /// What `close` needs in order not to fail.
    spec fn closable(&self) -> bool;

    /// What `closed` needs in order to answer.
    spec fn observable(&self) -> bool;

    /// What `pipe` needs in order to hand its pending data to `target`.
    spec fn pipeable(&self, target: W) -> bool;

    fn close(&mut self)
        requires
            old(self).closable(),
    ;

    fn closed(&self) -> bool
        requires
            self.observable(),
    ;

    fn pipe(&mut self, stream: W)
        requires
            old(self).pipeable(stream),
    ;
}

/// A stream that rewrites every item with its transformer.
pub trait TransformableStream<T, F: Fn(T) -> T> {
    /// What `transform` needs in order to rewrite `data`.
    spec fn transformable(&self, data: T) -> bool;

    fn transform(&self, data: T) -> T
        requires
            self.transformable(data),
    ;

    /// Replaces the transformer.
    fn transformer(&mut self, handler: F);
}

/// A stream that data can be written into.
///
/// `written` is the record of every item written into the stream so far,
/// in order. `accepts(data)` says that the stream, and every stream it
/// hands data on to, takes `data` without failing. `wrote(data, after)`
/// says that `after` is what the stream may become when `data` is written
/// into it: each implementation defines it through the streams it hands
/// data on to, so that it says what reaches the end of a chain.
pub trait WriteableStream<T>: Sized {
    spec fn accepts(&self, data: T) -> bool;

    spec fn written(&self) -> Seq<T>;

    spec fn wrote(&self, data: T, after: Self) -> bool;

    fn write(&mut self, data: T)
        requires
            old(self).accepts(data),
        ensures
            final(self).written() == old(self).written().push(data),
            old(self).wrote(data, *final(self)),
            forall|d: T| #[trigger] old(self).accepts(d) ==> final(self).accepts(d),
    ;
}

/// Whatever `before` takes, `after` takes too.
pub open spec fn keeps_accepting<T, W: WriteableStream<T>>(before: W, after: W) -> bool {
    forall|d: T| #[trigger] before.accepts(d) ==> after.accepts(d)
}

/// `t0` takes every item of `items`.
pub open spec fn accepts_all<T, W: WriteableStream<T>>(t0: W, items: Seq<T>) -> bool {
    forall|i: int| 0 <= i < items.len() ==> t0.accepts(#[trigger] items[i])
}

/// `t1` is what `t0` may become when the items of `items` are written into
/// it one after the other, oldest first.
pub open spec fn wrote_all<T, W: WriteableStream<T>>(t0: W, items: Seq<T>, t1: W) -> bool
    decreases items.len(),
{
    if items.len() == 0 {
        t1 == t0
    } else {
        exists|mid: W| #[trigger]
            mid.wrote(items.last(), t1) && wrote_all(t0, items.drop_last(), mid)
    }
}

/// The target type of a stream that is never piped on: whatever it is
/// given is recorded and goes no further.
#[verifier::reject_recursive_types(T)]
pub struct Unpiped<T> {
    written: Ghost<Seq<T>>,
}

impl<T> Unpiped<T> {
    pub fn new() -> (u: Self)
        ensures
            u.written() == Seq::<T>::empty(),
    {
        Unpiped { written: Ghost(Seq::empty()) }
    }
}

impl<T> WriteableStream<T> for Unpiped<T> {
    open spec fn accepts(&self, data: T) -> bool {
        true
    }

    closed spec fn written(&self) -> Seq<T> {
        self.written@
    }

    open spec fn wrote(&self, data: T, after: Self) -> bool {
        after.written() == self.written().push(data)
    }

    fn write(&mut self, data: T) {
        self.written = Ghost(self.written@.push(data));
    }
}

} // verus!
