use std::marker::PhantomData;

use vstd::prelude::*;

use crate::drain::Drain;
use crate::pipe::Pipe;
use crate::stream::{keeps_accepting, StreamType, WriteableStream};

verus! {

/// A stream that can stand in a pipeline: it can take one step on an item
/// by itself, giving back what it would hand on.
pub trait SegmentStream<T>: WriteableStream<T> {
    /// `output` is what the stream may hand on when it is given `input`.
    spec fn passes(&self, input: T, output: T) -> bool;

    /// The stream can take a step on `data`.
    spec fn steps(&self, data: T) -> bool;

    /// Writing into the stream keeps how it steps and what it takes.
    proof fn lemma_wrote_keeps_settings(&self, data: T, after: Self)
        requires
            self.wrote(data, after),
        ensures
            forall|x: T, y: T|
                #![trigger after.passes(x, y)]
                #![trigger self.passes(x, y)]
                after.passes(x, y) == self.passes(x, y),
            forall|d: T| #[trigger] self.steps(d) ==> after.steps(d),
            forall|d: T| #[trigger] self.accepts(d) ==> after.accepts(d),
    ;

    fn process(&mut self, data: T) -> (out: T)
        requires
            old(self).steps(data),
        ensures
            final(self).written() == old(self).written().push(data),
            old(self).passes(data, out),
            forall|x: T, y: T|
                #![trigger final(self).passes(x, y)]
                #![trigger old(self).passes(x, y)]
                final(self).passes(x, y) == old(self).passes(x, y),
            forall|d: T| #[trigger] old(self).steps(d) ==> final(self).steps(d),
            forall|d: T| #[trigger] old(self).accepts(d) ==> final(self).accepts(d),
    ;
}

/// `after` steps as `before` does, and takes whatever `before` takes.
pub open spec fn keeps_settings<T, S: SegmentStream<T>>(before: S, after: S) -> bool {
    &&& forall|x: T, y: T|
        #![trigger after.passes(x, y)]
        #![trigger before.passes(x, y)]
        after.passes(x, y) == before.passes(x, y)
    &&& forall|d: T| #[trigger] before.steps(d) ==> after.steps(d)
    &&& keeps_accepting(before, after)
}

/// A segment stream of one of two kinds, so that a pipeline can hold
/// transforming and writing segments side by side.
pub enum Mixed<P, D> {
    Transform(P),
    Write(D),
}

impl<T, P: SegmentStream<T>, D: SegmentStream<T>> WriteableStream<T> for Mixed<P, D> {
    open spec fn accepts(&self, data: T) -> bool {
        match self {
            Mixed::Transform(p) => p.accepts(data),
            Mixed::Write(d) => d.accepts(data),
        }
    }

    open spec fn written(&self) -> Seq<T> {
        match self {
            Mixed::Transform(p) => p.written(),
            Mixed::Write(d) => d.written(),
        }
    }

    open spec fn wrote(&self, data: T, after: Self) -> bool {
        match (self, after) {
            (Mixed::Transform(p0), Mixed::Transform(p1)) => p0.wrote(data, p1),
            (Mixed::Write(d0), Mixed::Write(d1)) => d0.wrote(data, d1),
            _ => false,
        }
    }

    fn write(&mut self, data: T) {
        match self {
            Mixed::Transform(p) => p.write(data),
            Mixed::Write(d) => d.write(data),
        }
    }
}

impl<T, P: SegmentStream<T>, D: SegmentStream<T>> SegmentStream<T> for Mixed<P, D> {
    open spec fn passes(&self, input: T, output: T) -> bool {
        match self {
            Mixed::Transform(p) => p.passes(input, output),
            Mixed::Write(d) => d.passes(input, output),
        }
    }

    open spec fn steps(&self, data: T) -> bool {
        match self {
            Mixed::Transform(p) => p.steps(data),
            Mixed::Write(d) => d.steps(data),
        }
    }

    proof fn lemma_wrote_keeps_settings(&self, data: T, after: Self) {
        match (*self, after) {
            (Mixed::Transform(p0), Mixed::Transform(p1)) => p0.lemma_wrote_keeps_settings(
                data,
                p1,
            ),
            (Mixed::Write(d0), Mixed::Write(d1)) => d0.lemma_wrote_keeps_settings(data, d1),
            _ => {},
        }
    }

    fn process(&mut self, data: T) -> (out: T) {
        match self {
            Mixed::Transform(p) => p.process(data),
            Mixed::Write(d) => d.process(data),
        }
    }
}

/// A stream registered in a pipeline, with what kind of segment it is.
pub struct Segment<T, S> {
    stream_type: StreamType,
    stream: S,
    t: PhantomData<T>,
}

/// Turns a stream into a segment of a pipeline of streams of type `S`.
pub trait IntoSegment<T, S>: Sized {
    /// The kind of segment the stream becomes.
    spec fn segment_type(&self) -> StreamType;

    /// The stream the segment holds.
    spec fn segment_stream(&self) -> S;

    fn into(self) -> (seg: Segment<T, S>)
        ensures
            seg.kind() == self.segment_type(),
            seg.inner() == self.segment_stream(),
    ;
}

impl<T, S> Segment<T, S> {
    pub closed spec fn kind(&self) -> StreamType {
        self.stream_type
    }

    pub closed spec fn inner(&self) -> S {
        self.stream
    }

    pub fn stream(&self) -> (s: &S)
        ensures
            *s == self.inner(),
    {
        &self.stream
    }

    pub fn stream_mut(&mut self) -> (s: &mut S)
        ensures
            *s == old(self).inner(),
            final(self).inner() == *final(s),
            final(self).kind() == old(self).kind(),
    {
        &mut self.stream
    }

    pub fn stream_type(&self) -> (k: &StreamType)
        ensures
            *k == self.kind(),
    {
        &self.stream_type
    }
}

impl<T, F: Fn(T) -> T, W: WriteableStream<T>> IntoSegment<T, Pipe<T, F, W>> for Pipe<T, F, W> {
    open spec fn segment_type(&self) -> StreamType {
        StreamType::Transformable
    }

    open spec fn segment_stream(&self) -> Pipe<T, F, W> {
        *self
    }

    fn into(self) -> (seg: Segment<T, Pipe<T, F, W>>) {
        Segment { stream: self, stream_type: StreamType::Transformable, t: PhantomData }
    }
}

impl<T, F: Fn(&T), H: Fn(), C: Fn() -> bool, W: WriteableStream<T>> IntoSegment<
    T,
    Drain<T, F, H, C, W>,
> for Drain<T, F, H, C, W> {
    open spec fn segment_type(&self) -> StreamType {
        StreamType::Writeable
    }

    open spec fn segment_stream(&self) -> Drain<T, F, H, C, W> {
        *self
    }

    fn into(self) -> (seg: Segment<T, Drain<T, F, H, C, W>>) {
        Segment { stream: self, stream_type: StreamType::Writeable, t: PhantomData }
    }
}

impl<T, F: Fn(T) -> T, W: WriteableStream<T>, D> IntoSegment<T, Mixed<Pipe<T, F, W>, D>> for Pipe<
    T,
    F,
    W,
> {
    open spec fn segment_type(&self) -> StreamType {
        StreamType::Transformable
    }

    open spec fn segment_stream(&self) -> Mixed<Pipe<T, F, W>, D> {
        Mixed::Transform(*self)
    }

    fn into(self) -> (seg: Segment<T, Mixed<Pipe<T, F, W>, D>>) {
        Segment { stream: Mixed::Transform(self), stream_type: StreamType::Transformable, t: PhantomData }
    }
}

impl<T, F: Fn(&T), H: Fn(), C: Fn() -> bool, W: WriteableStream<T>, P> IntoSegment<
    T,
    Mixed<P, Drain<T, F, H, C, W>>,
> for Drain<T, F, H, C, W> {
    open spec fn segment_type(&self) -> StreamType {
        StreamType::Writeable
    }

    open spec fn segment_stream(&self) -> Mixed<P, Drain<T, F, H, C, W>> {
        Mixed::Write(*self)
    }

    fn into(self) -> (seg: Segment<T, Mixed<P, Drain<T, F, H, C, W>>>) {
        Segment { stream: Mixed::Write(self), stream_type: StreamType::Writeable, t: PhantomData }
    }
}

/// A segment's kind never changes: along any run of states in which each
/// step keeps the kind, as `stream_mut` and every operation of a pipeline
/// do, a segment has the kind it was made with, so one made from a pipe or
/// a drain is never readable.
pub proof fn lemma_segment_kind_stays<T, S>(states: Seq<Segment<T, S>>)
    requires
        states.len() > 0,
        forall|i: int|
            0 <= i < states.len() - 1 ==> #[trigger] states[i + 1].kind() == states[i].kind(),
    ensures
        forall|i: int| 0 <= i < states.len() ==> #[trigger] states[i].kind() == states[0].kind(),
    decreases states.len(),
{
    if states.len() > 1 {
        let prefix = states.drop_last();
        assert forall|i: int| 0 <= i < prefix.len() - 1 implies #[trigger] prefix[i + 1].kind()
            == prefix[i].kind() by {
            assert(states[i + 1].kind() == states[i].kind());
        }
        lemma_segment_kind_stays(prefix);
        assert forall|i: int| 0 <= i < states.len() implies #[trigger] states[i].kind()
            == states[0].kind() by {
            if i < states.len() - 1 {
                assert(prefix[i].kind() == prefix[0].kind());
            } else {
                let j = i - 1;
                assert(prefix[j].kind() == prefix[0].kind());
                assert(states[j + 1].kind() == states[j].kind());
            }
        }
    }
}

} // verus!
