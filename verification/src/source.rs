use vstd::prelude::*;

use crate::recorded::Recorded;
use crate::stream::{
    accepts_all, keeps_accepting, wrote_all, PausableStream, ReadableStream, Stream,
    WriteableStream,
};

verus! {

/// Where a target stands after it has been written every item of `pending`,
/// oldest first: it may have become `target1` by writing them one after
/// the other, its record holds them after what it held, and it still takes
/// whatever it took.
pub open spec fn flushed<T, W: WriteableStream<T>>(
    target0: W,
    pending: Seq<T>,
    target1: W,
) -> bool {
    &&& wrote_all(target0, pending, target1)
    &&& target1.written() == target0.written() + pending
    &&& keeps_accepting(target0, target1)
}

/// The head of a pipeline: it takes items from its user and hands them on
/// to the stream it is piped into; it keeps them in a buffer while there is
/// none, or while it is corked.
#[verifier::reject_recursive_types(T)]
pub struct Source<T, D, W> {
    buf: Vec<T>,
    pub corked: bool,
    data_callback: Option<Recorded<D, T>>,
    is_closed: bool,
    pub pipe_target: Option<W>,
}

impl<T, D: Fn(&T), W: WriteableStream<T>> Source<T, D, W> {
    /// The items held back, oldest first.
    pub closed spec fn buffer(&self) -> Seq<T> {
        self.buf@
    }

    pub closed spec fn is_corked(&self) -> bool {
        self.corked
    }

    pub closed spec fn target(&self) -> Option<W> {
        self.pipe_target
    }

    pub closed spec fn is_closed(&self) -> bool {
        self.is_closed
    }

    pub closed spec fn callback(&self) -> Option<D> {
        match self.data_callback {
            Some(cb) => Some(cb.func()),
            None => None,
        }
    }

    /// The items the data handler has been called with, oldest first.
    pub closed spec fn handler_calls(&self) -> Seq<T> {
        match self.data_callback {
            Some(cb) => cb.calls(),
            None => Seq::empty(),
        }
    }

    /// `self` and `other` are corked alike, closed alike, and have the same
    /// data handler, which has been called alike; their buffers and targets
    /// are not compared.
    pub open spec fn same_settings(&self, other: &Self) -> bool {
        &&& self.is_corked() == other.is_corked()
        &&& self.is_closed() == other.is_closed()
        &&& self.callback() == other.callback()
        &&& self.handler_calls() == other.handler_calls()
    }

    /// Once `self` is closed, `after` is closed too.
    pub open spec fn keeps_closed(&self, after: Self) -> bool {
        self.is_closed() ==> after.is_closed()
    }

    /// `after` is what handing `data` on makes of `self`: the item is
    /// written into the target if the source passes items through, and
    /// buffered otherwise.
    pub open spec fn handed_on(&self, data: T, after: Self) -> bool {
        &&& after.same_settings(self)
        &&& after.target() is Some == self.target() is Some
        &&& self.passes_through() ==> {
            &&& after.buffer() == self.buffer()
            &&& flushed(self.target()->0, seq![data], after.target()->0)
        }
        &&& !self.passes_through() ==> {
            &&& after.buffer() == self.buffer().push(data)
            &&& after.target() == self.target()
        }
    }

    /// `after` is what pushing `data` makes of `self`: the data handler, if
    /// there is one, is called with the item once more, and then the item is
    /// written into the target if the source passes items through, and
    /// buffered otherwise.
    pub open spec fn pushed(&self, data: T, after: Self) -> bool {
        &&& after.is_corked() == self.is_corked()
        &&& after.is_closed() == self.is_closed()
        &&& after.callback() == self.callback()
        &&& after.handler_calls() == if self.callback() is Some {
            self.handler_calls().push(data)
        } else {
            self.handler_calls()
        }
        &&& after.target() is Some == self.target() is Some
        &&& self.passes_through() ==> {
            &&& after.buffer() == self.buffer()
            &&& flushed(self.target()->0, seq![data], after.target()->0)
        }
        &&& !self.passes_through() ==> {
            &&& after.buffer() == self.buffer().push(data)
            &&& after.target() == self.target()
        }
    }

    /// `after` and `r` are what reading makes of `self`: a corked or empty
    /// source gives nothing and stays as it is; otherwise the oldest
    /// buffered item comes out.
    pub open spec fn read_gives(&self, r: Option<T>, after: Self) -> bool {
        &&& after.same_settings(self)
        &&& after.target() == self.target()
        &&& self.is_corked() || self.buffer().len() == 0 ==> r is None && after.buffer()
            == self.buffer()
        &&& !self.is_corked() && self.buffer().len() > 0 ==> r == Some(self.buffer()[0])
            && after.buffer() == self.buffer().drop_first()
    }

    /// An item given to the source now goes straight on to its target:
    /// the source is piped and not corked.
    pub open spec fn passes_through(&self) -> bool {
        !self.is_corked() && self.target() is Some
    }

    /// An open, uncorked source with an empty buffer, no data handler, and
    /// not piped into anything.
    pub fn new() -> (s: Self)
        ensures
            s.buffer() == Seq::<T>::empty(),
            !s.is_corked(),
            s.callback() is None,
            !s.is_closed(),
            s.target() is None,
    {
        Source {
            buf: Vec::new(),
            corked: false,
            data_callback: None,
            is_closed: false,
            pipe_target: None,
        }
    }

    /// Takes the oldest buffered item, unless the source is corked.
    fn next_item(&mut self) -> (r: Option<T>)
        ensures
            old(self).read_gives(r, *final(self)),
    {
        if self.corked {
            return None;
        }
        if self.buf.len() == 0 {
            None
        } else {
            Some(self.buf.remove(0))
        }
    }

    /// Writes `data` into the target if the source passes items through,
    /// and buffers it otherwise.
    fn hand_on(&mut self, data: T)
        requires
            old(self).passes_through() ==> old(self).target()->0.accepts(data),
        ensures
            old(self).handed_on(data, *final(self)),
    {
        if self.corked {
            self.buf.push(data);
            return ;
        }
        match &mut self.pipe_target {
            Some(ws) => {
                let ghost t0 = *ws;
                ws.write(data);
                proof {
                    let t1 = *ws;
                    assert(seq![data].drop_last() =~= Seq::<T>::empty());
                    assert(wrote_all(t0, Seq::<T>::empty(), t0));
                    assert(t0.wrote(seq![data].last(), t1));
                    assert(wrote_all(t0, seq![data], t1));
                    assert(t1.written() =~= t0.written() + seq![data]);
                }
            },
            None => self.buf.push(data),
        }
    }

    /// Gives `data` to the source as its last item, as `push` does but
    /// without the data handler; then closes the source and unpipes it,
    /// handing the stream it was piped into back.
    pub fn end(&mut self, data: T) -> (detached: Option<W>)
        requires
            !old(self).is_closed(),
            old(self).passes_through() ==> old(self).target()->0.accepts(data),
        ensures
            final(self).is_closed(),
            final(self).target() is None,
            final(self).is_corked() == old(self).is_corked(),
            final(self).callback() == old(self).callback(),
            final(self).handler_calls() == old(self).handler_calls(),
            detached is Some == old(self).target() is Some,
            old(self).passes_through() ==> {
                &&& final(self).buffer() == old(self).buffer()
                &&& flushed(old(self).target()->0, seq![data], detached->0)
            },
            !old(self).passes_through() ==> {
                &&& final(self).buffer() == old(self).buffer().push(data)
                &&& detached == old(self).target()
            },
    {
        self.hand_on(data);
        self.is_closed = true;
        self.pipe_target.take()
    }

    /// Pushes `data` into the source: the data handler sees it; then it is
    /// written into the stream the source is piped into, or buffered where
    /// there is none or the source is corked.
    pub fn push(&mut self, data: T)
        requires
            !old(self).is_closed(),
            old(self).callback() matches Some(cb) ==> call_requires(cb, (&data,)),
            old(self).passes_through() ==> old(self).target()->0.accepts(data),
        ensures
            old(self).keeps_closed(*final(self)),
            old(self).callback() matches Some(cb) ==> call_ensures(cb, (&data,), ()),
            old(self).pushed(data, *final(self)),
    {
        if let Some(cb) = &mut self.data_callback {
            cb.call_with(&data);
        }
        self.hand_on(data);
    }

    /// Unless the source is corked, hands every buffered item, oldest first,
    /// to the stream the source is piped into, if there is one.
    pub fn push_to_pipe(&mut self)
        requires
            old(self).passes_through() ==> accepts_all(old(self).target()->0, old(self).buffer()),
        ensures
            old(self).keeps_closed(*final(self)),
            final(self).same_settings(old(self)),
            final(self).target() is Some == old(self).target() is Some,
            old(self).passes_through() ==> {
                &&& final(self).buffer() == Seq::<T>::empty()
                &&& flushed(old(self).target()->0, old(self).buffer(), final(self).target()->0)
            },
            !old(self).passes_through() ==> {
                &&& final(self).buffer() == old(self).buffer()
                &&& final(self).target() == old(self).target()
            },
    {
        if self.corked {
            return ;
        }
        let ghost b0 = self.buf@;
        let ghost s0 = *self;
        match self.pipe_target.take() {
            Some(mut ws) => {
                let ghost t0 = ws;
                proof {
                    assert(b0.take(0) =~= Seq::<T>::empty());
                }
                loop
                    invariant_except_break
                        self.same_settings(&s0),
                        !self.is_corked(),
                        self.target() is None,
                        b0.len() >= self.buffer().len(),
                        b0 == b0.take(b0.len() - self.buffer().len()) + self.buffer(),
                        flushed(t0, b0.take(b0.len() - self.buffer().len()), ws),
                        accepts_all(t0, b0),
                    ensures
                        self.same_settings(&s0),
                        self.target() is None,
                        self.buffer() == Seq::<T>::empty(),
                        flushed(t0, b0, ws),
                    decreases self.buffer().len(),
                {
                    let ghost k = b0.len() - self.buffer().len();
                    let ghost w0 = ws;
                    match self.next_item() {
                        Some(c) => {
                            proof {
                                assert(c == b0[k]);
                                assert(t0.accepts(b0[k]));
                            }
                            ws.write(c);
                            proof {
                                let done = b0.take(k + 1);
                                assert(done.drop_last() =~= b0.take(k));
                                assert(done.last() == c);
                                assert(w0.wrote(done.last(), ws));
                                assert(wrote_all(t0, done, ws));
                                assert(ws.written() =~= t0.written() + done);
                                assert(b0 =~= done + self.buffer());
                            }
                        },
                        None => {
                            proof {
                                assert(b0.take(b0.len() as int) =~= b0);
                            }
                            break;
                        },
                    }
                }
                self.pipe_target = Some(ws);
            },
            None => {},
        }
    }
}

impl<T, D: Fn(&T), W: WriteableStream<T>> PausableStream for Source<T, D, W> {
    open spec fn paused(&self) -> bool {
        self.is_corked()
    }

    open spec fn resumable(&self) -> bool {
        self.target() matches Some(t) ==> accepts_all(t, self.buffer())
    }

    /// Corks the source: from now on pushed items wait in the buffer.
    fn cork(&mut self)
        ensures
            old(self).keeps_closed(*final(self)),
            final(self).buffer() == old(self).buffer(),
            final(self).is_closed() == old(self).is_closed(),
            final(self).callback() == old(self).callback(),
            final(self).handler_calls() == old(self).handler_calls(),
            final(self).target() == old(self).target(),
    {
        self.corked = true;
    }

    fn corked(&self) -> (r: bool) {
        self.corked
    }

    /// Uncorks the source and hands everything it held back, oldest first,
    /// on to the stream it is piped into, if there is one.
    fn uncork(&mut self)
        ensures
            old(self).keeps_closed(*final(self)),
            final(self).is_closed() == old(self).is_closed(),
            final(self).callback() == old(self).callback(),
            final(self).handler_calls() == old(self).handler_calls(),
            final(self).target() is Some == old(self).target() is Some,
            match old(self).target() {
                Some(t0) => {
                    &&& final(self).buffer() == Seq::<T>::empty()
                    &&& flushed(t0, old(self).buffer(), final(self).target()->0)
                },
                None => final(self).buffer() == old(self).buffer(),
            },
    {
        self.corked = false;
        self.push_to_pipe();
    }
}

impl<T, D: Fn(&T), W: WriteableStream<T>> ReadableStream<T, D> for Source<T, D, W> {
    /// Takes the oldest buffered item; a corked source gives nothing.
    fn read(&mut self) -> (r: Option<T>)
        ensures
            old(self).keeps_closed(*final(self)),
            old(self).read_gives(r, *final(self)),
    {
        self.next_item()
    }

    /// From now on `handler` sees every item pushed into the source.
    fn data(&mut self, handler: D)
        ensures
            old(self).keeps_closed(*final(self)),
            final(self).callback() == Some(handler),
            final(self).handler_calls() == Seq::<T>::empty(),
            final(self).buffer() == old(self).buffer(),
            final(self).is_corked() == old(self).is_corked(),
            final(self).is_closed() == old(self).is_closed(),
            final(self).target() == old(self).target(),
    {
        self.data_callback = Some(Recorded::new(handler));
    }
}

impl<T, D: Fn(&T), W: WriteableStream<T>> Stream<T, W> for Source<T, D, W> {
    open spec fn closable(&self) -> bool {
        !self.is_closed()
    }

    open spec fn observable(&self) -> bool {
        true
    }

    open spec fn pipeable(&self, target: W) -> bool {
        !self.is_corked() ==> accepts_all(target, self.buffer())
    }

    /// Closes the source; a source cannot be closed twice.
    fn close(&mut self)
        ensures
            old(self).keeps_closed(*final(self)),
            final(self).is_closed(),
            final(self).is_corked() == old(self).is_corked(),
            final(self).callback() == old(self).callback(),
            final(self).handler_calls() == old(self).handler_calls(),
            final(self).buffer() == old(self).buffer(),
            final(self).target() == old(self).target(),
    {
        self.is_closed = true;
    }

    fn closed(&self) -> (r: bool)
        ensures
            r == self.is_closed(),
    {
        self.is_closed
    }

    /// Pipes the source into `stream`; unless the source is corked, every
    /// buffered item is handed to `stream` at once, oldest first.
    fn pipe(&mut self, stream: W)
        ensures
            old(self).keeps_closed(*final(self)),
            final(self).same_settings(old(self)),
            final(self).target() is Some,
            old(self).is_corked() ==> final(self).target() == Some(stream) && final(self).buffer()
                == old(self).buffer(),
            !old(self).is_corked() ==> final(self).buffer() == Seq::<T>::empty() && flushed(
                stream,
                old(self).buffer(),
                final(self).target()->0,
            ),
    {
        self.pipe_target = Some(stream);
        if self.corked {
            return ;
        }
        self.push_to_pipe();
    }
}

/// Reading right after a push gives the pushed item back: pushed into an
/// uncorked, unpiped source with an empty buffer, an item is the one read
/// next, and reading it leaves the source as it was.
pub proof fn lemma_read_returns_pushed<T, D: Fn(&T), W: WriteableStream<T>>(
    s0: Source<T, D, W>,
    data: T,
    s1: Source<T, D, W>,
    r: Option<T>,
    s2: Source<T, D, W>,
)
    requires
        !s0.is_corked(),
        s0.target() is None,
        s0.buffer().len() == 0,
        s0.pushed(data, s1),
        s1.read_gives(r, s2),
    ensures
        r == Some(data),
        s2.buffer() == s0.buffer(),
        s2.is_corked() == s0.is_corked(),
        s2.is_closed() == s0.is_closed(),
        s2.callback() == s0.callback(),
        s2.target() is None,
{
    assert(s1.buffer() == seq![data]);
    assert(s2.buffer() =~= s0.buffer());
}

/// A closed source stays closed: along any run of states in which each
/// step keeps a closed source closed, as every operation on a source does,
/// a source closed at the start is closed throughout.
pub proof fn lemma_closed_source_stays_closed<T, D: Fn(&T), W: WriteableStream<T>>(
    states: Seq<Source<T, D, W>>,
)
    requires
        states.len() > 0,
        states[0].is_closed(),
        forall|i: int| 0 <= i < states.len() - 1 ==> #[trigger] states[i].keeps_closed(states[i + 1]),
    ensures
        forall|i: int| 0 <= i < states.len() ==> #[trigger] states[i].is_closed(),
    decreases states.len(),
{
    if states.len() > 1 {
        let prefix = states.drop_last();
        assert forall|i: int| 0 <= i < prefix.len() - 1 implies #[trigger] prefix[i].keeps_closed(
            prefix[i + 1],
        ) by {
            assert(states[i].keeps_closed(states[i + 1]));
        }
        lemma_closed_source_stays_closed(prefix);
        assert forall|i: int| 0 <= i < states.len() implies #[trigger] states[i].is_closed() by {
            if i < states.len() - 1 {
                assert(prefix[i].is_closed());
            } else {
                let j = i - 1;
                assert(prefix[j].is_closed());
                assert(states[j].keeps_closed(states[j + 1]));
            }
        }
    }
}

/// Each push calls the source's data handler exactly once, with the pushed
/// item, whether the source is piped or not and corked or not; a source
/// without a data handler calls nothing.
pub proof fn lemma_push_calls_handler_once<T, D: Fn(&T), W: WriteableStream<T>>(
    s0: Source<T, D, W>,
    data: T,
    s1: Source<T, D, W>,
)
    requires
        s0.pushed(data, s1),
    ensures
        s0.callback() is Some ==> {
            &&& s1.handler_calls().len() == s0.handler_calls().len() + 1
            &&& s1.handler_calls().last() == data
            &&& s1.handler_calls().drop_last() == s0.handler_calls()
        },
        s0.callback() is None ==> s1.handler_calls() == s0.handler_calls(),
        s1.callback() == s0.callback(),
{
    if s0.callback() is Some {
        assert(s1.handler_calls().drop_last() =~= s0.handler_calls());
    }
}

} // verus!
