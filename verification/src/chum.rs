use vstd::prelude::*;

use crate::segment::{keeps_settings, IntoSegment, Segment, SegmentStream};
use crate::stream::{StreamType, WriteableStream};

verus! {

/// How many segments an item written into a pipeline with these links runs
/// through, counting from segment `i`: it goes on from a segment as long as
/// that segment is linked to the next one.
pub open spec fn flow_from(links: Seq<Option<usize>>, i: nat) -> nat
    decreases links.len() - i,
{
    if i >= links.len() {
        i
    } else if links[i as int] is Some {
        flow_from(links, i + 1)
    } else {
        i + 1
    }
}

/// Each segment is linked to nothing or to the segment after it.
pub open spec fn links_forward(links: Seq<Option<usize>>) -> bool {
    forall|k: int|
        0 <= k < links.len() ==> (#[trigger] links[k] matches Some(j) ==> j == k + 1 && j
            < links.len())
}

/// A pipeline of streams of type `S`: items written into it run through
/// its segments, from the first, as far as the segments are linked.
#[verifier::reject_recursive_types(T)]
pub struct Chum<T, S> {
    pipeline: Vec<Segment<T, S>>,
    links: Vec<Option<usize>>,
    written: Ghost<Seq<T>>,
}

impl<T, S: SegmentStream<T>> Chum<T, S> {
    /// The registered segments, in order.
    pub closed spec fn segments(&self) -> Seq<Segment<T, S>> {
        self.pipeline@
    }

    /// For each segment, the segment it hands its output to.
    pub closed spec fn links(&self) -> Seq<Option<usize>> {
        self.links@
    }

    pub open spec fn wf(&self) -> bool {
        &&& self.links().len() == self.segments().len()
        &&& links_forward(self.links())
    }

    /// How many segments an item written into the pipeline runs through.
    pub open spec fn flow(&self) -> nat {
        flow_from(self.links(), 0)
    }

    /// The stream of segment `k`.
    pub open spec fn stream_at(&self, k: int) -> S {
        self.segments()[k].inner()
    }

    /// The item segment `k` was given last.
    pub open spec fn last_input(&self, k: int) -> T {
        self.stream_at(k).written().last()
    }

    /// An empty pipeline.
    pub fn new() -> (c: Self)
        ensures
            c.wf(),
            c.segments() == Seq::<Segment<T, S>>::empty(),
            c.written() == Seq::<T>::empty(),
            c.flow() == 0,
    {
        Chum { pipeline: Vec::new(), links: Vec::new(), written: Ghost(Seq::empty()) }
    }

    /// Registers a new segment at the end of the pipeline, not linked to
    /// anything; a readable segment is refused and the pipeline left as it
    /// was.
    pub fn register<I: IntoSegment<T, S>>(&mut self, segment: I) -> (r: Result<&mut Self, ()>)
        requires
            old(self).wf(),
        ensures
            segment.segment_type() == StreamType::Readable ==> {
                &&& r is Err
                &&& *final(self) == *old(self)
            },
            segment.segment_type() != StreamType::Readable ==> (r matches Ok(c) && {
                &&& c.wf()
                &&& c.written() == old(self).written()
                &&& c.segments().len() == old(self).segments().len() + 1
                &&& c.segments().drop_last() == old(self).segments()
                &&& c.segments().last().kind() == segment.segment_type()
                &&& c.segments().last().inner() == segment.segment_stream()
                &&& c.links() == old(self).links().push(None)
                &&& c.flow() == if old(self).segments().len() == 0 {
                    1
                } else {
                    old(self).flow()
                }
                &&& *final(self) == *final(c)
            }),
    {
        let segment: Segment<T, S> = segment.into();
        match *segment.stream_type() {
            StreamType::Readable => return Err(()),
            StreamType::Transformable => self.pipeline.push(segment),
            StreamType::Writeable => self.pipeline.push(segment),
        }
        self.links.push(None);
        proof {
            if old(self).links@.len() > 0 {
                lemma_flow_ignores_unlinked_tail(old(self).links@, 0);
            }
            assert forall|k: int| 0 <= k < self.links@.len() implies (#[trigger] self.links@[k]
                matches Some(j) ==> j == k + 1 && j < self.links@.len()) by {
                if k < self.links@.len() - 1 {
                    assert(self.links@[k] == old(self).links@[k]);
                }
            }
        }
        Ok(self)
    }

    /// Links every segment to the one after it, so that an item written
    /// into the pipeline runs through all of its segments. With fewer than
    /// two segments there is nothing to link.
    pub fn build_pipeline(&mut self)
        requires
            old(self).wf(),
        ensures
            final(self).wf(),
            final(self).segments() == old(self).segments(),
            final(self).written() == old(self).written(),
            old(self).segments().len() < 2 ==> final(self).links() == old(self).links(),
            old(self).segments().len() >= 2 ==> {
                &&& forall|k: int|
                    0 <= k < old(self).segments().len() - 1 ==> #[trigger] final(self).links()[k]
                        == Some((k + 1) as usize)
                &&& final(self).links().last() == old(self).links().last()
                &&& final(self).flow() == old(self).segments().len()
            },
    {
        if self.pipeline.len() < 2 {
            return ;
        }
        let n = self.pipeline.len();
        let ghost l0 = self.links@;
        let mut i: usize = 0;
        while i + 1 < n
            invariant
                n == self.pipeline.len(),
                n >= 2,
                i + 1 <= n,
                self.pipeline@ == old(self).pipeline@,
                self.written == old(self).written,
                self.links@.len() == n,
                l0 == old(self).links@,
                l0.len() == n,
                links_forward(l0),
                forall|k: int| 0 <= k < i ==> #[trigger] self.links@[k] == Some((k + 1) as usize),
                forall|k: int| i <= k < n ==> #[trigger] self.links@[k] == l0[k],
            decreases n - i,
        {
            self.links.set(i, Some(i + 1));
            i = i + 1;
        }
        proof {
            lemma_flow_through_all(self.links@, 0);
        }
    }
}

/// An item never runs past the last segment.
pub proof fn lemma_flow_bounded(links: Seq<Option<usize>>, i: nat)
    requires
        i <= links.len(),
    ensures
        i <= flow_from(links, i) <= links.len(),
    decreases links.len() - i,
{
    if i < links.len() {
        lemma_flow_bounded(links, i + 1);
    }
}

/// A segment registered after the last one, unlinked, changes nothing about
/// how far an item runs through a pipeline whose links all point forward.
pub proof fn lemma_flow_ignores_unlinked_tail(links: Seq<Option<usize>>, i: nat)
    requires
        links_forward(links),
        i < links.len(),
    ensures
        flow_from(links.push(None), i) == flow_from(links, i),
    decreases links.len() - i,
{
    assert(links.push(None)[i as int] == links[i as int]);
    if links[i as int] is Some {
        lemma_flow_ignores_unlinked_tail(links, i + 1);
    }
}

/// Until its segments are linked, a non-empty pipeline hands an item only
/// to its first segment.
pub proof fn lemma_unlinked_pipeline_reaches_head(links: Seq<Option<usize>>)
    requires
        links.len() > 0,
        forall|k: int| 0 <= k < links.len() ==> #[trigger] links[k] is None,
    ensures
        flow_from(links, 0) == 1,
{
}

/// Where every segment but the last is linked to the next one, an item
/// written at segment `i` runs through every segment from `i` on.
pub proof fn lemma_flow_through_all(links: Seq<Option<usize>>, i: nat)
    requires
        i < links.len(),
        forall|k: int| 0 <= k < links.len() - 1 ==> #[trigger] links[k] is Some,
    ensures
        flow_from(links, i) == links.len(),
    decreases links.len() - i,
{
    if i + 1 < links.len() {
        lemma_flow_through_all(links, i + 1);
    } else {
        assert(flow_from(links, i + 1) == links.len());
    }
}

/// An item `data` that reaches segment `i` can run on from there without
/// failing: each linked segment can step on what it is given, and the
/// segment where the item stops takes it.
pub open spec fn chain_accepts<T, S: SegmentStream<T>>(
    segs: Seq<Segment<T, S>>,
    links: Seq<Option<usize>>,
    i: nat,
    data: T,
) -> bool
    decreases segs.len() - i,
{
    if i >= segs.len() {
        true
    } else if links[i as int] is Some && i + 1 < segs.len() {
        &&& segs[i as int].inner().steps(data)
        &&& forall|out: T|
            #[trigger] segs[i as int].inner().passes(data, out) ==> chain_accepts(
                segs,
                links,
                i + 1,
                out,
            )
    } else {
        segs[i as int].inner().accepts(data)
    }
}

/// Segments that keep their settings keep taking what they took.
pub proof fn lemma_chain_accepts_kept<T, S: SegmentStream<T>>(
    segs0: Seq<Segment<T, S>>,
    segs1: Seq<Segment<T, S>>,
    links: Seq<Option<usize>>,
    i: nat,
    data: T,
)
    requires
        segs1.len() == segs0.len(),
        forall|k: int|
            i <= k < segs0.len() ==> keeps_settings(
                #[trigger] segs0[k].inner(),
                segs1[k].inner(),
            ),
        chain_accepts(segs0, links, i, data),
    ensures
        chain_accepts(segs1, links, i, data),
    decreases segs0.len() - i,
{
    if i < segs0.len() {
        let s0 = segs0[i as int].inner();
        let s1 = segs1[i as int].inner();
        assert(keeps_settings(s0, s1));
        if links[i as int] is Some && i + 1 < segs0.len() {
            assert forall|out: T| #[trigger] s1.passes(data, out) implies chain_accepts(
                segs1,
                links,
                i + 1,
                out,
            ) by {
                assert(s0.passes(data, out));
                lemma_chain_accepts_kept(segs0, segs1, links, i + 1, out);
            }
        } else {
            assert(s0.accepts(data));
        }
    }
}

impl<T, S: SegmentStream<T>> WriteableStream<T> for Chum<T, S> {
    /// The pipeline is well formed and `data` can run through the segments
    /// it reaches.
    open spec fn accepts(&self, data: T) -> bool {
        &&& self.wf()
        &&& chain_accepts(self.segments(), self.links(), 0, data)
    }

    closed spec fn written(&self) -> Seq<T> {
        self.written@
    }

    /// The pipeline keeps its links, the kinds of its segments and their
    /// settings, and records `data`. The first segment gets `data`; each
    /// segment that is linked on steps on what it gets and hands the result
    /// to the next; the segment where the item stops is written it, and
    /// hands it on to its own target; segments further on are untouched.
    open spec fn wrote(&self, data: T, after: Self) -> bool {
        let n = self.flow();
        &&& after.links() == self.links()
        &&& after.segments().len() == self.segments().len()
        &&& after.written() == self.written().push(data)
        &&& forall|k: int|
            0 <= k < self.segments().len() ==> {
                &&& (#[trigger] after.segments()[k]).kind() == self.segments()[k].kind()
                &&& keeps_settings(self.stream_at(k), after.stream_at(k))
            }
        &&& n > 0 ==> after.last_input(0) == data
        &&& forall|k: int|
            0 <= k < n - 1 ==> {
                &&& (#[trigger] after.stream_at(k)).written() == self.stream_at(k).written().push(
                    after.last_input(k),
                )
                &&& self.stream_at(k).passes(after.last_input(k), after.last_input(k + 1))
            }
        &&& n > 0 ==> self.stream_at(n - 1).wrote(
            after.last_input(n - 1),
            after.stream_at(n - 1),
        )
        &&& n > 0 ==> after.stream_at(n - 1).written() == self.stream_at(n - 1).written().push(
            after.last_input(n - 1),
        )
        &&& forall|k: int|
            n <= k < self.segments().len() ==> #[trigger] after.segments()[k]
                == self.segments()[k]
    }

    /// Runs `data` through the pipeline: the first segment takes it, each
    /// segment that is linked on hands what it makes to the next one, and
    /// the segment where it stops writes it on to its own target.
    fn write(&mut self, data: T) {
        self.written = Ghost(self.written@.push(data));
        let n = self.pipeline.len();
        if n == 0 {
            return ;
        }
        let ghost p0 = self.pipeline@;
        let ghost l0 = self.links@;
        let mut i: usize = 0;
        let mut cur = data;
        loop
            invariant_except_break
                n == self.pipeline.len(),
                n > 0,
                i < n,
                self.links@ == l0,
                l0.len() == n,
                links_forward(l0),
                p0 == old(self).pipeline@,
                p0.len() == n,
                self.written@ == old(self).written@.push(data),
                flow_from(l0, i as nat) == flow_from(l0, 0),
                forall|k: int| 0 <= k < i ==> #[trigger] l0[k] is Some,
                chain_accepts(p0, l0, i as nat, cur),
                forall|k: int|
                    0 <= k < n ==> (#[trigger] self.pipeline@[k]).kind() == p0[k].kind(),
                forall|k: int|
                    0 <= k < i ==> keeps_settings(
                        p0[k].inner(),
                        (#[trigger] self.pipeline@[k]).inner(),
                    ),
                forall|k: int|
                    0 <= k < i ==> (#[trigger] self.pipeline@[k]).inner().written()
                        == p0[k].inner().written().push(self.pipeline@[k].inner().written().last()),
                i > 0 ==> self.pipeline@[0].inner().written().last() == data,
                forall|k: int|
                    0 < k < i ==> p0[k - 1].inner().passes(
                        self.pipeline@[k - 1].inner().written().last(),
                        #[trigger] self.pipeline@[k].inner().written().last(),
                    ),
                i == 0 ==> cur == data,
                i > 0 ==> p0[i - 1].inner().passes(
                    self.pipeline@[i - 1].inner().written().last(),
                    cur,
                ),
                forall|k: int| i <= k < n ==> #[trigger] self.pipeline@[k] == p0[k],
            ensures
                self.links@ == l0,
                n == self.pipeline.len(),
                self.written@ == old(self).written@.push(data),
                flow_from(l0, 0) >= 1,
                flow_from(l0, 0) <= n,
                forall|k: int|
                    0 <= k < n ==> (#[trigger] self.pipeline@[k]).kind() == p0[k].kind(),
                forall|k: int|
                    0 <= k < n ==> keeps_settings(
                        p0[k].inner(),
                        (#[trigger] self.pipeline@[k]).inner(),
                    ),
                forall|k: int|
                    0 <= k < flow_from(l0, 0) ==> (#[trigger] self.pipeline@[k]).inner().written()
                        == p0[k].inner().written().push(self.pipeline@[k].inner().written().last()),
                self.pipeline@[0].inner().written().last() == data,
                forall|k: int|
                    0 < k < flow_from(l0, 0) ==> p0[k - 1].inner().passes(
                        self.pipeline@[k - 1].inner().written().last(),
                        #[trigger] self.pipeline@[k].inner().written().last(),
                    ),
                p0[flow_from(l0, 0) - 1].inner().wrote(
                    self.pipeline@[flow_from(l0, 0) - 1].inner().written().last(),
                    self.pipeline@[flow_from(l0, 0) - 1].inner(),
                ),
                forall|k: int|
                    flow_from(l0, 0) <= k < n ==> #[trigger] self.pipeline@[k] == p0[k],
            decreases n - i,
        {
            match self.links[i] {
                Some(j) => {
                    proof {
                        assert(l0[i as int] == Some(j));
                        assert(j == i + 1 && j < n);
                        assert(p0[i as int].inner().steps(cur));
                    }
                    let seg = &mut self.pipeline[i];
                    let stream = seg.stream_mut();
                    let out = stream.process(cur);
                    i = j;
                    cur = out;
                },
                None => {
                    let ghost before = self.pipeline@[i as int].inner();
                    let ghost v = cur;
                    proof {
                        assert(l0[i as int] is None);
                        assert(before.accepts(cur));
                    }
                    let seg = &mut self.pipeline[i];
                    let stream = seg.stream_mut();
                    stream.write(cur);
                    proof {
                        let after = self.pipeline@[i as int].inner();
                        before.lemma_wrote_keeps_settings(v, after);
                        assert(after.written().last() == v);
                        assert forall|k: int| 0 <= k < n implies keeps_settings(
                            p0[k].inner(),
                            (#[trigger] self.pipeline@[k]).inner(),
                        ) by {
                            if k > i {
                                assert(self.pipeline@[k] == p0[k]);
                            }
                        }
                    }
                    break;
                },
            }
        }
        proof {
            let m = flow_from(l0, 0);
            let p1 = self.pipeline@;
            assert(self.segments() == p1);
            assert forall|d: T| #[trigger] old(self).accepts(d) implies self.accepts(d) by {
                lemma_chain_accepts_kept(p0, p1, l0, 0, d);
            }
        }
    }
}

} // verus!
