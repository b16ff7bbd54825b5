//! Sorting the streams of a playlist by bandwidth.

use crate::format::{MultivariantPlaylist, PlaylistView, StreamInf, StreamInfView};
use crate::retain::{lemma_filter_everything, lemma_filter_nothing};
use crate::validate::lemma_part_is_valid;
use crate::views::views;
use vstd::prelude::*;

verus! {

/// Accepts the streams whose bandwidth is `bandwidth`.
pub open spec fn has_bandwidth(bandwidth: u64) -> spec_fn(StreamInfView) -> bool {
    |s: StreamInfView| s.bandwidth == bandwidth
}

/// No stream needs more bandwidth than a stream before it.
pub open spec fn descending(streams: Seq<StreamInfView>) -> bool {
    forall|i: int, j: int|
        0 <= i < j < streams.len() ==> (#[trigger] streams[i]).bandwidth >= (
        #[trigger] streams[j]).bandwidth
}

/// Streams are in descending order exactly when no stream needs more
/// bandwidth than the stream just before it.
pub proof fn law_descending_iff_adjacent(streams: Seq<StreamInfView>)
    ensures
        descending(streams) <==> forall|i: int|
            0 <= i < streams.len() - 1 ==> (#[trigger] streams[i]).bandwidth >= streams[i
                + 1].bandwidth,
{
    if forall|i: int|
        0 <= i < streams.len() - 1 ==> (#[trigger] streams[i]).bandwidth >= streams[i
            + 1].bandwidth {
        assert forall|i: int, j: int| 0 <= i < j < streams.len() implies (
        #[trigger] streams[i]).bandwidth >= (#[trigger] streams[j]).bandwidth by {
            lemma_adjacent_reaches(streams, i, j);
        }
    }
}

proof fn lemma_adjacent_reaches(streams: Seq<StreamInfView>, i: int, j: int)
    requires
        0 <= i < j < streams.len(),
        forall|k: int|
            0 <= k < streams.len() - 1 ==> (#[trigger] streams[k]).bandwidth >= streams[k
                + 1].bandwidth,
    ensures
        streams[i].bandwidth >= streams[j].bandwidth,
    decreases j - i,
{
    if i + 1 < j {
        lemma_adjacent_reaches(streams, i, j - 1);
    }
    assert(streams[j - 1].bandwidth >= streams[j - 1 + 1].bandwidth);
}

/// The streams of each bandwidth are the same in `after` as in `before`, and
/// in the same order.
pub open spec fn same_in_each_bandwidth(
    after: Seq<StreamInfView>,
    before: Seq<StreamInfView>,
) -> bool {
    forall|bandwidth: u64|
        #[trigger] after.filter(has_bandwidth(bandwidth)) == before.filter(
            has_bandwidth(bandwidth),
        )
}

/// A stream put behind streams of larger bandwidth only comes first among
/// the streams of its own bandwidth, and leaves those of any other bandwidth
/// as they were.
proof fn lemma_filter_after_insert(
    streams: Seq<StreamInfView>,
    at: int,
    stream: StreamInfView,
    bandwidth: u64,
)
    requires
        0 <= at <= streams.len(),
        forall|k: int| 0 <= k < at ==> (#[trigger] streams[k]).bandwidth > stream.bandwidth,
    ensures
        streams.insert(at, stream).filter(has_bandwidth(bandwidth)) == (seq![stream]
            + streams).filter(has_bandwidth(bandwidth)),
{
    let accepts = has_bandwidth(bandwidth);
    let front = streams.take(at);
    let back = streams.skip(at);
    assert(streams.insert(at, stream) =~= front + seq![stream] + back);
    assert(seq![stream] + streams =~= seq![stream] + front + back);
    Seq::filter_distributes_over_add(front + seq![stream], back, accepts);
    Seq::filter_distributes_over_add(front, seq![stream], accepts);
    Seq::filter_distributes_over_add(seq![stream] + front, back, accepts);
    Seq::filter_distributes_over_add(seq![stream], front, accepts);
    if bandwidth == stream.bandwidth {
        lemma_filter_nothing(front, accepts);
    } else {
        lemma_filter_nothing(seq![stream], accepts);
    }
    assert((front + seq![stream]).filter(accepts) =~= (seq![stream] + front).filter(accepts));
}

/// The first of some streams comes first among those of its bandwidth, and
/// plays no part among those of any other.
proof fn lemma_filter_first(streams: Seq<StreamInfView>, bandwidth: u64)
    requires
        streams.len() > 0,
    ensures
        streams.filter(has_bandwidth(bandwidth)) == if streams[0].bandwidth == bandwidth {
            seq![streams[0]] + streams.drop_first().filter(has_bandwidth(bandwidth))
        } else {
            streams.drop_first().filter(has_bandwidth(bandwidth))
        },
{
    let accepts = has_bandwidth(bandwidth);
    let first = seq![streams[0]];
    assert(streams =~= first + streams.drop_first());
    Seq::filter_distributes_over_add(first, streams.drop_first(), accepts);
    if streams[0].bandwidth == bandwidth {
        lemma_filter_everything(first, accepts);
    } else {
        lemma_filter_nothing(first, accepts);
        assert(Seq::<StreamInfView>::empty() + streams.drop_first().filter(accepts)
            =~= streams.drop_first().filter(accepts));
    }
}

/// In descending order, no stream needs more bandwidth than the first.
proof fn lemma_first_is_largest(a: Seq<StreamInfView>, b: Seq<StreamInfView>)
    requires
        a.len() > 0,
        descending(b),
        same_in_each_bandwidth(a, b),
    ensures
        b.len() > 0,
        b[0].bandwidth >= a[0].bandwidth,
{
    let accepts = has_bandwidth(a[0].bandwidth);
    lemma_filter_first(a, a[0].bandwidth);
    assert(a.filter(accepts) == b.filter(accepts));
    assert(a.filter(accepts).len() > 0);
    if forall|k: int| 0 <= k < b.len() ==> !accepts(#[trigger] b[k]) {
        lemma_filter_nothing(b, accepts);
    }
    let k = choose|k: int| 0 <= k < b.len() && accepts(#[trigger] b[k]);
    if k > 0 {
        assert(b[0].bandwidth >= b[k].bandwidth);
    }
}

/// The sorted order is unique: two sequences in descending order that hold,
/// for each bandwidth, the same streams in the same order are one and the
/// same sequence.
pub proof fn law_sorted_order_is_unique(a: Seq<StreamInfView>, b: Seq<StreamInfView>)
    requires
        descending(a),
        descending(b),
        same_in_each_bandwidth(a, b),
    ensures
        a == b,
    decreases a.len(),
{
    assert(same_in_each_bandwidth(b, a)) by {
        assert forall|bandwidth: u64| #[trigger]
            b.filter(has_bandwidth(bandwidth)) == a.filter(has_bandwidth(bandwidth)) by {
            assert(a.filter(has_bandwidth(bandwidth)) == b.filter(has_bandwidth(bandwidth)));
        }
    }
    if a.len() == 0 {
        if b.len() > 0 {
            lemma_first_is_largest(b, a);
        }
        assert(a =~= b);
    } else {
        lemma_first_is_largest(a, b);
        lemma_first_is_largest(b, a);
        let largest = a[0].bandwidth;
        let rest_a = a.drop_first();
        let rest_b = b.drop_first();
        assert forall|bandwidth: u64| #[trigger]
            rest_a.filter(has_bandwidth(bandwidth)) == rest_b.filter(
                has_bandwidth(bandwidth),
            ) by {
            lemma_filter_first(a, bandwidth);
            lemma_filter_first(b, bandwidth);
            let kept_a = rest_a.filter(has_bandwidth(bandwidth));
            let kept_b = rest_b.filter(has_bandwidth(bandwidth));
            assert(a.filter(has_bandwidth(bandwidth)) == b.filter(has_bandwidth(bandwidth)));
            if bandwidth == largest {
                assert((seq![a[0]] + kept_a).drop_first() =~= kept_a);
                assert((seq![b[0]] + kept_b).drop_first() =~= kept_b);
            }
        }
        assert(a[0] == b[0]) by {
            lemma_filter_first(a, largest);
            lemma_filter_first(b, largest);
            assert(a.filter(has_bandwidth(largest)) == b.filter(has_bandwidth(largest)));
            assert((seq![a[0]] + rest_a.filter(has_bandwidth(largest)))[0] == a[0]);
            assert((seq![b[0]] + rest_b.filter(has_bandwidth(largest)))[0] == b[0]);
        }
        assert(descending(rest_a)) by {
            assert forall|i: int, j: int| 0 <= i < j < rest_a.len() implies (
            #[trigger] rest_a[i]).bandwidth >= (#[trigger] rest_a[j]).bandwidth by {
                assert(a[i + 1].bandwidth >= a[j + 1].bandwidth);
            }
        }
        assert(descending(rest_b)) by {
            assert forall|i: int, j: int| 0 <= i < j < rest_b.len() implies (
            #[trigger] rest_b[i]).bandwidth >= (#[trigger] rest_b[j]).bandwidth by {
                assert(b[i + 1].bandwidth >= b[j + 1].bandwidth);
            }
        }
        law_sorted_order_is_unique(rest_a, rest_b);
        assert(a =~= seq![a[0]] + rest_a);
        assert(b =~= seq![b[0]] + rest_b);
    }
}

/// A valid playlist stays valid when its streams are put in another order.
pub proof fn law_reordered_playlist_stays_valid(before: PlaylistView, after: PlaylistView)
    requires
        before.validate() is Ok,
        after.media == before.media,
        after.stream_inf.to_multiset() == before.stream_inf.to_multiset(),
    ensures
        after.validate() is Ok,
{
    assert forall|j: int| 0 <= j < after.stream_inf.len() implies before.stream_inf.contains(
        #[trigger] after.stream_inf[j],
    ) by {
        assert(after.stream_inf.contains(after.stream_inf[j]));
        vstd::seq_lib::to_multiset_contains(after.stream_inf, after.stream_inf[j]);
        vstd::seq_lib::to_multiset_contains(before.stream_inf, after.stream_inf[j]);
    }
    assert forall|i: int| 0 <= i < before.media.len() implies after.media.contains(
        #[trigger] before.media[i],
    ) by {
        assert(after.media[i] == before.media[i]);
    }
    lemma_part_is_valid(before, after);
}

impl MultivariantPlaylist {
    /// Puts the streams in the order of their bandwidth, the largest first.
    /// Streams of the same bandwidth keep the order in which they stood.
    /// Nothing else changes. The streams are sorted by insertion, which takes
    /// time quadratic in their number.
    pub fn sort_by_bandwidth(&mut self)
        ensures
            final(self)@.independent_segments == old(self)@.independent_segments,
            final(self)@.media == old(self)@.media,
            final(self)@.i_frame_stream_inf == old(self)@.i_frame_stream_inf,
            descending(final(self)@.stream_inf),
            same_in_each_bandwidth(final(self)@.stream_inf, old(self)@.stream_inf),
            final(self)@.stream_inf.to_multiset() == old(self)@.stream_inf.to_multiset(),
    {
        let ghost before = self.stream_inf@;
        let ghost media = self.media@;
        let ghost i_frames = self.i_frame_stream_inf@;
        let ghost flag = self.independent_segments;
        let mut sorted: Vec<StreamInf> = Vec::new();
        proof {
            assert(views(before.skip(before.len() as int)) =~= views(sorted@));
        }
        while self.stream_inf.len() > 0
            invariant
                self.media@ == media,
                self.i_frame_stream_inf@ == i_frames,
                self.independent_segments == flag,
                self.stream_inf@.len() <= before.len(),
                self.stream_inf@ == before.take(self.stream_inf@.len() as int),
                descending(views(sorted@)),
                same_in_each_bandwidth(
                    views(sorted@),
                    views(before.skip(self.stream_inf@.len() as int)),
                ),
                views(sorted@).to_multiset() == views(
                    before.skip(self.stream_inf@.len() as int),
                ).to_multiset(),
            decreases self.stream_inf@.len(),
        {
            let ghost left = self.stream_inf@.len() as int;
            let stream = self.stream_inf.pop().unwrap();
            let mut at: usize = 0;
            while at < sorted.len() && sorted[at].bandwidth > stream.bandwidth
                invariant
                    at <= sorted@.len(),
                    forall|k: int|
                        0 <= k < at ==> (#[trigger] sorted@[k]).bandwidth > stream.bandwidth,
                decreases sorted@.len() - at,
            {
                at += 1;
            }
            proof {
                let placed = views(sorted@);
                let rest = views(before.skip(left));
                assert(placed.insert(at as int, stream@) =~= views(
                    sorted@.insert(at as int, stream),
                ));
                assert(seq![stream@] + rest =~= views(before.skip(left - 1)));
                assert(rest.insert(0, stream@) =~= seq![stream@] + rest);
                vstd::seq_lib::to_multiset_insert(placed, at as int, stream@);
                vstd::seq_lib::to_multiset_insert(rest, 0, stream@);
                assert forall|k: int| 0 <= k < at implies (#[trigger] placed[k]).bandwidth
                    > stream@.bandwidth by {
                    assert(placed[k] == sorted@[k]@);
                }
                assert forall|bandwidth: u64| #[trigger]
                    placed.insert(at as int, stream@).filter(has_bandwidth(bandwidth)) == (
                    seq![stream@] + rest).filter(has_bandwidth(bandwidth)) by {
                    lemma_filter_after_insert(placed, at as int, stream@, bandwidth);
                    Seq::filter_distributes_over_add(
                        seq![stream@],
                        placed,
                        has_bandwidth(bandwidth),
                    );
                    Seq::filter_distributes_over_add(seq![stream@], rest, has_bandwidth(bandwidth));
                    assert(placed.filter(has_bandwidth(bandwidth)) == rest.filter(
                        has_bandwidth(bandwidth),
                    ));
                }
                assert(descending(placed.insert(at as int, stream@))) by {
                    let next = placed.insert(at as int, stream@);
                    assert forall|i: int, j: int| 0 <= i < j < next.len() implies (
                    #[trigger] next[i]).bandwidth >= (#[trigger] next[j]).bandwidth by {
                        if at < placed.len() {
                            assert(placed[at as int] == sorted@[at as int]@);
                        }
                        if i < at && j > at {
                            assert(placed[i].bandwidth >= placed[j - 1].bandwidth);
                        } else if i == at {
                            assert(placed[at as int].bandwidth >= placed[j - 1].bandwidth);
                        } else if j < at {
                            assert(placed[i].bandwidth >= placed[j].bandwidth);
                        } else if i > at {
                            assert(placed[i - 1].bandwidth >= placed[j - 1].bandwidth);
                        }
                    }
                }
            }
            sorted.insert(at, stream);
        }
        self.stream_inf = sorted;
        proof {
            assert(before.skip(0) =~= before);
        }
    }
}

} // verus!
