//! The active streams, held in a `dashmap::DashMap`, and the median of their
//! latencies.
use crate::binary64::{Binary64, INFINITE_BITS};
use crate::stream_tracker::StreamTracker;
use dashmap::DashMap;
use vstd::prelude::*;

verus! {

/// The concurrent map of the `dashmap` crate.
#[verifier::external_type_specification]
#[verifier::external_body]
#[verifier::reject_recursive_types(K)]
#[verifier::reject_recursive_types(V)]
#[verifier::reject_recursive_types(S)]
pub struct ExDashMap<K, V, S>(DashMap<K, V, S>);

/// The trackers that a map holds, by stream id.
///
/// `DashMap` changes through shared references; here every change goes through
/// an exclusive one, so that a map has one content at a time.
pub uninterp spec fn contents(map: DashMap<u64, StreamTracker>) -> Map<u64, StreamTracker>;

/// No stream at all.
pub open spec fn no_streams() -> Map<u64, StreamTracker> {
    Map::empty()
}

/// The tracker of a stream, if there is one.
pub open spec fn tracker_of(streams: Map<u64, StreamTracker>, id: u64) -> Option<StreamTracker> {
    if streams.contains_key(id) {
        Some(streams[id])
    } else {
        None
    }
}

/// The streams with `tracker` in place of the one at `id`, unchanged where
/// there is none.
pub open spec fn with_tracker(
    streams: Map<u64, StreamTracker>,
    id: u64,
    tracker: StreamTracker,
) -> Map<u64, StreamTracker> {
    if streams.contains_key(id) {
        streams.insert(id, tracker)
    } else {
        streams
    }
}

/// Whether `entries` lists every stream once, as its latency's bit pattern and its id.
pub open spec fn lists_all(entries: Seq<(u64, u64)>, streams: Map<u64, StreamTracker>) -> bool {
    &&& entries.no_duplicates()
    &&& forall|i: int|
        0 <= i < entries.len() ==> {
            &&& streams.contains_key((#[trigger] entries[i]).1)
            &&& entries[i].0 == streams[entries[i].1].smoothed_itl_ms.bits
        }
    &&& forall|id: u64| #[trigger]
        streams.contains_key(id) ==> entries.contains((streams[id].smoothed_itl_ms.bits, id))
}

/// Whether pairs stand in the order of their first and then of their second parts.
pub open spec fn in_order(pairs: Seq<(u64, u64)>) -> bool {
    forall|i: int, j: int|
        0 <= i < j < pairs.len() ==> {
            ||| (#[trigger] pairs[i]).0 < (#[trigger] pairs[j]).0
            ||| pairs[i].0 == pairs[j].0 && pairs[i].1 <= pairs[j].1
        }
}

/// `DashMap::new`. The contract claims that the map is empty.
#[verifier::external_body]
fn map_new() -> (r: DashMap<u64, StreamTracker>)
    ensures
        contents(r) == no_streams(),
{
    DashMap::new()
}

/// `DashMap::insert`. The contract claims that the id then maps to the tracker,
/// that nothing else changes, and that the tracker it replaced is returned.
#[verifier::external_body]
fn map_insert(map: &mut DashMap<u64, StreamTracker>, id: u64, tracker: StreamTracker) -> (r: Option<
    StreamTracker,
>)
    ensures
        contents(*final(map)) == contents(*old(map)).insert(id, tracker),
        r == tracker_of(contents(*old(map)), id),
{
    map.insert(id, tracker)
}

/// `DashMap::get`, handing on a copy of the value. The contract claims that it
/// is the value at the id, `None` where there is no entry.
#[verifier::external_body]
fn map_get(map: &DashMap<u64, StreamTracker>, id: u64) -> (r: Option<StreamTracker>)
    ensures
        r == tracker_of(contents(*map), id),
{
    map.get(&id).map(|entry| *entry.value())
}

/// `DashMap::get_mut`, writing the value it leads to. The contract claims that
/// an entry at the id gets the tracker, and that nothing changes where there is
/// none.
#[verifier::external_body]
fn map_set(map: &mut DashMap<u64, StreamTracker>, id: u64, tracker: StreamTracker)
    ensures
        contents(*final(map)) == with_tracker(contents(*old(map)), id, tracker),
{
    if let Some(mut entry) = map.get_mut(&id) {
        *entry = tracker;
    }
}

/// `DashMap::remove`, handing on the value. The contract claims that the entry
/// at the id leaves and is returned, and that nothing else changes.
#[verifier::external_body]
fn map_remove(map: &mut DashMap<u64, StreamTracker>, id: u64) -> (r: Option<StreamTracker>)
    ensures
        contents(*final(map)) == contents(*old(map)).remove(id),
        r == tracker_of(contents(*old(map)), id),
{
    map.remove(&id).map(|entry| entry.1)
}

/// `DashMap::iter`, each entry as its latency's bit pattern and its id. The
/// contract claims that every entry is yielded once; the order is left open.
#[verifier::external_body]
fn map_entries(map: &DashMap<u64, StreamTracker>) -> (r: Vec<(u64, u64)>)
    ensures
        lists_all(r@, contents(*map)),
{
    map.iter().map(|entry| (entry.value().smoothed_itl_ms.bits, *entry.key())).collect()
}

/// `slice::sort_unstable` on pairs of integers. The contract claims that the
/// same pairs then stand in order.
#[verifier::external_body]
fn sort_pairs(pairs: &mut Vec<(u64, u64)>)
    ensures
        final(pairs)@.to_multiset() == old(pairs)@.to_multiset(),
        in_order(final(pairs)@),
{
    pairs.sort_unstable()
}

/// The ids of the streams whose latency is a number greater than zero.
pub open spec fn measured_ids(streams: Map<u64, StreamTracker>) -> Set<u64> {
    streams.dom().filter(|id: u64| streams[id].smoothed_itl_ms.positive())
}

/// The measured streams whose latency is below `v`.
pub open spec fn ids_below(streams: Map<u64, StreamTracker>, v: Binary64) -> Set<u64> {
    measured_ids(streams).filter(|id: u64| streams[id].smoothed_itl_ms.less(v))
}

/// The measured streams whose latency is at most `v`.
pub open spec fn ids_up_to(streams: Map<u64, StreamTracker>, v: Binary64) -> Set<u64> {
    measured_ids(streams).filter(|id: u64| v.at_least(streams[id].smoothed_itl_ms))
}

/// Whether `v` stands at position `k`, from zero, among the measured latencies in order.
pub open spec fn is_kth_latency(streams: Map<u64, StreamTracker>, k: nat, v: Binary64) -> bool {
    &&& v.positive()
    &&& ids_below(streams, v).len() <= k
    &&& k < ids_up_to(streams, v).len()
}

/// The latency at position `k`, from zero, among the measured latencies in order.
pub open spec fn kth_latency(streams: Map<u64, StreamTracker>, k: nat) -> Binary64 {
    choose|v: Binary64| is_kth_latency(streams, k, v)
}

/// The middle of the measured latencies.
#[derive(Debug, Clone, Copy, PartialEq, Eq, Structural)]
pub enum Median {
    /// No stream has a measured latency.
    Unmeasured,
    /// An odd number of streams: the one in the middle.
    Middle(Binary64),
    /// An even number of streams: the two next to the middle, whose midpoint
    /// `(lower + upper) / 2` is the median.
    Between { lower: Binary64, upper: Binary64 },
}

/// The median of the measured latencies of `streams`.
pub open spec fn median_of(streams: Map<u64, StreamTracker>) -> Median {
    let n = measured_ids(streams).len();
    if n == 0 {
        Median::Unmeasured
    } else if n % 2 == 0 {
        Median::Between {
            lower: kth_latency(streams, (n / 2 - 1) as nat),
            upper: kth_latency(streams, n / 2),
        }
    } else {
        Median::Middle(kth_latency(streams, n / 2))
    }
}

/// The active streams.
#[derive(Debug)]
pub struct Streams {
    map: DashMap<u64, StreamTracker>,
}

impl View for Streams {
    type V = Map<u64, StreamTracker>;

    closed spec fn view(&self) -> Map<u64, StreamTracker> {
        contents(self.map)
    }
}

impl Streams {
    /// No stream at all.
    pub fn new() -> (r: Self)
        ensures
            r@ == no_streams(),
    {
        Streams { map: map_new() }
    }

    /// Add a stream, in place of one of the same id.
    pub fn insert(&mut self, id: u64, tracker: StreamTracker)
        ensures
            final(self)@ == old(self)@.insert(id, tracker),
    {
        let _ = map_insert(&mut self.map, id, tracker);
    }

    /// The tracker of a stream.
    pub fn get(&self, id: u64) -> (r: Option<StreamTracker>)
        ensures
            r == tracker_of(self@, id),
    {
        map_get(&self.map, id)
    }

    /// Write the tracker of a stream that is there.
    pub fn set(&mut self, id: u64, tracker: StreamTracker)
        ensures
            final(self)@ == with_tracker(old(self)@, id, tracker),
    {
        map_set(&mut self.map, id, tracker)
    }

    /// Remove a stream. Returns whether it was there.
    pub fn remove(&mut self, id: u64) -> (r: bool)
        ensures
            final(self)@ == old(self)@.remove(id),
            r == old(self)@.contains_key(id),
    {
        map_remove(&mut self.map, id).is_some()
    }

    /// The median smoothed latency across all active streams.
    ///
    /// The median is robust to single-stream outliers (prefill spikes,
    /// scheduling jitter) and remains sensitive to shifts of the whole batch.
    pub fn median_smoothed_itl(&self) -> (r: Median)
        ensures
            r == median_of(self@),
            self@.dom().finite(),
    {
        let entries: Vec<(u64, u64)> = map_entries(&self.map);
        proof {
            lemma_listed_streams_are_finite(entries@, self@);
        }
        let mut measured: Vec<(u64, u64)> = keep_measured(&entries, Ghost(self@));
        let ghost unsorted = measured@;
        sort_pairs(&mut measured);
        proof {
            lemma_sorting_keeps_listing(unsorted, measured@, self@);
            lemma_listing_length(measured@, self@);
        }
        let n: usize = measured.len();
        if n == 0 {
            return Median::Unmeasured;
        }
        let mid: usize = n / 2;
        let upper: Binary64 = Binary64::from_bits(measured[mid].0);
        proof {
            lemma_position_is_kth(measured@, self@, mid as int);
        }
        if n % 2 == 0 {
            let lower: Binary64 = Binary64::from_bits(measured[mid - 1].0);
            proof {
                lemma_position_is_kth(measured@, self@, mid - 1);
            }
            Median::Between { lower, upper }
        } else {
            Median::Middle(upper)
        }
    }
}

/// Streams that can be listed are finitely many.
proof fn lemma_listed_streams_are_finite(
    entries: Seq<(u64, u64)>,
    streams: Map<u64, StreamTracker>,
)
    requires
        lists_all(entries, streams),
    ensures
        streams.dom().finite(),
{
    let ids = entries.map_values(|p: (u64, u64)| p.1);
    vstd::seq_lib::seq_to_set_is_finite(ids);
    assert forall|id: u64| streams.dom().contains(id) implies ids.to_set().contains(id) by {
        assert(streams.contains_key(id));
        let pair = (streams[id].smoothed_itl_ms.bits, id);
        let i = choose|i: int| 0 <= i < entries.len() && entries[i] == pair;
        assert(ids[i] == id);
    }
    vstd::set_lib::lemma_len_subset(streams.dom(), ids.to_set());
}

/// Whether `pairs` lists every measured stream once, as its latency's bit pattern and its id.
spec fn lists_measured(pairs: Seq<(u64, u64)>, streams: Map<u64, StreamTracker>) -> bool {
    &&& pairs.no_duplicates()
    &&& forall|i: int|
        0 <= i < pairs.len() ==> {
            &&& measured_ids(streams).contains((#[trigger] pairs[i]).1)
            &&& pairs[i].0 == streams[pairs[i].1].smoothed_itl_ms.bits
        }
    &&& forall|id: u64| #[trigger]
        measured_ids(streams).contains(id) ==> pairs.contains(
            (streams[id].smoothed_itl_ms.bits, id),
        )
}

/// The entries whose latency is a number greater than zero.
fn keep_measured(entries: &Vec<(u64, u64)>, Ghost(streams): Ghost<Map<u64, StreamTracker>>) -> (r:
    Vec<(u64, u64)>)
    requires
        lists_all(entries@, streams),
    ensures
        lists_measured(r@, streams),
{
    let mut kept: Vec<(u64, u64)> = Vec::new();
    let mut i: usize = 0;
    while i < entries.len()
        invariant
            i <= entries@.len(),
            lists_all(entries@, streams),
            kept@.no_duplicates(),
            forall|j: int|
                0 <= j < kept@.len() ==> {
                    &&& measured_ids(streams).contains((#[trigger] kept@[j]).1)
                    &&& kept@[j].0 == streams[kept@[j].1].smoothed_itl_ms.bits
                    &&& entries@.take(i as int).contains(kept@[j])
                },
            forall|j: int|
                0 <= j < i && (Binary64 { bits: (#[trigger] entries@[j]).0 }).positive()
                    ==> kept@.contains(entries@[j]),
        decreases entries@.len() - i,
    {
        let entry: (u64, u64) = entries[i];
        let ghost before = kept@;
        if Binary64::from_bits(entry.0).is_positive() {
            proof {
                assert(!before.contains(entry)) by {
                    if before.contains(entry) {
                        let j = choose|j: int| 0 <= j < before.len() && before[j] == entry;
                        assert(entries@.take(i as int).contains(before[j]));
                        let k = choose|k: int|
                            0 <= k < i && entries@.take(i as int)[k] == before[j];
                        assert(entries@[k] == entries@[i as int]);
                    }
                }
            }
            kept.push(entry);
        }
        proof {
            assert forall|j: int| 0 <= j < kept@.len() implies entries@.take(i + 1).contains(
                #[trigger] kept@[j],
            ) by {
                if j < before.len() {
                    assert(entries@.take(i as int).contains(before[j]));
                    let k = choose|k: int| 0 <= k < i && entries@.take(i as int)[k] == before[j];
                    assert(entries@.take(i + 1)[k] == before[j]);
                } else {
                    assert(entries@.take(i + 1)[i as int] == kept@[j]);
                }
            }
            assert forall|j: int|
                0 <= j < i + 1 && (Binary64 {
                    bits: (#[trigger] entries@[j]).0,
                }).positive() implies kept@.contains(entries@[j]) by {
                if j < i {
                    assert(before.contains(entries@[j]));
                    let k = choose|k: int| 0 <= k < before.len() && before[k] == entries@[j];
                    assert(kept@[k] == entries@[j]);
                } else {
                    assert(kept@[before.len() as int] == entries@[j]);
                }
            }
        }
        i = i + 1;
    }
    proof {
        assert forall|id: u64| #[trigger] measured_ids(streams).contains(id) implies kept@.contains(
            (streams[id].smoothed_itl_ms.bits, id),
        ) by {
            assert(streams.contains_key(id));
            let pair = (streams[id].smoothed_itl_ms.bits, id);
            let k = choose|k: int| 0 <= k < entries@.len() && entries@[k] == pair;
            assert(kept@.contains(entries@[k]));
        }
    }
    kept
}

/// The same pairs in another order list the same streams.
proof fn lemma_sorting_keeps_listing(
    before: Seq<(u64, u64)>,
    after: Seq<(u64, u64)>,
    streams: Map<u64, StreamTracker>,
)
    requires
        lists_measured(before, streams),
        after.to_multiset() == before.to_multiset(),
    ensures
        lists_measured(after, streams),
{
    assert forall|p: (u64, u64)| #[trigger] after.contains(p) == before.contains(p) by {
        vstd::seq_lib::to_multiset_contains(after, p);
        vstd::seq_lib::to_multiset_contains(before, p);
    }
    before.lemma_multiset_has_no_duplicates();
    assert forall|p: (u64, u64)| after.to_multiset().contains(p) implies after.to_multiset().count(
        p,
    ) == 1 by {
        assert(before.to_multiset().contains(p));
    }
    after.lemma_multiset_has_no_duplicates_conv();
    assert forall|i: int| 0 <= i < after.len() implies {
        &&& measured_ids(streams).contains((#[trigger] after[i]).1)
        &&& after[i].0 == streams[after[i].1].smoothed_itl_ms.bits
    } by {
        assert(after.contains(after[i]));
        let k = choose|k: int| 0 <= k < before.len() && before[k] == after[i];
        assert(measured_ids(streams).contains(before[k].1));
    }
    assert forall|id: u64| #[trigger] measured_ids(streams).contains(id) implies after.contains(
        (streams[id].smoothed_itl_ms.bits, id),
    ) by {
        assert(before.contains((streams[id].smoothed_itl_ms.bits, id)));
    }
}

/// A listing names each measured stream by one id, so that it is as long as
/// there are measured streams.
proof fn lemma_listing_length(pairs: Seq<(u64, u64)>, streams: Map<u64, StreamTracker>)
    requires
        lists_measured(pairs, streams),
    ensures
        ({
            let ids = pairs.map_values(|p: (u64, u64)| p.1);
            &&& ids.no_duplicates()
            &&& ids.to_set() == measured_ids(streams)
            &&& measured_ids(streams).finite()
            &&& measured_ids(streams).len() == pairs.len()
        }),
{
    let ids = pairs.map_values(|p: (u64, u64)| p.1);
    assert(ids.no_duplicates()) by {
        assert forall|i: int, j: int| 0 <= i < ids.len() && 0 <= j < ids.len() && i != j implies ids[i]
            != ids[j] by {
            if ids[i] == ids[j] {
                assert(pairs[i] == pairs[j]);
            }
        }
    }
    ids.unique_seq_to_set();
    assert(ids.to_set() =~= measured_ids(streams)) by {
        assert forall|id: u64| measured_ids(streams).contains(id) implies ids.to_set().contains(
            id,
        ) by {
            let pair = (streams[id].smoothed_itl_ms.bits, id);
            let i = choose|i: int| 0 <= i < pairs.len() && pairs[i] == pair;
            assert(ids[i] == id);
        }
    }
}

/// In an ordered listing the position of a latency is its rank.
proof fn lemma_position_is_kth(
    pairs: Seq<(u64, u64)>,
    streams: Map<u64, StreamTracker>,
    k: int,
)
    requires
        lists_measured(pairs, streams),
        in_order(pairs),
        0 <= k < pairs.len(),
    ensures
        kth_latency(streams, k as nat) == (Binary64 { bits: pairs[k].0 }),
{
    let ids = pairs.map_values(|p: (u64, u64)| p.1);
    let v = Binary64 { bits: pairs[k].0 };
    lemma_listing_length(pairs, streams);
    assert(measured_ids(streams).contains(pairs[k].1));

    // Fewer than k + 1 streams lie below: they stand before position k.
    let before = ids.take(k);
    assert(ids_below(streams, v).len() <= k) by {
        assert(before.no_duplicates());
        before.unique_seq_to_set();
        assert forall|id: u64| ids_below(streams, v).contains(id) implies before.to_set().contains(
            id,
        ) by {
            let pair = (streams[id].smoothed_itl_ms.bits, id);
            let i = choose|i: int| 0 <= i < pairs.len() && pairs[i] == pair;
            assert(ids[i] == id);
            if i >= k {
                assert(i == k || pairs[k].0 <= pairs[i].0);
            }
            assert(before[i] == id);
        }
        vstd::set_lib::lemma_len_subset(ids_below(streams, v), before.to_set());
    }
    // At least k + 1 streams lie at or below: those up to position k.
    let through = ids.take(k + 1);
    assert(k < ids_up_to(streams, v).len()) by {
        assert(through.no_duplicates());
        through.unique_seq_to_set();
        assert forall|id: u64| through.to_set().contains(id) implies ids_up_to(
            streams,
            v,
        ).contains(id) by {
            let i = choose|i: int| 0 <= i < through.len() && through[i] == id;
            assert(measured_ids(streams).contains(pairs[i].1));
            assert(i == k || pairs[i].0 <= pairs[k].0);
        }
        vstd::set_lib::lemma_len_subset(through.to_set(), ids_up_to(streams, v));
    }
    assert(is_kth_latency(streams, k as nat, v));
    law_position_is_unique(streams, k as nat, v, kth_latency(streams, k as nat));
}

/// At most one value stands at a position, so the median does not depend on the
/// order in which the streams are visited.
pub proof fn law_position_is_unique(
    streams: Map<u64, StreamTracker>,
    k: nat,
    a: Binary64,
    b: Binary64,
)
    requires
        measured_ids(streams).finite(),
        is_kth_latency(streams, k, a),
        is_kth_latency(streams, k, b),
    ensures
        a == b,
{
    if a.less(b) {
        lemma_up_to_is_below(streams, a, b);
    } else if b.less(a) {
        lemma_up_to_is_below(streams, b, a);
    }
}

proof fn lemma_up_to_is_below(streams: Map<u64, StreamTracker>, a: Binary64, b: Binary64)
    requires
        measured_ids(streams).finite(),
        a.less(b),
    ensures
        ids_up_to(streams, a).len() <= ids_below(streams, b).len(),
{
    vstd::set_lib::lemma_len_subset(ids_up_to(streams, a), ids_below(streams, b));
}

/// Every position below the number of measured streams is taken.
proof fn lemma_position_is_taken(streams: Map<u64, StreamTracker>, k: nat)
    requires
        measured_ids(streams).finite(),
        k < measured_ids(streams).len(),
    ensures
        is_kth_latency(streams, k, kth_latency(streams, k)),
{
    let top = Binary64 { bits: INFINITE_BITS };
    assert(ids_up_to(streams, top) =~= measured_ids(streams));
    lemma_descend_to_position(streams, k, INFINITE_BITS);
}

/// From a pattern with more than `k` streams up to it, the position is found
/// at or below that pattern.
proof fn lemma_descend_to_position(streams: Map<u64, StreamTracker>, k: nat, bits: u64)
    requires
        measured_ids(streams).finite(),
        1 <= bits <= INFINITE_BITS,
        k < ids_up_to(streams, (Binary64 { bits })).len(),
    ensures
        exists|v: Binary64| is_kth_latency(streams, k, v),
    decreases bits,
{
    let v = Binary64 { bits };
    if ids_below(streams, v).len() <= k {
        assert(is_kth_latency(streams, k, v));
    } else {
        let next = Binary64 { bits: (bits - 1) as u64 };
        if bits == 1 {
            assert(ids_below(streams, v) =~= Set::empty());
        } else {
            assert(ids_below(streams, v) =~= ids_up_to(streams, next));
            lemma_descend_to_position(streams, k, next.bits);
        }
    }
}

/// The latency at a position is the latency of some stream.
pub proof fn law_position_holds_a_stream(streams: Map<u64, StreamTracker>, k: nat)
    requires
        streams.dom().finite(),
        k < measured_ids(streams).len(),
    ensures
        exists|id: u64| #[trigger]
            measured_ids(streams).contains(id) && streams[id].smoothed_itl_ms == kth_latency(
                streams,
                k,
            ),
{
    lemma_position_is_taken(streams, k);
    let v = kth_latency(streams, k);
    let up_to = ids_up_to(streams, v);
    let below = ids_below(streams, v);
    if forall|id: u64| up_to.contains(id) ==> below.contains(id) {
        vstd::set_lib::lemma_len_subset(up_to, below);
    }
    let id = choose|id: u64| up_to.contains(id) && !below.contains(id);
    assert(measured_ids(streams).contains(id));
}

/// One stream cannot carry the median away: among three or more measured
/// streams, where all but one lie at or below `high`, both values that a median
/// is made of lie at or below `high`; and likewise at or above `low`.
pub proof fn law_median_withstands_one_outlier(
    streams: Map<u64, StreamTracker>,
    outlier: u64,
    low: Binary64,
    high: Binary64,
)
    requires
        streams.dom().finite(),
        measured_ids(streams).len() >= 3,
        forall|id: u64| #[trigger]
            measured_ids(streams).contains(id) && id != outlier ==> {
                &&& high.at_least(streams[id].smoothed_itl_ms)
                &&& streams[id].smoothed_itl_ms.at_least(low)
            },
    ensures
        match median_of(streams) {
            Median::Unmeasured => false,
            Median::Middle(v) => high.at_least(v) && v.at_least(low),
            Median::Between { lower, upper } => {
                &&& high.at_least(upper) && upper.at_least(low)
                &&& high.at_least(lower) && lower.at_least(low)
            },
        },
{
    let n = measured_ids(streams).len();
    lemma_position_withstands_one_outlier(streams, outlier, low, high, n / 2);
    lemma_position_withstands_one_outlier(streams, outlier, low, high, ((n - 1) / 2) as nat);
}

proof fn lemma_position_withstands_one_outlier(
    streams: Map<u64, StreamTracker>,
    outlier: u64,
    low: Binary64,
    high: Binary64,
    k: nat,
)
    requires
        measured_ids(streams).finite(),
        1 <= k,
        k + 2 <= measured_ids(streams).len(),
        forall|id: u64| #[trigger]
            measured_ids(streams).contains(id) && id != outlier ==> {
                &&& high.at_least(streams[id].smoothed_itl_ms)
                &&& streams[id].smoothed_itl_ms.at_least(low)
            },
    ensures
        high.at_least(kth_latency(streams, k)),
        kth_latency(streams, k).at_least(low),
{
    lemma_position_is_taken(streams, k);
    let v = kth_latency(streams, k);
    let all = measured_ids(streams);
    let rest = all.remove(outlier);
    let some_id = rest.choose();
    assert(rest.len() >= 1);
    assert(rest.contains(some_id));
    assert(all.contains(some_id));
    if high.less(v) {
        vstd::set_lib::lemma_len_subset(rest, ids_below(streams, v));
    }
    if v.less(low) {
        let lone = Set::empty().insert(outlier);
        assert forall|id: u64| ids_up_to(streams, v).contains(id) implies lone.contains(id) by {
            assert(all.contains(id));
        }
        vstd::set_lib::lemma_len_subset(ids_up_to(streams, v), lone);
    }
}

/// How many streams have a latency that is a number above zero and whose
/// pattern is accepted by `which`. Such patterns ascend with the latencies.
pub open spec fn how_many(streams: Map<u64, StreamTracker>, which: spec_fn(u64) -> bool) -> nat {
    streams.dom().filter(
        |id: u64|
            {
                let bits = streams[id].smoothed_itl_ms.bits;
                0 < bits <= 0x7ff0_0000_0000_0000 && which(bits)
            },
    ).len()
}

/// Counting within the measured streams.
proof fn lemma_counting(streams: Map<u64, StreamTracker>, v: Binary64)
    requires
        streams.dom().finite(),
        v.positive(),
    ensures
        measured_ids(streams).finite(),
        how_many(streams, |bits: u64| true) == measured_ids(streams).len(),
        how_many(streams, |bits: u64| bits < v.bits) == ids_below(streams, v).len(),
        how_many(streams, |bits: u64| bits <= v.bits) == ids_up_to(streams, v).len(),
        how_many(streams, |bits: u64| bits > v.bits) == measured_ids(streams).len() - ids_up_to(
            streams,
            v,
        ).len(),
        how_many(streams, |bits: u64| bits >= v.bits) == measured_ids(streams).len() - ids_below(
            streams,
            v,
        ).len(),
{
    let all = measured_ids(streams);
    lemma_same_count(streams, |bits: u64| true, all);
    lemma_same_count(streams, |bits: u64| bits < v.bits, ids_below(streams, v));
    lemma_same_count(streams, |bits: u64| bits <= v.bits, ids_up_to(streams, v));
    lemma_same_count(streams, |bits: u64| bits > v.bits, all.difference(ids_up_to(streams, v)));
    lemma_same_count(streams, |bits: u64| bits >= v.bits, all.difference(ids_below(streams, v)));
    lemma_parts_of_a_set(all, ids_up_to(streams, v));
    lemma_parts_of_a_set(all, ids_below(streams, v));
}

proof fn lemma_parts_of_a_set(all: Set<u64>, part: Set<u64>)
    requires
        all.finite(),
        part.subset_of(all),
    ensures
        all.difference(part).len() == all.len() - part.len(),
{
    vstd::set_lib::lemma_len_subset(part, all);
    vstd::set_lib::lemma_set_disjoint_lens(part, all.difference(part));
    assert(part + all.difference(part) =~= all);
}

proof fn lemma_same_count(
    streams: Map<u64, StreamTracker>,
    which: spec_fn(u64) -> bool,
    ids: Set<u64>,
)
    requires
        forall|id: u64| #[trigger]
            ids.contains(id) <==> {
                let bits = streams[id].smoothed_itl_ms.bits;
                streams.contains_key(id) && 0 < bits <= 0x7ff0_0000_0000_0000 && which(bits)
            },
    ensures
        how_many(streams, which) == ids.len(),
{
    let counted = streams.dom().filter(
        |id: u64|
            {
                let bits = streams[id].smoothed_itl_ms.bits;
                0 < bits <= 0x7ff0_0000_0000_0000 && which(bits)
            },
    );
    assert(counted =~= ids);
}

/// The median, by counting streams. Of an odd number of measured streams it is
/// the latency that fewer than half lie below and fewer than half above. Of an
/// even number it is two latencies in order: fewer than half lie below the
/// lower, fewer than half above the upper, at least half at or below the lower,
/// at least half at or above the upper, and none strictly between the two. A
/// stream without a measured latency counts for nothing.
pub proof fn law_the_median_by_counting(streams: Map<u64, StreamTracker>)
    requires
        streams.dom().finite(),
    ensures
        ({
            let n = how_many(streams, |bits: u64| true);
            match median_of(streams) {
                Median::Unmeasured => n == 0,
                Median::Middle(v) => {
                    &&& n % 2 == 1
                    &&& 0 < v.bits <= 0x7ff0_0000_0000_0000
                    &&& 2 * how_many(streams, |bits: u64| bits < v.bits) <= n - 1
                    &&& 2 * how_many(streams, |bits: u64| bits > v.bits) <= n - 1
                },
                Median::Between { lower, upper } => {
                    &&& n > 0 && n % 2 == 0
                    &&& 0 < lower.bits <= upper.bits <= 0x7ff0_0000_0000_0000
                    &&& 2 * how_many(streams, |bits: u64| bits < lower.bits) < n
                    &&& 2 * how_many(streams, |bits: u64| bits > upper.bits) < n
                    &&& 2 * how_many(streams, |bits: u64| bits <= lower.bits) >= n
                    &&& 2 * how_many(streams, |bits: u64| bits >= upper.bits) >= n
                    &&& how_many(streams, |bits: u64| lower.bits < bits < upper.bits) == 0
                },
            }
        }),
{
    let all = measured_ids(streams);
    let n = all.len();
    lemma_counting(streams, Binary64 { bits: 1 });
    if n > 0 && n % 2 == 1 {
        let v = kth_latency(streams, n / 2);
        lemma_position_is_taken(streams, n / 2);
        lemma_counting(streams, v);
    } else if n > 0 {
        let lower = kth_latency(streams, (n / 2 - 1) as nat);
        let upper = kth_latency(streams, n / 2);
        lemma_position_is_taken(streams, (n / 2 - 1) as nat);
        lemma_position_is_taken(streams, n / 2);
        lemma_counting(streams, lower);
        lemma_counting(streams, upper);
        if upper.less(lower) {
            lemma_up_to_is_below(streams, upper, lower);
        }
        vstd::set_lib::lemma_len_subset(ids_up_to(streams, upper), all);
        let between = ids_below(streams, upper).difference(ids_up_to(streams, lower));
        lemma_same_count(streams, |bits: u64| lower.bits < bits < upper.bits, between);
        if lower.less(upper) {
            assert(ids_up_to(streams, lower).subset_of(ids_below(streams, upper)));
            lemma_parts_of_a_set(ids_below(streams, upper), ids_up_to(streams, lower));
        } else {
            assert(between =~= Set::empty());
        }
    }
}

/// Writing a tracker changes one stream that is there and nothing else, and
/// looking one up finds it.
pub proof fn law_writing_changes_one_stream(
    streams: Map<u64, StreamTracker>,
    id: u64,
    tracker: StreamTracker,
    other: u64,
)
    ensures
        with_tracker(streams, id, tracker).dom() == streams.dom(),
        streams.contains_key(id) ==> with_tracker(streams, id, tracker)[id] == tracker,
        streams.contains_key(other) && other != id ==> with_tracker(streams, id, tracker)[other]
            == streams[other],
        streams.contains_key(id) ==> tracker_of(streams, id) == Some(streams[id]),
        !streams.contains_key(id) ==> tracker_of(streams, id) is None,
        no_streams().dom() == Set::<u64>::empty(),
{
    assert(with_tracker(streams, id, tracker).dom() =~= streams.dom());
    assert(no_streams().dom() =~= Set::<u64>::empty());
}

} // verus!
