//! The integer part of the benchmark report: which stream a record belongs
//! to and what kind it is, the records of each stream, how many packets were
//! sent, received and lost, and the receive-time and latency totals that the
//! averages, rates and percentiles are computed from.

use vstd::prelude::*;
use crate::bench::BenchmarkRecord;
use crate::{GameStreamReliability, ORDERING_MASK, RELIABILITY_MASK, spec_stream_id};

verus! {

// ---------------------------------------------------------------------------
// Stream classification

/// The reliability class that a stream id's flag bits denote: both low bits
/// set means reliable, the second-lowest alone means ordered, anything else
/// unreliable.
pub open spec fn spec_stream_type(stream_id: u16) -> GameStreamReliability {
    if stream_id as int % 4 == 3 {
        GameStreamReliability::Reliable
    } else if (stream_id as int / 2) % 2 == 1 {
        GameStreamReliability::Ordered
    } else {
        GameStreamReliability::Unreliable
    }
}

/// The reliability class of a stream id.
pub fn stream_type(stream_id: u16) -> (r: GameStreamReliability)
    ensures
        r == spec_stream_type(stream_id),
{
    let is_ordered: bool = (stream_id & ORDERING_MASK) != 0;
    let is_reliable_flag: bool = (stream_id & RELIABILITY_MASK) == RELIABILITY_MASK;
    assert(is_ordered == ((stream_id / 2) % 2 == 1)) by (bit_vector)
        requires
            is_ordered == ((stream_id & 2u16) != 0),
    ;
    assert(is_reliable_flag == (stream_id % 4 == 3)) by (bit_vector)
        requires
            is_reliable_flag == ((stream_id & 3u16) == 3u16),
    ;
    if is_reliable_flag {
        GameStreamReliability::Reliable
    } else if is_ordered {
        GameStreamReliability::Ordered
    } else {
        GameStreamReliability::Unreliable
    }
}

/// The index of a stream: its id without the two flag bits.
pub fn stream_index(stream_id: u16) -> (r: u16)
    ensures
        r == stream_id / 4,
{
    let r: u16 = stream_id >> 2;
    assert(r == stream_id / 4) by (bit_vector)
        requires
            r == stream_id >> 2,
    ;
    r
}

/// The report classifies every stream that `GameStream::new` builds by the
/// reliability it was built with, and recovers its index (modulo the 14 bits
/// that fit).
pub proof fn law_stream_classification(index: u16, r: GameStreamReliability)
    ensures
        0 <= spec_stream_id(index, r) < 0x10000,
        spec_stream_type(spec_stream_id(index, r) as u16) == r,
        (spec_stream_id(index, r) as u16) / 4 == index as int % 0x4000,
{
    let q = index as int % 0x4000;
    assert((index as int * 4) % 0x10000 == q * 4);
}

// ---------------------------------------------------------------------------
// Counts

/// The largest packet id among the records (0 for none).
pub open spec fn max_packet_id(s: Seq<BenchmarkRecord>) -> u64
    decreases s.len(),
{
    if s.len() == 0 {
        0
    } else {
        let m = max_packet_id(s.drop_last());
        if s.last().packet_id > m {
            s.last().packet_id
        } else {
            m
        }
    }
}

/// Packets sent, received and lost on a stream (or in a run).
#[derive(Debug, Clone, Copy, PartialEq, Eq, Structural)]
pub struct StreamCounts {
    pub sent: u64,
    pub received: u64,
    pub lost: u64,
}

/// The counts of a stream's records: every record is a received packet;
/// packet ids start at 0, so one past the largest id were sent; the lost ones
/// are those sent and not received (0 when more were received).
pub open spec fn spec_stream_counts(s: Seq<BenchmarkRecord>) -> (int, int, int) {
    let received = s.len() as int;
    let sent = if s.len() == 0 {
        0
    } else {
        max_packet_id(s) + 1
    };
    (sent, received, if sent >= received {
        sent - received
    } else {
        0
    })
}

/// Sent, received and lost packets of a stream's records.
pub fn stream_counts(records: &[BenchmarkRecord]) -> (c: StreamCounts)
    requires
        forall|i: int| 0 <= i < records@.len() ==> records@[i].packet_id < u64::MAX,
    ensures
        (c.sent as int, c.received as int, c.lost as int) == spec_stream_counts(records@),
        c.received == records@.len(),
        records@.len() == 0 ==> c.sent == 0,
        forall|k: int| 0 <= k < records@.len() ==> records@[k].packet_id < c.sent,
        records@.len() > 0 ==> exists|k: int|
            0 <= k < records@.len() && records@[k].packet_id + 1 == c.sent,
        c.lost == if c.sent >= c.received {
            c.sent - c.received
        } else {
            0
        },
{
    let n: usize = records.len();
    let mut max_id: u64 = 0;
    let mut i: usize = 0;
    while i < n
        invariant
            n == records@.len(),
            0 <= i <= n,
            max_id == max_packet_id(records@.subrange(0, i as int)),
        decreases n - i,
    {
        let id = records[i].packet_id;
        proof {
            assert(records@.subrange(0, i + 1).drop_last() =~= records@.subrange(0, i as int));
        }
        if id > max_id {
            max_id = id;
        }
        i = i + 1;
    }
    assert(records@.subrange(0, n as int) =~= records@);
    proof {
        if n > 0 {
            lemma_max_packet_id_is_an_id(records@);
        }
        lemma_max_packet_id_bound(records@);
    }
    let received: u64 = n as u64;
    let sent: u64 = if n > 0 {
        max_id + 1
    } else {
        0
    };
    let lost: u64 = sent.saturating_sub(received);
    StreamCounts { sent, received, lost }
}

proof fn lemma_max_packet_id_bound(s: Seq<BenchmarkRecord>)
    ensures
        forall|k: int| 0 <= k < s.len() ==> s[k].packet_id <= max_packet_id(s),
    decreases s.len(),
{
    if s.len() > 0 {
        let init = s.drop_last();
        lemma_max_packet_id_bound(init);
        assert forall|k: int| 0 <= k < s.len() implies s[k].packet_id <= max_packet_id(s) by {
            if k < s.len() - 1 {
                assert(s[k] == init[k]);
            }
        }
    }
}

/// The counts of a stream say what its records show: every record is one
/// received packet; as packet ids start at 0, one more packet was sent than
/// the largest id of all the records (so every id is below the sent count,
/// and some record carries the last id sent); the lost packets are those
/// sent and not received.
pub proof fn law_stream_counts(s: Seq<BenchmarkRecord>)
    ensures
        ({
            let (sent, received, lost) = spec_stream_counts(s);
            &&& received == s.len()
            &&& s.len() == 0 ==> sent == 0
            &&& forall|k: int| 0 <= k < s.len() ==> s[k].packet_id < sent
            &&& s.len() > 0 ==> exists|k: int| 0 <= k < s.len() && s[k].packet_id + 1 == sent
            &&& lost == if sent >= received {
                sent - received
            } else {
                0
            }
        }),
{
    lemma_max_packet_id_bound(s);
    if s.len() > 0 {
        lemma_max_packet_id_is_an_id(s);
    }
}

proof fn lemma_max_packet_id_is_an_id(s: Seq<BenchmarkRecord>)
    requires
        s.len() > 0,
    ensures
        exists|i: int| 0 <= i < s.len() && s[i].packet_id == max_packet_id(s),
    decreases s.len(),
{
    if s.len() > 1 {
        let init = s.drop_last();
        lemma_max_packet_id_is_an_id(init);
        if s.last().packet_id <= max_packet_id(init) {
            let i = choose|i: int| 0 <= i < init.len() && init[i].packet_id == max_packet_id(init);
            assert(s[i] == init[i]);
        } else {
            assert(s[s.len() - 1].packet_id == max_packet_id(s));
        }
    } else {
        assert(s.drop_last().len() == 0);
        assert(max_packet_id(s.drop_last()) == 0);
        assert(s[0].packet_id == max_packet_id(s));
    }
}

/// Sum of the `sent` fields.
pub open spec fn total_sent(s: Seq<StreamCounts>) -> int
    decreases s.len(),
{
    if s.len() == 0 {
        0
    } else {
        total_sent(s.drop_last()) + s.last().sent
    }
}

/// Sum of the `received` fields.
pub open spec fn total_received(s: Seq<StreamCounts>) -> int
    decreases s.len(),
{
    if s.len() == 0 {
        0
    } else {
        total_received(s.drop_last()) + s.last().received
    }
}

/// Sum of the `lost` fields.
pub open spec fn total_lost(s: Seq<StreamCounts>) -> int
    decreases s.len(),
{
    if s.len() == 0 {
        0
    } else {
        total_lost(s.drop_last()) + s.last().lost
    }
}

proof fn lemma_totals_monotone(s: Seq<StreamCounts>, i: int)
    requires
        0 <= i <= s.len(),
    ensures
        total_sent(s.subrange(0, i)) <= total_sent(s),
        total_received(s.subrange(0, i)) <= total_received(s),
        total_lost(s.subrange(0, i)) <= total_lost(s),
    decreases s.len() - i,
{
    if i < s.len() {
        lemma_totals_monotone(s, i + 1);
        assert(s.subrange(0, i + 1).drop_last() =~= s.subrange(0, i));
    } else {
        assert(s.subrange(0, i) =~= s);
    }
}

/// The run's counts: the sums of the per-stream counts.
pub fn global_counts(per_stream: &[StreamCounts]) -> (c: StreamCounts)
    requires
        total_sent(per_stream@) <= u64::MAX,
        total_received(per_stream@) <= u64::MAX,
        total_lost(per_stream@) <= u64::MAX,
    ensures
        c.sent == total_sent(per_stream@),
        c.received == total_received(per_stream@),
        c.lost == total_lost(per_stream@),
{
    let n: usize = per_stream.len();
    let mut sent: u64 = 0;
    let mut received: u64 = 0;
    let mut lost: u64 = 0;
    let mut i: usize = 0;
    while i < n
        invariant
            n == per_stream@.len(),
            0 <= i <= n,
            total_sent(per_stream@) <= u64::MAX,
            total_received(per_stream@) <= u64::MAX,
            total_lost(per_stream@) <= u64::MAX,
            sent == total_sent(per_stream@.subrange(0, i as int)),
            received == total_received(per_stream@.subrange(0, i as int)),
            lost == total_lost(per_stream@.subrange(0, i as int)),
        decreases n - i,
    {
        proof {
            assert(per_stream@.subrange(0, i + 1).drop_last() =~= per_stream@.subrange(0, i as int));
            lemma_totals_monotone(per_stream@, i + 1);
        }
        let c = per_stream[i];
        sent = sent + c.sent;
        received = received + c.received;
        lost = lost + c.lost;
        i = i + 1;
    }
    assert(per_stream@.subrange(0, n as int) =~= per_stream@);
    StreamCounts { sent, received, lost }
}

// ---------------------------------------------------------------------------
// Grouping by stream

/// The records of one stream, in the order they were logged.
pub struct StreamGroup {
    pub stream_id: u16,
    pub records: Vec<BenchmarkRecord>,
}

/// The records of `s` that belong to stream `id`, in order.
pub open spec fn records_of(s: Seq<BenchmarkRecord>, id: u16) -> Seq<BenchmarkRecord> {
    s.filter(|r: BenchmarkRecord| r.stream_id == id)
}

#[verifier::opaque]
/// `groups` holds, in increasing order of stream id, one group for each
/// stream that occurs in `s`, with that stream's records in order.
pub open spec fn is_grouping(groups: Seq<StreamGroup>, s: Seq<BenchmarkRecord>) -> bool {
    &&& forall|i: int, j: int|
        0 <= i < j < groups.len() ==> groups[i].stream_id < groups[j].stream_id
    &&& forall|i: int|
        0 <= i < groups.len() ==> #[trigger] groups[i].records@ == records_of(
            s,
            groups[i].stream_id,
        )
    &&& forall|k: int|
        0 <= k < s.len() ==> exists|i: int|
            0 <= i < groups.len() && #[trigger] groups[i].stream_id == #[trigger] s[k].stream_id
    &&& forall|i: int|
        0 <= i < groups.len() ==> exists|k: int|
            0 <= k < s.len() && #[trigger] s[k].stream_id == #[trigger] groups[i].stream_id
}

proof fn lemma_records_of_absent(s: Seq<BenchmarkRecord>, id: u16)
    requires
        forall|k: int| 0 <= k < s.len() ==> s[k].stream_id != id,
    ensures
        records_of(s, id) == Seq::<BenchmarkRecord>::empty(),
    decreases s.len(),
{
    reveal_with_fuel(Seq::filter, 1);
    if s.len() > 0 {
        lemma_records_of_absent(s.drop_last(), id);
    }
    assert(records_of(s, id) =~= Seq::<BenchmarkRecord>::empty());
}

proof fn lemma_records_of_push(p: Seq<BenchmarkRecord>, r: BenchmarkRecord)
    ensures
        forall|g: u16| #[trigger]
            records_of(p.push(r), g) == if g == r.stream_id {
                records_of(p, g).push(r)
            } else {
                records_of(p, g)
            },
{
    assert forall|g: u16| #[trigger]
        records_of(p.push(r), g) == if g == r.stream_id {
            records_of(p, g).push(r)
        } else {
            records_of(p, g)
        } by {
        p.lemma_filter_push(r, |x: BenchmarkRecord| x.stream_id == g);
    }
}

/// Adding a record of a stream that already has a group.
proof fn lemma_group_existing(
    old_groups: Seq<StreamGroup>,
    new_groups: Seq<StreamGroup>,
    p: Seq<BenchmarkRecord>,
    r: BenchmarkRecord,
    j: int,
)
    requires
        is_grouping(old_groups, p),
        0 <= j < old_groups.len(),
        old_groups[j].stream_id == r.stream_id,
        new_groups.len() == old_groups.len(),
        forall|i: int| 0 <= i < old_groups.len() && i != j ==> new_groups[i] == old_groups[i],
        new_groups[j].stream_id == r.stream_id,
        new_groups[j].records@ == old_groups[j].records@.push(r),
    ensures
        is_grouping(new_groups, p.push(r)),
{
    reveal(is_grouping);
    let p2 = p.push(r);
    lemma_records_of_push(p, r);
    assert forall|i: int, i2: int|
        0 <= i < i2 < new_groups.len() implies new_groups[i].stream_id
        < new_groups[i2].stream_id by {
        assert(old_groups[i].stream_id < old_groups[i2].stream_id);
    }
    assert forall|i: int| 0 <= i < new_groups.len() implies #[trigger] new_groups[i].records@
        == records_of(p2, new_groups[i].stream_id) by {
        if i != j {
            assert(old_groups[i].stream_id != r.stream_id) by {
                if i < j {
                    assert(old_groups[i].stream_id < old_groups[j].stream_id);
                } else {
                    assert(old_groups[j].stream_id < old_groups[i].stream_id);
                }
            }
            assert(old_groups[i].records@ == records_of(p, old_groups[i].stream_id));
        } else {
            assert(old_groups[j].records@ == records_of(p, old_groups[j].stream_id));
        }
    }
    assert forall|kk: int| 0 <= kk < p2.len() implies exists|i: int|
        0 <= i < new_groups.len() && #[trigger] new_groups[i].stream_id
            == #[trigger] p2[kk].stream_id by {
        if kk < p.len() {
            assert(p2[kk] == p[kk]);
            let i = choose|i: int|
                0 <= i < old_groups.len() && #[trigger] old_groups[i].stream_id
                    == #[trigger] p[kk].stream_id;
            assert(new_groups[i].stream_id == p2[kk].stream_id);
        } else {
            assert(new_groups[j].stream_id == p2[kk].stream_id);
        }
    }
    assert forall|i: int| 0 <= i < new_groups.len() implies exists|kk: int|
        0 <= kk < p2.len() && #[trigger] p2[kk].stream_id == #[trigger] new_groups[i].stream_id by {
        let kk = choose|kk: int|
            0 <= kk < p.len() && #[trigger] p[kk].stream_id == #[trigger] old_groups[i].stream_id;
        assert(p2[kk] == p[kk]);
    }
}

/// `new` is `old` with a group for stream `id` inserted at position `j`.
pub open spec fn inserted_at(old: Seq<StreamGroup>, new: Seq<StreamGroup>, j: int, id: u16) -> bool {
    &&& 0 <= j <= old.len()
    &&& new.len() == old.len() + 1
    &&& forall|i: int| 0 <= i < j ==> new[i] == old[i]
    &&& forall|i: int| j < i < new.len() ==> new[i] == old[i - 1]
    &&& new[j].stream_id == id
}

proof fn lemma_new_group_sorted(old: Seq<StreamGroup>, new: Seq<StreamGroup>, j: int, id: u16)
    requires
        forall|i: int, i2: int| 0 <= i < i2 < old.len() ==> old[i].stream_id < old[i2].stream_id,
        inserted_at(old, new, j, id),
        forall|i: int| 0 <= i < j ==> old[i].stream_id < id,
        j < old.len() ==> old[j].stream_id > id,
    ensures
        forall|i: int, i2: int| 0 <= i < i2 < new.len() ==> new[i].stream_id < new[i2].stream_id,
{
    assert forall|i: int, i2: int| 0 <= i < i2 < new.len() implies new[i].stream_id
        < new[i2].stream_id by {
        if i2 < j {
            assert(old[i].stream_id < old[i2].stream_id);
        } else if i2 == j {
            assert(old[i].stream_id < id);
        } else if i > j {
            assert(old[i - 1].stream_id < old[i2 - 1].stream_id);
        } else if i == j {
            if i2 - 1 > j {
                assert(old[j].stream_id < old[i2 - 1].stream_id);
            }
        } else {
            assert(old[i].stream_id < id);
            if i2 - 1 > j {
                assert(old[j].stream_id < old[i2 - 1].stream_id);
            }
        }
    }
}

/// Adding a record of a stream that has no group yet: its group goes in at
/// position `j`, after the streams with smaller ids.
proof fn lemma_group_new(
    old_groups: Seq<StreamGroup>,
    new_groups: Seq<StreamGroup>,
    p: Seq<BenchmarkRecord>,
    r: BenchmarkRecord,
    j: int,
)
    requires
        is_grouping(old_groups, p),
        inserted_at(old_groups, new_groups, j, r.stream_id),
        forall|i: int| 0 <= i < j ==> old_groups[i].stream_id < r.stream_id,
        j < old_groups.len() ==> old_groups[j].stream_id > r.stream_id,
        new_groups[j].records@ == seq![r],
    ensures
        is_grouping(new_groups, p.push(r)),
{
    reveal(is_grouping);
    let p2 = p.push(r);
    let id = r.stream_id;
    lemma_new_group_sorted(old_groups, new_groups, j, id);
    assert forall|i: int| 0 <= i < old_groups.len() implies old_groups[i].stream_id != id by {
        if i > j {
            assert(old_groups[j].stream_id < old_groups[i].stream_id);
        }
    }
    assert forall|kk: int| 0 <= kk < p.len() implies p[kk].stream_id != id by {
        let i = choose|i: int|
            0 <= i < old_groups.len() && #[trigger] old_groups[i].stream_id
                == #[trigger] p[kk].stream_id;
    }
    lemma_records_of_absent(p, id);
    lemma_records_of_push(p, r);
    assert(records_of(p2, id) =~= seq![r]);
    assert forall|i: int| 0 <= i < new_groups.len() implies #[trigger] new_groups[i].records@
        == records_of(p2, new_groups[i].stream_id) by {
        if i < j {
            assert(old_groups[i].records@ == records_of(p, old_groups[i].stream_id));
        } else if i > j {
            assert(old_groups[i - 1].records@ == records_of(p, old_groups[i - 1].stream_id));
        }
    }
    lemma_new_group_cover(old_groups, new_groups, p, r, j);
}

proof fn lemma_new_group_cover(
    old_groups: Seq<StreamGroup>,
    new_groups: Seq<StreamGroup>,
    p: Seq<BenchmarkRecord>,
    r: BenchmarkRecord,
    j: int,
)
    requires
        is_grouping(old_groups, p),
        inserted_at(old_groups, new_groups, j, r.stream_id),
    ensures
        forall|k: int|
            0 <= k < p.push(r).len() ==> exists|i: int|
                0 <= i < new_groups.len() && #[trigger] new_groups[i].stream_id
                    == #[trigger] p.push(r)[k].stream_id,
        forall|i: int|
            0 <= i < new_groups.len() ==> exists|k: int|
                0 <= k < p.push(r).len() && #[trigger] p.push(r)[k].stream_id
                    == #[trigger] new_groups[i].stream_id,
{
    reveal(is_grouping);
    let p2 = p.push(r);
    assert forall|kk: int| 0 <= kk < p2.len() implies exists|i: int|
        0 <= i < new_groups.len() && #[trigger] new_groups[i].stream_id
            == #[trigger] p2[kk].stream_id by {
        if kk < p.len() {
            assert(p2[kk] == p[kk]);
            let i = choose|i: int|
                0 <= i < old_groups.len() && #[trigger] old_groups[i].stream_id
                    == #[trigger] p[kk].stream_id;
            if i < j {
                assert(new_groups[i].stream_id == p2[kk].stream_id);
            } else {
                assert(new_groups[i + 1].stream_id == p2[kk].stream_id);
            }
        } else {
            assert(new_groups[j].stream_id == p2[kk].stream_id);
        }
    }
    assert forall|i: int| 0 <= i < new_groups.len() implies exists|kk: int|
        0 <= kk < p2.len() && #[trigger] p2[kk].stream_id == #[trigger] new_groups[i].stream_id by {
        if i == j {
            assert(p2[p.len() as int].stream_id == new_groups[i].stream_id);
        } else {
            let oi = if i < j {
                i
            } else {
                i - 1
            };
            assert(new_groups[i] == old_groups[oi]);
            let kk = choose|kk: int|
                0 <= kk < p.len() && #[trigger] p[kk].stream_id
                    == #[trigger] old_groups[oi].stream_id;
            assert(p2[kk] == p[kk]);
        }
    }
}

/// Adds one record to a grouping.
fn add_to_groups(groups: &mut Vec<StreamGroup>, r: BenchmarkRecord, Ghost(p): Ghost<Seq<BenchmarkRecord>>)
    requires
        is_grouping(old(groups)@, p),
    ensures
        is_grouping(final(groups)@, p.push(r)),
{
    let id = r.stream_id;
    let ghost old_groups = groups@;
    let len: usize = groups.len();
    let mut j: usize = 0;
    while j < len && groups[j].stream_id < id
        invariant
            len == groups@.len(),
            groups@ == old_groups,
            0 <= j <= len,
            forall|i: int| 0 <= i < j ==> groups@[i].stream_id < id,
        decreases len - j,
    {
        j = j + 1;
    }
    if j < len && groups[j].stream_id == id {
        let mut g = groups.remove(j);
        g.records.push(r);
        groups.insert(j, g);
        proof {
            lemma_group_existing(old_groups, groups@, p, r, j as int);
        }
    } else {
        let mut v: Vec<BenchmarkRecord> = Vec::new();
        v.push(r);
        groups.insert(j, StreamGroup { stream_id: id, records: v });
        proof {
            assert(v@ =~= seq![r]);
            assert(inserted_at(old_groups, groups@, j as int, id));
            lemma_group_new(old_groups, groups@, p, r, j as int);
        }
    }
}

/// Splits the records by stream, streams in increasing order of id, each
/// stream's records in the order they were logged.
pub fn group_by_stream(records: &[BenchmarkRecord]) -> (groups: Vec<StreamGroup>)
    ensures
        is_grouping(groups@, records@),
{
    let n: usize = records.len();
    let mut groups: Vec<StreamGroup> = Vec::new();
    let mut k: usize = 0;
    proof {
        reveal(is_grouping);
        assert(records@.subrange(0, 0) =~= Seq::<BenchmarkRecord>::empty());
    }
    while k < n
        invariant
            n == records@.len(),
            0 <= k <= n,
            is_grouping(groups@, records@.subrange(0, k as int)),
        decreases n - k,
    {
        let r = records[k];
        add_to_groups(&mut groups, r, Ghost(records@.subrange(0, k as int)));
        proof {
            assert(records@.subrange(0, k + 1) =~= records@.subrange(0, k as int).push(r));
        }
        k = k + 1;
    }
    assert(records@.subrange(0, n as int) =~= records@);
    groups
}

/// The streams that a report lists for a run, read off its grouping: in
/// strictly increasing order of stream id, exactly the stream ids that occur
/// in the run's records.
pub proof fn law_grouping_streams(groups: Seq<StreamGroup>, s: Seq<BenchmarkRecord>, id: u16)
    requires
        is_grouping(groups, s),
    ensures
        forall|a: int, b: int|
            0 <= a < b < groups.len() ==> groups[a].stream_id < groups[b].stream_id,
        (exists|i: int| 0 <= i < groups.len() && groups[i].stream_id == id) <==> (exists|k: int|
            0 <= k < s.len() && s[k].stream_id == id),
{
    reveal(is_grouping);
    if exists|i: int| 0 <= i < groups.len() && groups[i].stream_id == id {
        let i = choose|i: int| 0 <= i < groups.len() && groups[i].stream_id == id;
        let k = choose|k: int| 0 <= k < s.len() && #[trigger] s[k].stream_id == #[trigger] groups[i].stream_id;
        assert(s[k].stream_id == id);
    }
    if exists|k: int| 0 <= k < s.len() && s[k].stream_id == id {
        let k = choose|k: int| 0 <= k < s.len() && s[k].stream_id == id;
        let i = choose|i: int| 0 <= i < groups.len() && #[trigger] groups[i].stream_id == #[trigger] s[k].stream_id;
        assert(groups[i].stream_id == id);
    }
}

// ---------------------------------------------------------------------------
// Streams across runs

/// Whether some group of some run is for stream `id`.
pub open spec fn occurs_in_runs(runs: Seq<Vec<StreamGroup>>, id: u16) -> bool {
    exists|a: int, b: int|
        0 <= a < runs.len() && 0 <= b < runs[a]@.len() && #[trigger] runs[a]@[b].stream_id == id
}

/// Whether a group for stream `id` comes before group `j` of run `i`.
spec fn occurs_before(runs: Seq<Vec<StreamGroup>>, i: int, j: int, id: u16) -> bool {
    exists|a: int, b: int|
        0 <= a < runs.len() && 0 <= b < runs[a]@.len() && (a < i || (a == i && b < j))
            && #[trigger] runs[a]@[b].stream_id == id
}

/// Strictly increasing.
pub open spec fn strictly_increasing(s: Seq<u16>) -> bool {
    forall|a: int, b: int| 0 <= a < b < s.len() ==> s[a] < s[b]
}

proof fn lemma_insert_contains(o: Seq<u16>, j: int, x: u16)
    requires
        0 <= j <= o.len(),
    ensures
        forall|y: u16| o.insert(j, x).contains(y) <==> (o.contains(y) || y == x),
{
    let v = o.insert(j, x);
    assert forall|y: u16| v.contains(y) <==> (o.contains(y) || y == x) by {
        if v.contains(y) {
            let k = choose|k: int| 0 <= k < v.len() && v[k] == y;
            if k < j {
                assert(o[k] == y);
            } else if k > j {
                assert(o[k - 1] == y);
            }
        }
        if o.contains(y) {
            let k = choose|k: int| 0 <= k < o.len() && o[k] == y;
            if k < j {
                assert(v[k] == y);
            } else {
                assert(v[k + 1] == y);
            }
        }
        if y == x {
            assert(v[j] == y);
        }
    }
}

/// Adds `x` to a strictly increasing vector unless it is there already.
fn insert_stream_id(v: &mut Vec<u16>, x: u16)
    requires
        strictly_increasing(old(v)@),
    ensures
        strictly_increasing(final(v)@),
        forall|y: u16| final(v)@.contains(y) <==> (old(v)@.contains(y) || y == x),
{
    let n: usize = v.len();
    let mut j: usize = 0;
    while j < n && v[j] < x
        invariant
            n == v@.len(),
            v@ == old(v)@,
            0 <= j <= n,
            forall|i: int| 0 <= i < j ==> v@[i] < x,
        decreases n - j,
    {
        j = j + 1;
    }
    if j < n && v[j] == x {
        return;
    }
    v.insert(j, x);
    proof {
        let o = old(v)@;
        assert forall|a: int, b: int| 0 <= a < b < v@.len() implies v@[a] < v@[b] by {
            if b < j {
                assert(o[a] < o[b]);
            } else if b == j {
                assert(o[a] < x);
            } else if a > j {
                assert(o[a - 1] < o[b - 1]);
            } else if a == j {
                assert(o[j as int] > x);
                if b - 1 > j {
                    assert(o[j as int] < o[b - 1]);
                }
            } else {
                assert(o[a] < o[b - 1]);
            }
        }
        lemma_insert_contains(o, j as int, x);
    }
}

proof fn lemma_occurs_before_step(runs: Seq<Vec<StreamGroup>>, i: int, j: int, y: u16)
    requires
        0 <= i < runs.len(),
        0 <= j < runs[i]@.len(),
    ensures
        occurs_before(runs, i, j + 1, y) <==> (occurs_before(runs, i, j, y) || runs[i]@[j].stream_id
            == y),
{
    if occurs_before(runs, i, j + 1, y) {
        let (a, b) = choose|a: int, b: int|
            0 <= a < runs.len() && 0 <= b < runs[a]@.len() && (a < i || (a == i && b < j + 1))
                && #[trigger] runs[a]@[b].stream_id == y;
        if !(a == i && b == j) {
            assert(occurs_before(runs, i, j, y));
        }
    }
    if occurs_before(runs, i, j, y) {
        let (a, b) = choose|a: int, b: int|
            0 <= a < runs.len() && 0 <= b < runs[a]@.len() && (a < i || (a == i && b < j))
                && #[trigger] runs[a]@[b].stream_id == y;
        assert(occurs_before(runs, i, j + 1, y));
    }
    if runs[i]@[j].stream_id == y {
        assert(occurs_before(runs, i, j + 1, y));
    }
}

proof fn lemma_occurs_before_next_run(runs: Seq<Vec<StreamGroup>>, i: int, y: u16)
    requires
        0 <= i < runs.len(),
    ensures
        occurs_before(runs, i + 1, 0, y) <==> occurs_before(runs, i, runs[i]@.len() as int, y),
{
    if occurs_before(runs, i + 1, 0, y) {
        let (a, b) = choose|a: int, b: int|
            0 <= a < runs.len() && 0 <= b < runs[a]@.len() && (a < i + 1 || (a == i + 1 && b < 0))
                && #[trigger] runs[a]@[b].stream_id == y;
        assert(occurs_before(runs, i, runs[i]@.len() as int, y));
    }
    if occurs_before(runs, i, runs[i]@.len() as int, y) {
        let (a, b) = choose|a: int, b: int|
            0 <= a < runs.len() && 0 <= b < runs[a]@.len() && (a < i || (a == i && b < runs[i]@.len()))
                && #[trigger] runs[a]@[b].stream_id == y;
        assert(occurs_before(runs, i + 1, 0, y));
    }
}

proof fn lemma_occurs_before_all(runs: Seq<Vec<StreamGroup>>, y: u16)
    ensures
        occurs_before(runs, runs.len() as int, 0, y) <==> occurs_in_runs(runs, y),
{
    if occurs_in_runs(runs, y) {
        let (a, b) = choose|a: int, b: int|
            0 <= a < runs.len() && 0 <= b < runs[a]@.len() && #[trigger] runs[a]@[b].stream_id == y;
        assert(occurs_before(runs, runs.len() as int, 0, y));
    }
}

/// The streams of several runs, each once, in increasing order of stream id:
/// exactly the ids that some group of some run is for.
pub fn merge_stream_ids(runs: &[Vec<StreamGroup>]) -> (ids: Vec<u16>)
    ensures
        strictly_increasing(ids@),
        forall|id: u16| ids@.contains(id) <==> occurs_in_runs(runs@, id),
{
    let mut ids: Vec<u16> = Vec::new();
    let nr: usize = runs.len();
    let mut i: usize = 0;
    while i < nr
        invariant
            nr == runs@.len(),
            0 <= i <= nr,
            strictly_increasing(ids@),
            forall|y: u16| ids@.contains(y) <==> occurs_before(runs@, i as int, 0, y),
        decreases nr - i,
    {
        let ng: usize = runs[i].len();
        let mut j: usize = 0;
        while j < ng
            invariant
                nr == runs@.len(),
                0 <= i < nr,
                ng == runs@[i as int]@.len(),
                0 <= j <= ng,
                strictly_increasing(ids@),
                forall|y: u16| ids@.contains(y) <==> occurs_before(runs@, i as int, j as int, y),
            decreases ng - j,
        {
            let id: u16 = runs[i][j].stream_id;
            insert_stream_id(&mut ids, id);
            proof {
                assert forall|y: u16| ids@.contains(y) <==> occurs_before(
                    runs@,
                    i as int,
                    j + 1,
                    y,
                ) by {
                    lemma_occurs_before_step(runs@, i as int, j as int, y);
                }
            }
            j = j + 1;
        }
        proof {
            assert forall|y: u16| ids@.contains(y) <==> occurs_before(runs@, i + 1, 0, y) by {
                lemma_occurs_before_next_run(runs@, i as int, y);
            }
        }
        i = i + 1;
    }
    proof {
        assert forall|y: u16| ids@.contains(y) <==> occurs_in_runs(runs@, y) by {
            lemma_occurs_before_all(runs@, y);
        }
    }
    ids
}

// ---------------------------------------------------------------------------
// Receive-time and latency totals

/// Earliest receive time of a non-empty sequence of records.
pub open spec fn min_recv(s: Seq<BenchmarkRecord>) -> u64
    decreases s.len(),
{
    if s.len() <= 1 {
        s[0].recv_timestamp
    } else {
        let m = min_recv(s.drop_last());
        if s.last().recv_timestamp < m {
            s.last().recv_timestamp
        } else {
            m
        }
    }
}

/// Latest receive time of a non-empty sequence of records.
pub open spec fn max_recv(s: Seq<BenchmarkRecord>) -> u64
    decreases s.len(),
{
    if s.len() <= 1 {
        s[0].recv_timestamp
    } else {
        let m = max_recv(s.drop_last());
        if s.last().recv_timestamp > m {
            s.last().recv_timestamp
        } else {
            m
        }
    }
}

/// Total payload bytes.
pub open spec fn sum_payload(s: Seq<BenchmarkRecord>) -> nat
    decreases s.len(),
{
    if s.len() == 0 {
        0
    } else {
        sum_payload(s.drop_last()) + s.last().payload_size as nat
    }
}

/// Total round-trip time.
pub open spec fn sum_rtt(s: Seq<BenchmarkRecord>) -> nat
    decreases s.len(),
{
    if s.len() == 0 {
        0
    } else {
        sum_rtt(s.drop_last()) + s.last().rtt_us as nat
    }
}

/// The round-trip times of the records, in order.
pub open spec fn rtts_of(s: Seq<BenchmarkRecord>) -> Seq<u64> {
    s.map_values(|r: BenchmarkRecord| r.rtt_us)
}

/// The sequence is in non-decreasing order.
pub open spec fn is_sorted(s: Seq<u64>) -> bool {
    forall|i: int, j: int| 0 <= i < j < s.len() ==> s[i] <= s[j]
}

proof fn lemma_min_max_recv(s: Seq<BenchmarkRecord>)
    requires
        s.len() > 0,
    ensures
        min_recv(s) <= max_recv(s),
    decreases s.len(),
{
    if s.len() > 1 {
        lemma_min_max_recv(s.drop_last());
    }
}

proof fn lemma_sums_monotone(s: Seq<BenchmarkRecord>, i: int)
    requires
        0 <= i <= s.len(),
    ensures
        sum_payload(s.subrange(0, i)) <= sum_payload(s),
        sum_rtt(s.subrange(0, i)) <= sum_rtt(s),
    decreases s.len() - i,
{
    if i < s.len() {
        lemma_sums_monotone(s, i + 1);
        assert(s.subrange(0, i + 1).drop_last() =~= s.subrange(0, i));
    } else {
        assert(s.subrange(0, i) =~= s);
    }
}

/// Inserts `x` into a sorted vector, after the elements not above it.
fn sorted_insert(v: &mut Vec<u64>, x: u64)
    requires
        is_sorted(old(v)@),
    ensures
        is_sorted(final(v)@),
        final(v)@.to_multiset() == old(v)@.to_multiset().insert(x),
{
    let n: usize = v.len();
    let mut j: usize = 0;
    while j < n && v[j] <= x
        invariant
            n == v@.len(),
            v@ == old(v)@,
            0 <= j <= n,
            forall|i: int| 0 <= i < j ==> v@[i] <= x,
        decreases n - j,
    {
        j = j + 1;
    }
    v.insert(j, x);
    proof {
        vstd::seq_lib::to_multiset_insert(old(v)@, j as int, x);
        let o = old(v)@;
        assert forall|a: int, b: int| 0 <= a < b < v@.len() implies v@[a] <= v@[b] by {
            if b < j {
                assert(o[a] <= o[b]);
            } else if b == j {
                assert(o[a] <= x);
            } else if a > j {
                assert(o[a - 1] <= o[b - 1]);
            } else if a == j {
                assert(o[j as int] > x);
                if b - 1 > j {
                    assert(o[j as int] <= o[b - 1]);
                }
            } else {
                assert(o[a] <= o[b - 1]);
            }
        }
    }
}

/// Receive-time and latency totals of a run or stream.
pub struct LatencyTotals {
    /// Earliest receive time.
    pub min_time: u64,
    /// Latest receive time.
    pub max_time: u64,
    /// Time between the first and the last reception.
    pub duration_us: u64,
    /// Payload bytes received.
    pub total_bytes: usize,
    /// The round-trip times in increasing order.
    pub sorted_rtts: Vec<u64>,
    /// Sum of the round-trip times.
    pub sum_rtt: u64,
}

/// The totals of a set of records; `None` when there are none.
pub fn latency_totals(records: &[BenchmarkRecord]) -> (t: Option<LatencyTotals>)
    requires
        sum_payload(records@) <= usize::MAX,
        sum_rtt(records@) <= u64::MAX,
    ensures
        records@.len() == 0 <==> t is None,
        t matches Some(t) ==> {
            &&& t.min_time == min_recv(records@)
            &&& t.max_time == max_recv(records@)
            &&& t.duration_us == t.max_time - t.min_time
            &&& t.total_bytes == sum_payload(records@)
            &&& t.sum_rtt == sum_rtt(records@)
            &&& is_sorted(t.sorted_rtts@)
            &&& t.sorted_rtts@.to_multiset() == rtts_of(records@).to_multiset()
        },
{
    let n: usize = records.len();
    if n == 0 {
        return None;
    }
    let mut min_time: u64 = records[0].recv_timestamp;
    let mut max_time: u64 = records[0].recv_timestamp;
    let mut total_bytes: usize = 0;
    let mut total_rtt: u64 = 0;
    let mut rtts: Vec<u64> = Vec::new();
    let mut i: usize = 0;
    proof {
        assert(rtts_of(records@.subrange(0, 0)) =~= Seq::<u64>::empty());
    }
    while i < n
        invariant
            n == records@.len(),
            n > 0,
            0 <= i <= n,
            sum_payload(records@) <= usize::MAX,
            sum_rtt(records@) <= u64::MAX,
            i > 0 ==> min_time == min_recv(records@.subrange(0, i as int)),
            i > 0 ==> max_time == max_recv(records@.subrange(0, i as int)),
            i == 0 ==> min_time == records@[0].recv_timestamp && max_time
                == records@[0].recv_timestamp,
            total_bytes == sum_payload(records@.subrange(0, i as int)),
            total_rtt == sum_rtt(records@.subrange(0, i as int)),
            is_sorted(rtts@),
            rtts@.to_multiset() == rtts_of(records@.subrange(0, i as int)).to_multiset(),
        decreases n - i,
    {
        let r = records[i];
        let ghost pre = records@.subrange(0, i as int);
        let ghost post = records@.subrange(0, i + 1);
        proof {
            assert(post.drop_last() =~= pre);
            assert(post.last() == r);
            lemma_sums_monotone(records@, i + 1);
            assert(rtts_of(post) =~= rtts_of(pre).push(r.rtt_us));
            vstd::seq_lib::to_multiset_build(rtts_of(pre), r.rtt_us);
        }
        if r.recv_timestamp < min_time {
            min_time = r.recv_timestamp;
        }
        if r.recv_timestamp > max_time {
            max_time = r.recv_timestamp;
        }
        total_bytes = total_bytes + r.payload_size;
        total_rtt = total_rtt + r.rtt_us;
        sorted_insert(&mut rtts, r.rtt_us);
        i = i + 1;
    }
    proof {
        assert(records@.subrange(0, n as int) =~= records@);
        lemma_min_max_recv(records@);
    }
    Some(
        LatencyTotals {
            min_time,
            max_time,
            duration_us: max_time - min_time,
            total_bytes,
            sorted_rtts: rtts,
            sum_rtt: total_rtt,
        },
    )
}

// ---------------------------------------------------------------------------
// Confidence intervals

/// The two-tailed 95% critical value for a confidence interval over `n`
/// runs, in thousandths: Student's t distribution with `n - 1` degrees of
/// freedom below 30 runs, the normal value 1.960 from 30 runs on, and 0
/// where no interval can be given (fewer than two runs).
pub open spec fn spec_t_critical_95_milli(n: usize) -> u32 {
    match n {
        0 | 1 => 0,
        2 => 12706,
        3 => 4303,
        4 => 3182,
        5 => 2776,
        6 => 2571,
        7 => 2447,
        8 => 2365,
        9 => 2306,
        10 => 2262,
        11 => 2228,
        12 => 2201,
        13 => 2179,
        14 => 2160,
        15 => 2145,
        16 => 2131,
        17 => 2120,
        18 => 2110,
        19 => 2101,
        20 => 2093,
        21 => 2086,
        22 => 2080,
        23 => 2074,
        24 => 2069,
        25 => 2064,
        26 => 2060,
        27 => 2056,
        28 => 2052,
        29 => 2048,
        _ => 1960,
    }
}

/// The 95% critical value for `n` runs, in thousandths.
pub fn t_critical_95_milli(n: usize) -> (t: u32)
    ensures
        t == spec_t_critical_95_milli(n),
{
    match n {
        0 | 1 => 0,
        2 => 12706,
        3 => 4303,
        4 => 3182,
        5 => 2776,
        6 => 2571,
        7 => 2447,
        8 => 2365,
        9 => 2306,
        10 => 2262,
        11 => 2228,
        12 => 2201,
        13 => 2179,
        14 => 2160,
        15 => 2145,
        16 => 2131,
        17 => 2120,
        18 => 2110,
        19 => 2101,
        20 => 2093,
        21 => 2086,
        22 => 2080,
        23 => 2074,
        24 => 2069,
        25 => 2064,
        26 => 2060,
        27 => 2056,
        28 => 2052,
        29 => 2048,
        _ => 1960,
    }
}

} // verus!
