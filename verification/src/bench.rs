//! Types shared by the benchmark client, server and report tools, and the
//! line format of the client's record file.

use vstd::prelude::*;

verus! {

/// The transports the benchmark can run on.
#[derive(Debug, Clone, Copy, PartialEq, Eq, PartialOrd, Ord, Structural)]
pub enum TestProtocol {
    Udp,
    Tcp,
    Quic,
    GNS,
}

/// One received probe packet, as the client logs it.
#[derive(Debug, Clone, Copy, PartialEq, Eq, PartialOrd, Ord, Structural)]
pub struct BenchmarkRecord {
    pub packet_id: u64,
    pub stream_id: u16,
    pub rtt_us: u64,
    pub payload_size: usize,
    pub recv_timestamp: u64,
}

/// The decimal digits of `v` in ASCII, most significant first, with no
/// leading zero.
pub open spec fn decimal(v: nat) -> Seq<u8>
    decreases v,
{
    if v < 10 {
        seq![(48 + v) as u8]
    } else {
        decimal(v / 10).push((48 + v % 10) as u8)
    }
}

/// Appends the decimal digits of `v`.
pub fn push_decimal(buf: &mut Vec<u8>, v: u64)
    ensures
        final(buf)@ == old(buf)@ + decimal(v as nat),
    decreases v,
{
    if v >= 10 {
        push_decimal(buf, v / 10);
    }
    let d: u8 = (v % 10) as u8;
    buf.push(48 + d);
    proof {
        if v >= 10 {
            assert(decimal(v as nat) == decimal((v / 10) as nat).push((48 + v % 10) as u8));
        }
        assert(buf@ =~= old(buf)@ + decimal(v as nat));
    }
}

/// The line of the record file for one record: receive time, packet id,
/// stream id, round trip and payload size, in decimal, separated by commas.
pub open spec fn spec_record_line(r: BenchmarkRecord) -> Seq<u8> {
    decimal(r.recv_timestamp as nat) + seq![44u8] + decimal(r.packet_id as nat) + seq![44u8]
        + decimal(r.stream_id as nat) + seq![44u8] + decimal(r.rtt_us as nat) + seq![44u8]
        + decimal(r.payload_size as nat) + seq![10u8]
}

/// An ASCII decimal digit.
pub open spec fn is_digit(b: u8) -> bool {
    48 <= b <= 57
}

/// A non-empty run of ASCII decimal digits.
pub open spec fn is_number(s: Seq<u8>) -> bool {
    s.len() > 0 && forall|i: int| 0 <= i < s.len() ==> is_digit(s[i])
}

/// The value of a run of decimal digits, most significant first.
pub open spec fn decimal_value(s: Seq<u8>) -> nat
    decreases s.len(),
{
    if s.len() == 0 {
        0
    } else {
        decimal_value(s.drop_last()) * 10 + (s.last() - 48) as nat
    }
}

/// A field followed by a separator byte, then the rest of the line.
pub open spec fn field_then(field: Seq<u8>, sep: u8, rest: Seq<u8>) -> Seq<u8> {
    field.push(sep) + rest
}

/// Five fields joined by commas and ended by a newline.
pub open spec fn csv_row(f: Seq<Seq<u8>>) -> Seq<u8> {
    field_then(
        f[0],
        44,
        field_then(f[1], 44, field_then(f[2], 44, field_then(f[3], 44, field_then(f[4], 10, seq![])))),
    )
}

/// `line` reads as the record `r`: split at its commas it has five decimal
/// fields, which give receive time, packet id, stream id, round trip and
/// payload size in that order, and it ends with a newline.
pub open spec fn reads_as(line: Seq<u8>, r: BenchmarkRecord) -> bool {
    exists|f: Seq<Seq<u8>>|
        #![trigger csv_row(f)]
        f.len() == 5 && csv_row(f) == line && (forall|i: int| 0 <= i < 5 ==> is_number(#[trigger] f[i]))
            && decimal_value(f[0]) == r.recv_timestamp && decimal_value(f[1]) == r.packet_id
            && decimal_value(f[2]) == r.stream_id && decimal_value(f[3]) == r.rtt_us
            && decimal_value(f[4]) == r.payload_size
}

proof fn lemma_decimal(v: nat)
    ensures
        is_number(decimal(v)),
        decimal_value(decimal(v)) == v,
    decreases v,
{
    let d = decimal(v);
    if v >= 10 {
        lemma_decimal(v / 10);
        assert(d.drop_last() =~= decimal(v / 10));
        assert(d.last() == (48 + v % 10) as u8);
        assert((d.last() - 48) as nat == v % 10);
        assert((v / 10) * 10 + v % 10 == v);
        assert(decimal_value(d) == decimal_value(d.drop_last()) * 10 + (d.last() - 48) as nat);
        assert(decimal_value(d.drop_last()) == v / 10);
    } else {
        assert(d.drop_last() =~= Seq::<u8>::empty());
        assert(d.last() == (48 + v) as u8);
        assert(decimal_value(d) == decimal_value(d.drop_last()) * 10 + (d.last() - 48) as nat);
        assert(decimal_value(Seq::<u8>::empty()) == 0);
    }
}

proof fn lemma_field_then_unique(a: Seq<u8>, x: Seq<u8>, b: Seq<u8>, y: Seq<u8>, sep: u8)
    requires
        is_number(a),
        is_number(b),
        !is_digit(sep),
        field_then(a, sep, x) == field_then(b, sep, y),
    ensures
        a == b,
        x == y,
{
    let l = field_then(a, sep, x);
    if a.len() < b.len() {
        assert(l[a.len() as int] == sep);
        assert(l[a.len() as int] == b[a.len() as int]);
    } else if b.len() < a.len() {
        assert(l[b.len() as int] == sep);
        assert(l[b.len() as int] == a[b.len() as int]);
    }
    assert(a =~= l.subrange(0, a.len() as int));
    assert(b =~= l.subrange(0, b.len() as int));
    assert(x =~= l.subrange(a.len() as int + 1, l.len() as int));
    assert(y =~= l.subrange(b.len() as int + 1, l.len() as int));
}

/// A line of the record file is written so that it reads back as its
/// record, field by field in the order of the header.
pub proof fn law_record_line_reads_back(r: BenchmarkRecord)
    ensures
        reads_as(spec_record_line(r), r),
{
    lemma_decimal(r.recv_timestamp as nat);
    lemma_decimal(r.packet_id as nat);
    lemma_decimal(r.stream_id as nat);
    lemma_decimal(r.rtt_us as nat);
    lemma_decimal(r.payload_size as nat);
    let f = seq![
        decimal(r.recv_timestamp as nat),
        decimal(r.packet_id as nat),
        decimal(r.stream_id as nat),
        decimal(r.rtt_us as nat),
        decimal(r.payload_size as nat),
    ];
    assert(csv_row(f) =~= spec_record_line(r));
    assert(forall|i: int| 0 <= i < 5 ==> is_number(#[trigger] f[i]));
}

/// A line reads as at most one record: its fields, and so the record, are
/// fixed by the line.
pub proof fn law_line_reads_as_one_record(line: Seq<u8>, r1: BenchmarkRecord, r2: BenchmarkRecord)
    requires
        reads_as(line, r1),
        reads_as(line, r2),
    ensures
        r1 == r2,
{
    let f = choose|f: Seq<Seq<u8>>|
        #![trigger csv_row(f)]
        f.len() == 5 && csv_row(f) == line && (forall|i: int| 0 <= i < 5 ==> is_number(#[trigger] f[i]))
            && decimal_value(f[0]) == r1.recv_timestamp && decimal_value(f[1]) == r1.packet_id
            && decimal_value(f[2]) == r1.stream_id && decimal_value(f[3]) == r1.rtt_us
            && decimal_value(f[4]) == r1.payload_size;
    let g = choose|g: Seq<Seq<u8>>|
        #![trigger csv_row(g)]
        g.len() == 5 && csv_row(g) == line && (forall|i: int| 0 <= i < 5 ==> is_number(#[trigger] g[i]))
            && decimal_value(g[0]) == r2.recv_timestamp && decimal_value(g[1]) == r2.packet_id
            && decimal_value(g[2]) == r2.stream_id && decimal_value(g[3]) == r2.rtt_us
            && decimal_value(g[4]) == r2.payload_size;
    assert(is_number(f[0]) && is_number(f[1]) && is_number(f[2]) && is_number(f[3]) && is_number(f[4]));
    assert(is_number(g[0]) && is_number(g[1]) && is_number(g[2]) && is_number(g[3]) && is_number(g[4]));
    let t4f = field_then(f[4], 10, seq![]);
    let t4g = field_then(g[4], 10, seq![]);
    let t3f = field_then(f[3], 44, t4f);
    let t3g = field_then(g[3], 44, t4g);
    let t2f = field_then(f[2], 44, t3f);
    let t2g = field_then(g[2], 44, t3g);
    let t1f = field_then(f[1], 44, t2f);
    let t1g = field_then(g[1], 44, t2g);
    lemma_field_then_unique(f[0], t1f, g[0], t1g, 44);
    lemma_field_then_unique(f[1], t2f, g[1], t2g, 44);
    lemma_field_then_unique(f[2], t3f, g[2], t3g, 44);
    lemma_field_then_unique(f[3], t4f, g[3], t4g, 44);
    lemma_field_then_unique(f[4], seq![], g[4], seq![], 10);
}

/// The line of the record file for one record, ending in a newline.
pub fn record_line(r: &BenchmarkRecord) -> (line: Vec<u8>)
    ensures
        line@ == spec_record_line(*r),
        reads_as(line@, *r),
{
    let mut line: Vec<u8> = Vec::new();
    push_decimal(&mut line, r.recv_timestamp);
    line.push(44);
    push_decimal(&mut line, r.packet_id);
    line.push(44);
    push_decimal(&mut line, r.stream_id as u64);
    line.push(44);
    push_decimal(&mut line, r.rtt_us);
    line.push(44);
    push_decimal(&mut line, r.payload_size as u64);
    line.push(10);
    assert(line@ =~= spec_record_line(*r));
    proof {
        law_record_line_reads_back(*r);
    }
    line
}

} // verus!
