//! Result files of a benchmark sweep: which protocol a file belongs to, and
//! the sorted list of protocols that have files.

use vstd::prelude::*;
use vstd::utf8::{encode_utf8, encode_utf8_decode_utf8};

verus! {

/// `_run`, which separates a protocol's name from a run number in a result
/// file's name (`quic_run01.csv`).
pub open spec fn is_run_marker_at(name: Seq<u8>, i: int) -> bool {
    0 <= i && i + 4 <= name.len() && name[i] == 0x5f && name[i + 1] == 0x72 && name[i + 2]
        == 0x75 && name[i + 3] == 0x6e
}

/// Whether `name` holds `_run` at byte `i`.
fn run_marker_at(name: &[u8], i: usize) -> (r: bool)
    requires
        i <= name@.len(),
    ensures
        r == is_run_marker_at(name@, i as int),
{
    let n: usize = name.len();
    if n - i < 4 {
        return false;
    }
    name[i] == 0x5f && name[i + 1] == 0x72 && name[i + 2] == 0x75 && name[i + 3] == 0x6e
}

/// `n` is where the first `_run` of `stem` starts, or the stem's length when
/// it has none.
pub open spec fn is_protocol_name_len(stem: Seq<u8>, n: int) -> bool {
    &&& 0 <= n <= stem.len()
    &&& n < stem.len() ==> is_run_marker_at(stem, n)
    &&& forall|i: int| 0 <= i < n ==> !is_run_marker_at(stem, i)
}

/// The length of the protocol name in a result file's stem (its name
/// without `.csv`): the part before the first `_run`, or the whole stem.
pub fn protocol_name_len(stem: &[u8]) -> (n: usize)
    ensures
        is_protocol_name_len(stem@, n as int),
{
    let len: usize = stem.len();
    let mut i: usize = 0;
    while i < len
        invariant
            len == stem@.len(),
            0 <= i <= len,
            forall|j: int| 0 <= j < i ==> !is_run_marker_at(stem@, j),
        decreases len - i,
    {
        if run_marker_at(stem, i) {
            return i;
        }
        i = i + 1;
    }
    len
}

/// A result file's stem belongs to `protocol`: it is the protocol's name
/// itself (single run) or starts with the name followed by `_run`.
pub open spec fn spec_is_run_file_of(stem: Seq<u8>, protocol: Seq<u8>) -> bool {
    stem == protocol || (stem.len() >= protocol.len() && stem.subrange(0, protocol.len() as int)
        == protocol && is_run_marker_at(stem, protocol.len() as int))
}

/// Whether a result file's stem belongs to `protocol`: it is the protocol's
/// name itself (single run) or starts with the name followed by `_run`.
pub fn is_run_file_of(stem: &[u8], protocol: &[u8]) -> (r: bool)
    ensures
        r == spec_is_run_file_of(stem@, protocol@),
{
    let sl: usize = stem.len();
    let pl: usize = protocol.len();
    if sl < pl {
        assert(stem@ != protocol@);
        return false;
    }
    let mut i: usize = 0;
    while i < pl
        invariant
            sl == stem@.len(),
            pl == protocol@.len(),
            pl <= sl,
            0 <= i <= pl,
            forall|j: int| 0 <= j < i ==> stem@[j] == protocol@[j],
        decreases pl - i,
    {
        if stem[i] != protocol[i] {
            assert(stem@.subrange(0, pl as int)[i as int] != protocol@[i as int]);
            assert(stem@ != protocol@);
            return false;
        }
        i = i + 1;
    }
    assert(stem@.subrange(0, pl as int) =~= protocol@);
    if sl == pl {
        assert(stem@ =~= protocol@);
        return true;
    }
    let r = run_marker_at(stem, pl);
    assert(stem@ != protocol@);
    r
}

/// Every result file belongs to the protocol whose name it starts with:
/// for the length `n` that `protocol_name_len` gives for a stem, the stem is
/// a run file of its first `n` bytes. So every file of a scenario is found
/// again under one of the protocols discovered there.
pub proof fn law_run_file_coverage(stem: Seq<u8>, n: int)
    requires
        is_protocol_name_len(stem, n),
    ensures
        spec_is_run_file_of(stem, stem.subrange(0, n)),
{
    if n == stem.len() {
        assert(stem.subrange(0, n) =~= stem);
    } else {
        assert(stem.subrange(0, n).subrange(0, n) =~= stem.subrange(0, n));
        assert(stem.subrange(0, n).len() == n);
    }
}

/// An ASCII upper-case letter turned lower-case; other bytes unchanged.
pub open spec fn ascii_lower(b: u8) -> u8 {
    if 65 <= b <= 90 {
        (b + 32) as u8
    } else {
        b
    }
}

/// Equal when ASCII letters are compared without regard to case.
pub open spec fn same_ignoring_ascii_case(a: Seq<u8>, b: Seq<u8>) -> bool {
    a.len() == b.len() && forall|i: int| 0 <= i < a.len() ==> ascii_lower(a[i]) == ascii_lower(b[i])
}

/// Whether a protocol found in the results is the one a report asks for:
/// the names agree when ASCII letters are compared without regard to case.
pub fn is_wanted_protocol(name: &[u8], wanted: &[u8]) -> (r: bool)
    ensures
        r == same_ignoring_ascii_case(name@, wanted@),
{
    let n: usize = name.len();
    if n != wanted.len() {
        return false;
    }
    let mut i: usize = 0;
    while i < n
        invariant
            n == name@.len(),
            n == wanted@.len(),
            0 <= i <= n,
            forall|j: int| 0 <= j < i ==> ascii_lower(name@[j]) == ascii_lower(wanted@[j]),
        decreases n - i,
    {
        let a: u8 = name[i];
        let b: u8 = wanted[i];
        let la: u8 = if 65 <= a && a <= 90 {
            a + 32
        } else {
            a
        };
        let lb: u8 = if 65 <= b && b <= 90 {
            b + 32
        } else {
            b
        };
        if la != lb {
            return false;
        }
        i = i + 1;
    }
    true
}

/// Whether `part` occurs in `name` as a run of consecutive bytes.
pub open spec fn occurs_in(name: Seq<u8>, part: Seq<u8>) -> bool {
    exists|i: int| 0 <= i && i + part.len() <= name.len() && #[trigger] name.subrange(i, i + part.len()) == part
}

/// Whether a scenario's directory name holds the text a report asks for.
pub fn is_wanted_scenario(name: &[u8], part: &[u8]) -> (r: bool)
    ensures
        r == occurs_in(name@, part@),
{
    let n: usize = name.len();
    let m: usize = part.len();
    if m > n {
        proof {
            assert forall|i: int| 0 <= i && i + m <= n implies #[trigger] name@.subrange(i, i + m) != part@ by {}
        }
        return false;
    }
    let mut i: usize = 0;
    while i <= n - m
        invariant
            n == name@.len(),
            m == part@.len(),
            m <= n,
            0 <= i <= n - m + 1,
            forall|k: int| 0 <= k < i ==> #[trigger] name@.subrange(k, k + m) != part@,
        decreases n - m + 1 - i,
    {
        let mut j: usize = 0;
        while j < m && name[i + j] == part[j]
            invariant
                n == name@.len(),
                m == part@.len(),
                i + m <= n,
                0 <= j <= m,
                forall|t: int| 0 <= t < j ==> name@[i + t] == part@[t],
            decreases m - j,
        {
            j = j + 1;
        }
        if j == m {
            assert(name@.subrange(i as int, i + m) =~= part@);
            return true;
        }
        assert(name@.subrange(i as int, i + m)[j as int] != part@[j as int]);
        i = i + 1;
    }
    proof {
        assert forall|k: int| 0 <= k && k + m <= n implies #[trigger] name@.subrange(k, k + m) != part@ by {
            assert(k < i);
        }
    }
    false
}

/// Byte-wise lexicographic order: `a` comes before `b` when it is a proper
/// prefix of `b`, or when at the first position where they differ its byte
/// is smaller. This is the order of Rust's `str` and `String`.
pub open spec fn lex_lt(a: Seq<u8>, b: Seq<u8>) -> bool
    decreases a.len(),
{
    if b.len() == 0 {
        false
    } else if a.len() == 0 {
        true
    } else if a[0] != b[0] {
        a[0] < b[0]
    } else {
        lex_lt(a.drop_first(), b.drop_first())
    }
}

/// No byte string comes before itself.
pub proof fn lemma_lex_irreflexive(a: Seq<u8>)
    ensures
        !lex_lt(a, a),
    decreases a.len(),
{
    if a.len() > 0 {
        lemma_lex_irreflexive(a.drop_first());
    }
}

/// The byte-wise order is transitive.
pub proof fn lemma_lex_transitive(a: Seq<u8>, b: Seq<u8>, c: Seq<u8>)
    requires
        lex_lt(a, b),
        lex_lt(b, c),
    ensures
        lex_lt(a, c),
    decreases a.len(),
{
    if a.len() > 0 && b.len() > 0 && c.len() > 0 {
        if a[0] == b[0] && b[0] == c[0] {
            lemma_lex_transitive(a.drop_first(), b.drop_first(), c.drop_first());
        }
    }
}

/// Of two different byte strings, one comes before the other.
pub proof fn lemma_lex_total(a: Seq<u8>, b: Seq<u8>)
    requires
        a != b,
    ensures
        lex_lt(a, b) || lex_lt(b, a),
    decreases a.len(),
{
    if a.len() > 0 && b.len() > 0 && a[0] == b[0] {
        if a.drop_first() == b.drop_first() {
            assert(a =~= seq![a[0]] + a.drop_first());
            assert(b =~= seq![b[0]] + b.drop_first());
        }
        lemma_lex_total(a.drop_first(), b.drop_first());
    } else if a.len() == 0 && b.len() == 0 {
        assert(a =~= b);
    }
}

/// Whether `a` comes before `b` byte-wise.
pub fn bytes_lt(a: &[u8], b: &[u8]) -> (r: bool)
    ensures
        r == lex_lt(a@, b@),
{
    let na: usize = a.len();
    let nb: usize = b.len();
    let mut i: usize = 0;
    proof {
        assert(a@.skip(0) =~= a@);
        assert(b@.skip(0) =~= b@);
    }
    while i < na && i < nb
        invariant
            na == a@.len(),
            nb == b@.len(),
            0 <= i <= na,
            i <= nb,
            lex_lt(a@, b@) == lex_lt(a@.skip(i as int), b@.skip(i as int)),
        decreases na - i,
    {
        if a[i] != b[i] {
            return a[i] < b[i];
        }
        proof {
            assert(a@.skip(i as int).drop_first() =~= a@.skip(i + 1));
            assert(b@.skip(i as int).drop_first() =~= b@.skip(i + 1));
        }
        i = i + 1;
    }
    i < nb
}

/// The UTF-8 bytes of a string.
pub open spec fn utf8_of(s: String) -> Seq<u8> {
    encode_utf8(s@)
}

/// `out` is strictly increasing by the byte-wise order and holds exactly the
/// texts of `names`.
pub open spec fn is_sorted_set_of(out: Seq<String>, names: Seq<String>) -> bool {
    strictly_sorted(out) && texts(out) == texts(names)
}

/// The set of texts that a sequence of strings holds.
pub open spec fn texts(s: Seq<String>) -> Set<Seq<char>> {
    s.map_values(|x: String| x@).to_set()
}

proof fn lemma_texts_contains(s: Seq<String>, j: int)
    requires
        0 <= j < s.len(),
    ensures
        texts(s).contains(s[j]@),
{
    assert(s.map_values(|x: String| x@)[j] == s[j]@);
}

proof fn lemma_texts_push(s: Seq<String>, name: String)
    ensures
        texts(s.push(name)) == texts(s).insert(name@),
{
    let f = |x: String| x@;
    s.lemma_push_map_commute(f, name);
    s.map_values(f).lemma_push_to_set_commute(name@);
}

proof fn lemma_texts_insert(s: Seq<String>, j: int, name: String)
    requires
        0 <= j <= s.len(),
    ensures
        texts(s.insert(j, name)) == texts(s).insert(name@),
{
    let f = |x: String| x@;
    let m = s.map_values(f);
    let m2 = m.insert(j, name@);
    assert(s.insert(j, name).map_values(f) =~= m2);
    assert forall|t: Seq<char>| m2.to_set().contains(t) <==> m.to_set().insert(name@).contains(t) by {
        if m2.contains(t) {
            let i = choose|i: int| 0 <= i < m2.len() && m2[i] == t;
            if i < j {
                assert(m[i] == t);
            } else if i > j {
                assert(m[i - 1] == t);
            }
        }
        if m.contains(t) {
            let i = choose|i: int| 0 <= i < m.len() && m[i] == t;
            if i < j {
                assert(m2[i] == t);
            } else {
                assert(m2[i + 1] == t);
            }
        }
        if t == name@ {
            assert(m2[j] == t);
        }
    }
    assert(m2.to_set() =~= m.to_set().insert(name@));
}

/// Strictly increasing by the byte-wise order of the strings' UTF-8 bytes.
pub open spec fn strictly_sorted(out: Seq<String>) -> bool {
    forall|i: int, j: int| 0 <= i < j < out.len() ==> lex_lt(utf8_of(out[i]), utf8_of(out[j]))
}

proof fn lemma_sorted_after_insert(out: Seq<String>, j: int, name: String)
    requires
        strictly_sorted(out),
        0 <= j <= out.len(),
        forall|i: int| 0 <= i < j ==> lex_lt(utf8_of(out[i]), utf8_of(name)),
        j < out.len() ==> lex_lt(utf8_of(name), utf8_of(out[j])),
    ensures
        strictly_sorted(out.insert(j, name)),
{
    let o2 = out.insert(j, name);
    let x = utf8_of(name);
    assert forall|a: int, b: int| 0 <= a < b < o2.len() implies lex_lt(
        utf8_of(o2[a]),
        utf8_of(o2[b]),
    ) by {
        if b < j {
            assert(lex_lt(utf8_of(out[a]), utf8_of(out[b])));
        } else if b == j {
        } else if a > j {
            assert(lex_lt(utf8_of(out[a - 1]), utf8_of(out[b - 1])));
        } else if a == j {
            if b - 1 > j {
                assert(lex_lt(utf8_of(out[j]), utf8_of(out[b - 1])));
                lemma_lex_transitive(x, utf8_of(out[j]), utf8_of(out[b - 1]));
            }
        } else {
            if b - 1 > j {
                assert(lex_lt(utf8_of(out[j]), utf8_of(out[b - 1])));
                lemma_lex_transitive(x, utf8_of(out[j]), utf8_of(out[b - 1]));
            }
            lemma_lex_transitive(utf8_of(out[a]), x, utf8_of(out[b - 1]));
        }
    }
}

/// Adds one name to a sorted list of distinct names.
fn insert_name(out: &mut Vec<String>, name: &String, Ghost(seen): Ghost<Seq<String>>)
    requires
        is_sorted_set_of(old(out)@, seen),
    ensures
        is_sorted_set_of(final(out)@, seen.push(*name)),
{
    let ghost old_out = out@;
    let ghost x = utf8_of(*name);
    let n: usize = out.len();
    let mut j: usize = 0;
    while j < n && bytes_lt(out[j].as_str().as_bytes(), name.as_str().as_bytes())
        invariant
            n == out@.len(),
            out@ == old_out,
            0 <= j <= n,
            x == utf8_of(*name),
            forall|i: int| 0 <= i < j ==> lex_lt(utf8_of(out@[i]), x),
        decreases n - j,
    {
        j = j + 1;
    }
    if j < n && out[j] == *name {
        proof {
            lemma_texts_contains(old_out, j as int);
            lemma_texts_push(seen, *name);
            assert(texts(old_out).insert(name@) =~= texts(old_out));
        }
        return;
    }
    proof {
        if j < n {
            assert(!lex_lt(utf8_of(out@[j as int]), x));
            assert(out@[j as int]@ != name@);
            encode_utf8_decode_utf8(out@[j as int]@);
            encode_utf8_decode_utf8(name@);
            lemma_lex_total(utf8_of(out@[j as int]), x);
        }
        lemma_sorted_after_insert(old_out, j as int, *name);
        lemma_texts_insert(old_out, j as int, *name);
        lemma_texts_push(seen, *name);
    }
    out.insert(j, name.clone());
}

/// The names in byte-wise order, each once.
pub fn sorted_unique_names(names: &[String]) -> (out: Vec<String>)
    ensures
        is_sorted_set_of(out@, names@),
{
    let n: usize = names.len();
    let mut out: Vec<String> = Vec::new();
    let mut k: usize = 0;
    proof {
        assert(names@.subrange(0, 0) =~= Seq::<String>::empty());
    }
    while k < n
        invariant
            n == names@.len(),
            0 <= k <= n,
            is_sorted_set_of(out@, names@.subrange(0, k as int)),
        decreases n - k,
    {
        insert_name(&mut out, &names[k], Ghost(names@.subrange(0, k as int)));
        proof {
            assert(names@.subrange(0, k + 1) =~= names@.subrange(0, k as int).push(names@[k as int]));
        }
        k = k + 1;
    }
    assert(names@.subrange(0, n as int) =~= names@);
    out
}

} // verus!
