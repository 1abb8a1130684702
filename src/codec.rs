//! Field-by-field little-endian encoding of the records.
//!
//! Every record has a fixed size. Decoding takes exactly that many bytes and
//! fails otherwise, and fails on a byte that no value encodes to (an unknown
//! operation kind, a flag other than 0 or 1, a slot that is not a Unicode
//! scalar value). A successful decode yields the one value whose encoding is
//! the input.
use vstd::prelude::*;
use vstd::bytes::*;
use vstd::slice::slice_subrange;
use vstd::utf8::{char_is_scalar, char_u32_cast, is_scalar};
use crate::records::{
    ClientRaw, Extrato, Operation, OperationKind, Transacao, TransacaoExtrato, TransacaoReturn,
};

verus! {

/// A record did not have the expected size or held a byte no value encodes to.
#[derive(Clone, Copy, Debug, PartialEq, Eq)]
pub struct MalformedRecord;

// ---------------------------------------------------------------- fields

pub open spec fn i64_le(x: i64) -> Seq<u8> {
    spec_u64_to_le_bytes(x as u64)
}

pub open spec fn u64_le(x: u64) -> Seq<u8> {
    spec_u64_to_le_bytes(x)
}

pub open spec fn char_le(c: char) -> Seq<u8> {
    spec_u32_to_le_bytes(c as u32)
}

/// The 32-bit slot value stored at `off`.
pub open spec fn u32_at(b: Seq<u8>, off: int) -> u32 {
    spec_u32_from_le_bytes(b.subrange(off, off + 4))
}

pub open spec fn bool_byte(x: bool) -> u8 {
    if x { 1 } else { 0 }
}

pub open spec fn kind_byte(k: OperationKind) -> u8 {
    match k {
        OperationKind::Extrato => 0,
        OperationKind::Transacao => 1,
    }
}

/// Description slots, four bytes each.
pub open spec fn description_le(d: Seq<char>) -> Seq<u8>
    decreases d.len(),
{
    if d.len() == 0 {
        Seq::empty()
    } else {
        description_le(d.drop_last()) + char_le(d.last())
    }
}

/// Every one of the `n` slots that start at `off` holds a scalar value.
pub open spec fn slots_ok(b: Seq<u8>, off: int, n: int) -> bool {
    forall|k: int| 0 <= k < n ==> #[trigger] is_scalar(u32_at(b, off + 4 * k))
}

pub proof fn lemma_le_bytes()
    ensures
        forall|x: u64|
            #![trigger spec_u64_to_le_bytes(x)]
            spec_u64_to_le_bytes(x).len() == 8 && spec_u64_from_le_bytes(spec_u64_to_le_bytes(x)) == x,
        forall|s: Seq<u8>|
            s.len() == 8 ==> #[trigger] spec_u64_to_le_bytes(spec_u64_from_le_bytes(s)) == s,
        forall|x: u32|
            #![trigger spec_u32_to_le_bytes(x)]
            spec_u32_to_le_bytes(x).len() == 4 && spec_u32_from_le_bytes(spec_u32_to_le_bytes(x)) == x,
        forall|s: Seq<u8>|
            s.len() == 4 ==> #[trigger] spec_u32_to_le_bytes(spec_u32_from_le_bytes(s)) == s,
{
    lemma_auto_spec_u64_to_from_le_bytes();
    lemma_auto_spec_u32_to_from_le_bytes();
}

pub proof fn lemma_description_len(d: Seq<char>)
    ensures
        description_le(d).len() == 4 * d.len(),
    decreases d.len(),
{
    lemma_le_bytes();
    if d.len() > 0 {
        lemma_description_len(d.drop_last());
    }
}

/// The encoded description holds a scalar value in every slot.
pub proof fn lemma_description_slots(d: Seq<char>)
    ensures
        slots_ok(description_le(d), 0, d.len() as int),
    decreases d.len(),
{
    lemma_le_bytes();
    if d.len() > 0 {
        let p = d.drop_last();
        lemma_description_slots(p);
        lemma_description_len(p);
        let e = description_le(d);
        assert forall|k: int| 0 <= k < d.len() implies #[trigger] is_scalar(u32_at(e, 0 + 4 * k)) by {
            if k < p.len() {
                assert(e.subrange(4 * k, 4 * k + 4) =~= description_le(p).subrange(4 * k, 4 * k + 4));
                assert(is_scalar(u32_at(description_le(p), 0 + 4 * k)));
            } else {
                assert(e.subrange(4 * k, 4 * k + 4) =~= char_le(d.last()));
                char_is_scalar(d.last());
            }
        }
    }
}

/// Two descriptions of one length with the same encoding are equal.
pub proof fn lemma_description_injective(d1: Seq<char>, d2: Seq<char>)
    requires
        d1.len() == d2.len(),
        description_le(d1) == description_le(d2),
    ensures
        d1 == d2,
    decreases d1.len(),
{
    lemma_le_bytes();
    if d1.len() > 0 {
        let (init1, init2) = (d1.drop_last(), d2.drop_last());
        lemma_description_len(init1);
        lemma_description_len(init2);
        lemma_concat_injective(description_le(init1), char_le(d1.last()), description_le(init2), char_le(d2.last()));
        lemma_description_injective(init1, init2);
        assert(d1.last() as u32 == d2.last() as u32);
        char_u32_cast(d1.last(), d1.last() as u32);
        char_u32_cast(d2.last(), d2.last() as u32);
        assert(d1 =~= init1.push(d1.last()));
        assert(d2 =~= init2.push(d2.last()));
    } else {
        assert(d1 =~= d2);
    }
}

/// A concatenation splits back into its parts once the first part's length
/// is known.
pub proof fn lemma_concat_injective(a1: Seq<u8>, b1: Seq<u8>, a2: Seq<u8>, b2: Seq<u8>)
    requires
        a1.len() == a2.len(),
        a1 + b1 == a2 + b2,
    ensures
        a1 == a2,
        b1 == b2,
{
    assert(a1 =~= (a1 + b1).subrange(0, a1.len() as int));
    assert(a2 =~= (a2 + b2).subrange(0, a1.len() as int));
    assert(b1 =~= (a1 + b1).subrange(a1.len() as int, (a1 + b1).len() as int));
    assert(b2 =~= (a2 + b2).subrange(a1.len() as int, (a2 + b2).len() as int));
}

// ---------------------------------------------------------------- records

/// Value, ten description slots, timestamp: 56 bytes.
pub open spec fn transacao_le(value: i64, d: Seq<char>, ts: u64) -> Seq<u8> {
    i64_le(value) + description_le(d) + u64_le(ts)
}

pub open spec fn transacao_bytes(t: Transacao) -> Seq<u8> {
    transacao_le(t.value, t.transacao_description@, t.timestap)
}

/// The transaction record at `off` decodes: its slots hold scalar values.
pub open spec fn transacao_ok(b: Seq<u8>, off: int) -> bool {
    slots_ok(b, off + 8, 10)
}

pub proof fn lemma_transacao_le(value: i64, d: Seq<char>, ts: u64)
    requires
        d.len() == 10,
    ensures
        transacao_le(value, d, ts).len() == 56,
        transacao_ok(transacao_le(value, d, ts), 0),
        forall|v2: i64, d2: Seq<char>, ts2: u64|
            d2.len() == 10 && #[trigger] transacao_le(v2, d2, ts2) == transacao_le(value, d, ts)
                ==> v2 == value && d2 == d && ts2 == ts,
{
    lemma_le_bytes();
    lemma_description_len(d);
    lemma_description_slots(d);
    let e = transacao_le(value, d, ts);
    assert forall|k: int| 0 <= k < 10 implies #[trigger] is_scalar(u32_at(e, 8 + 4 * k)) by {
        assert(e.subrange(8 + 4 * k, 8 + 4 * k + 4) =~= description_le(d).subrange(0 + 4 * k, 4 * k + 4));
        assert(is_scalar(u32_at(description_le(d), 0 + 4 * k)));
    }
    assert forall|v2: i64, d2: Seq<char>, ts2: u64|
        d2.len() == 10 && #[trigger] transacao_le(v2, d2, ts2) == e implies v2 == value && d2 == d
            && ts2 == ts by {
        lemma_description_len(d2);
        lemma_concat_injective(i64_le(v2) + description_le(d2), u64_le(ts2), i64_le(value) + description_le(d), u64_le(ts));
        lemma_concat_injective(i64_le(v2), description_le(d2), i64_le(value), description_le(d));
        lemma_description_injective(d2, d);
        assert(spec_u64_from_le_bytes(i64_le(v2)) == spec_u64_from_le_bytes(i64_le(value)));
        assert(v2 as u64 == value as u64);
        assert(v2 as u64 == value as u64 ==> v2 == value) by (bit_vector);
    }
}

pub open spec fn entry_bytes(e: TransacaoExtrato) -> Seq<u8> {
    seq![bool_byte(e.isvalid)] + transacao_le(e.value, e.transacao_description@, e.timestap)
}

/// Statement entries one after another, 57 bytes each.
pub open spec fn entries_bytes(s: Seq<TransacaoExtrato>) -> Seq<u8>
    decreases s.len(),
{
    if s.len() == 0 {
        Seq::empty()
    } else {
        entries_bytes(s.drop_last()) + entry_bytes(s.last())
    }
}

/// The statement entry at `off` decodes.
pub open spec fn entry_ok(b: Seq<u8>, off: int) -> bool {
    b[off] <= 1 && transacao_ok(b, off + 1)
}

/// History slots one after another, 56 bytes each.
pub open spec fn history_bytes(s: Seq<Transacao>) -> Seq<u8>
    decreases s.len(),
{
    if s.len() == 0 {
        Seq::empty()
    } else {
        history_bytes(s.drop_last()) + transacao_bytes(s.last())
    }
}

pub proof fn lemma_entry(e: TransacaoExtrato)
    ensures
        entry_bytes(e).len() == 57,
        entry_ok(entry_bytes(e), 0),
        forall|e2: TransacaoExtrato| #[trigger] entry_bytes(e2) == entry_bytes(e) ==> e2 == e,
{
    broadcast use vstd::array::group_array_axioms;
    lemma_transacao_le(e.value, e.transacao_description@, e.timestap);
    let b = entry_bytes(e);
    let t = transacao_le(e.value, e.transacao_description@, e.timestap);
    assert forall|k: int| 0 <= k < 10 implies #[trigger] is_scalar(u32_at(b, 9 + 4 * k)) by {
        assert(b.subrange(9 + 4 * k, 9 + 4 * k + 4) =~= t.subrange(8 + 4 * k, 8 + 4 * k + 4));
        assert(is_scalar(u32_at(t, 8 + 4 * k)));
    }
    assert(slots_ok(b, 9, 10));
    assert(b[0] <= 1);
    assert forall|e2: TransacaoExtrato| #[trigger] entry_bytes(e2) == entry_bytes(e) implies e2 == e by {
        lemma_transacao_le(e2.value, e2.transacao_description@, e2.timestap);
        let t2 = transacao_le(e2.value, e2.transacao_description@, e2.timestap);
        lemma_concat_injective(seq![bool_byte(e2.isvalid)], t2, seq![bool_byte(e.isvalid)], t);
        assert(seq![bool_byte(e2.isvalid)][0] == bool_byte(e.isvalid));
        assert(e2.transacao_description =~= e.transacao_description);
    }
}

pub proof fn lemma_transacao(t: Transacao)
    ensures
        transacao_bytes(t).len() == 56,
        transacao_ok(transacao_bytes(t), 0),
        forall|t2: Transacao| #[trigger] transacao_bytes(t2) == transacao_bytes(t) ==> t2 == t,
{
    broadcast use vstd::array::group_array_axioms;
    lemma_transacao_le(t.value, t.transacao_description@, t.timestap);
    assert forall|t2: Transacao| #[trigger] transacao_bytes(t2) == transacao_bytes(t) implies t2 == t by {
        lemma_transacao_le(t2.value, t2.transacao_description@, t2.timestap);
        assert(t2.transacao_description =~= t.transacao_description);
    }
}

pub proof fn lemma_entries(s: Seq<TransacaoExtrato>)
    ensures
        entries_bytes(s).len() == 57 * s.len(),
        forall|k: int| 0 <= k < s.len() ==> #[trigger] entry_ok(entries_bytes(s), 57 * k),
        forall|s2: Seq<TransacaoExtrato>|
            s2.len() == s.len() && #[trigger] entries_bytes(s2) == entries_bytes(s) ==> s2 == s,
    decreases s.len(),
{
    if s.len() > 0 {
        let p = s.drop_last();
        let b = entries_bytes(s);
        lemma_entries(p);
        lemma_entry(s.last());
        assert forall|k: int| 0 <= k < s.len() implies #[trigger] entry_ok(b, 57 * k) by {
            if k < p.len() {
                let pb = entries_bytes(p);
                assert(entry_ok(pb, 57 * k));
                assert(b.subrange(57 * k + 9, 57 * k + 49) =~= pb.subrange(57 * k + 9, 57 * k + 49));
                assert forall|j: int| 0 <= j < 10 implies #[trigger] is_scalar(u32_at(b, 57 * k + 1 + 8 + 4 * j)) by {
                    assert(b.subrange(57 * k + 9 + 4 * j, 57 * k + 9 + 4 * j + 4) =~= pb.subrange(57 * k + 9 + 4 * j, 57 * k + 9 + 4 * j + 4));
                    assert(is_scalar(u32_at(pb, 57 * k + 1 + 8 + 4 * j)));
                }
            } else {
                let eb = entry_bytes(s.last());
                assert(entry_ok(eb, 0));
                assert forall|j: int| 0 <= j < 10 implies #[trigger] is_scalar(u32_at(b, 57 * k + 1 + 8 + 4 * j)) by {
                    assert(b.subrange(57 * k + 9 + 4 * j, 57 * k + 9 + 4 * j + 4) =~= eb.subrange(9 + 4 * j, 9 + 4 * j + 4));
                    assert(is_scalar(u32_at(eb, 0 + 1 + 8 + 4 * j)));
                }
            }
        }
        assert forall|s2: Seq<TransacaoExtrato>|
            s2.len() == s.len() && #[trigger] entries_bytes(s2) == entries_bytes(s) implies s2 == s by {
            let init2 = s2.drop_last();
            lemma_entries(init2);
            lemma_concat_injective(entries_bytes(init2), entry_bytes(s2.last()), entries_bytes(p), entry_bytes(s.last()));
            assert(init2 == p);
            assert(s2.last() == s.last());
            assert(s2 =~= init2.push(s2.last()));
            assert(s =~= p.push(s.last()));
        }
    } else {
        assert forall|s2: Seq<TransacaoExtrato>|
            s2.len() == s.len() && #[trigger] entries_bytes(s2) == entries_bytes(s) implies s2 == s by {
            assert(s2 =~= s);
        }
    }
}

pub proof fn lemma_history(s: Seq<Transacao>)
    ensures
        history_bytes(s).len() == 56 * s.len(),
        forall|k: int| 0 <= k < s.len() ==> #[trigger] transacao_ok(history_bytes(s), 56 * k),
        forall|s2: Seq<Transacao>|
            s2.len() == s.len() && #[trigger] history_bytes(s2) == history_bytes(s) ==> s2 == s,
    decreases s.len(),
{
    if s.len() > 0 {
        let p = s.drop_last();
        let b = history_bytes(s);
        lemma_history(p);
        lemma_transacao(s.last());
        assert forall|k: int| 0 <= k < s.len() implies #[trigger] transacao_ok(b, 56 * k) by {
            if k < p.len() {
                let pb = history_bytes(p);
                assert(transacao_ok(pb, 56 * k));
                assert forall|j: int| 0 <= j < 10 implies #[trigger] is_scalar(u32_at(b, 56 * k + 8 + 4 * j)) by {
                    assert(b.subrange(56 * k + 8 + 4 * j, 56 * k + 8 + 4 * j + 4) =~= pb.subrange(56 * k + 8 + 4 * j, 56 * k + 8 + 4 * j + 4));
                    assert(is_scalar(u32_at(pb, 56 * k + 8 + 4 * j)));
                }
            } else {
                let tb = transacao_bytes(s.last());
                assert(transacao_ok(tb, 0));
                assert forall|j: int| 0 <= j < 10 implies #[trigger] is_scalar(u32_at(b, 56 * k + 8 + 4 * j)) by {
                    assert(b.subrange(56 * k + 8 + 4 * j, 56 * k + 8 + 4 * j + 4) =~= tb.subrange(8 + 4 * j, 8 + 4 * j + 4));
                    assert(is_scalar(u32_at(tb, 0 + 8 + 4 * j)));
                }
            }
        }
        assert forall|s2: Seq<Transacao>|
            s2.len() == s.len() && #[trigger] history_bytes(s2) == history_bytes(s) implies s2 == s by {
            let init2 = s2.drop_last();
            lemma_history(init2);
            lemma_transacao(s2.last());
            lemma_concat_injective(history_bytes(init2), transacao_bytes(s2.last()), history_bytes(p), transacao_bytes(s.last()));
            assert(init2 == p);
            assert(s2.last() == s.last());
            assert(s2 =~= init2.push(s2.last()));
            assert(s =~= p.push(s.last()));
        }
    } else {
        assert forall|s2: Seq<Transacao>|
            s2.len() == s.len() && #[trigger] history_bytes(s2) == history_bytes(s) implies s2 == s by {
            assert(s2 =~= s);
        }
    }
}

// ---------------------------------------------------------------- exec helpers

pub(crate) fn push_bytes(out: &mut Vec<u8>, b: &[u8])
    ensures
        final(out)@ == old(out)@ + b@,
{
    let mut i: usize = 0;
    while i < b.len()
        invariant
            i <= b@.len(),
            out@ == old(out)@ + b@.subrange(0, i as int),
        decreases b@.len() - i,
    {
        out.push(b[i]);
        i = i + 1;
        assert(b@.subrange(0, i as int) =~= b@.subrange(0, i - 1) .push(b@[i - 1]));
    }
    assert(b@.subrange(0, b@.len() as int) =~= b@);
}

fn push_u64(out: &mut Vec<u8>, x: u64)
    ensures
        final(out)@ == old(out)@ + u64_le(x),
{
    let b = u64_to_le_bytes(x);
    push_bytes(out, b.as_slice());
}

fn push_i64(out: &mut Vec<u8>, x: i64)
    ensures
        final(out)@ == old(out)@ + i64_le(x),
{
    push_u64(out, x as u64);
}

fn push_description(out: &mut Vec<u8>, d: &[char; 10])
    ensures
        final(out)@ == old(out)@ + description_le(d@),
{
    let mut i: usize = 0;
    while i < 10
        invariant
            i <= 10,
            d@.len() == 10,
            out@ == old(out)@ + description_le(d@.take(i as int)),
        decreases 10 - i,
    {
        let c = d[i];
        let b = u32_to_le_bytes(c as u32);
        push_bytes(out, b.as_slice());
        proof {
            let t = d@.take(i + 1);
            assert(t.drop_last() =~= d@.take(i as int));
        }
        i = i + 1;
    }
    assert(d@.take(10) =~= d@);
}

fn read_u64(b: &[u8], off: usize) -> (x: u64)
    requires
        off + 8 <= b@.len(),
    ensures
        u64_le(x) == b@.subrange(off as int, off + 8),
{
    proof { lemma_le_bytes(); }
    let _n = b.len();
    let s = slice_subrange(b, off, off + 8);
    u64_from_le_bytes(s)
}

fn read_i64(b: &[u8], off: usize) -> (x: i64)
    requires
        off + 8 <= b@.len(),
    ensures
        i64_le(x) == b@.subrange(off as int, off + 8),
{
    let u = read_u64(b, off);
    assert((u as i64) as u64 == u) by (bit_vector);
    u as i64
}

/// Relies on `char::from_u32`: `Some` exactly for a Unicode scalar value,
/// holding the character with that code point.
#[verifier::external_body]
fn char_from_u32(v: u32) -> (r: Option<char>)
    ensures
        r == (if is_scalar(v) { Some(v as char) } else { None::<char> }),
{
    char::from_u32(v)
}

fn read_char(b: &[u8], off: usize) -> (r: Option<char>)
    requires
        off + 4 <= b@.len(),
    ensures
        r.is_some() <==> is_scalar(u32_at(b@, off as int)),
        r matches Some(c) ==> char_le(c) == b@.subrange(off as int, off + 4),
{
    proof { lemma_le_bytes(); }
    let _n = b.len();
    let s = slice_subrange(b, off, off + 4);
    let v = u32_from_le_bytes(s);
    char_from_u32(v)
}

fn read_description(b: &[u8], off: usize) -> (r: Option<[char; 10]>)
    requires
        off + 40 <= b@.len(),
    ensures
        r.is_some() <==> slots_ok(b@, off as int, 10),
        r matches Some(d) ==> description_le(d@) == b@.subrange(off as int, off + 40),
{
    let _n = b.len();
    let mut d: [char; 10] = ['\0'; 10];
    let mut i: usize = 0;
    while i < 10
        invariant
            i <= 10,
            off + 40 <= b@.len(),
            b@.len() <= usize::MAX,
            d@.len() == 10,
            slots_ok(b@, off as int, i as int),
            description_le(d@.take(i as int)) == b@.subrange(off as int, off + 4 * i),
        decreases 10 - i,
    {
        let at = off + 4 * i;
        match read_char(b, at) {
            None => {
                assert(!is_scalar(u32_at(b@, off + 4 * (i as int))));
                return None;
            },
            Some(c) => {
                let ghost before = d@;
                d[i] = c;
                proof {
                    assert(d@.take(i as int) =~= before.take(i as int));
                    assert(d@.take(i + 1).drop_last() =~= d@.take(i as int));
                    assert(b@.subrange(off as int, off + 4 * (i + 1)) =~= b@.subrange(off as int, off + 4 * i)
                        + b@.subrange(at as int, at + 4));
                    assert forall|k: int| 0 <= k < i + 1 implies #[trigger] is_scalar(u32_at(b@, off + 4 * k)) by {
                        if k == i as int {
                        } else {
                            assert(0 <= k < i);
                        }
                    }
                }
                i = i + 1;
            },
        }
    }
    assert(d@.take(10) =~= d@);
    Some(d)
}


fn push_transacao(out: &mut Vec<u8>, value: i64, d: &[char; 10], ts: u64)
    ensures
        final(out)@ == old(out)@ + transacao_le(value, d@, ts),
{
    push_i64(out, value);
    push_description(out, d);
    push_u64(out, ts);
    assert(final(out)@ =~= old(out)@ + transacao_le(value, d@, ts));
}

fn read_transacao(b: &[u8], off: usize) -> (r: Option<Transacao>)
    requires
        off + 56 <= b@.len(),
    ensures
        r.is_some() <==> transacao_ok(b@, off as int),
        r matches Some(t) ==> transacao_bytes(t) == b@.subrange(off as int, off + 56),
{
    let _n = b.len();
    let value = read_i64(b, off);
    match read_description(b, off + 8) {
        None => None,
        Some(d) => {
            let ts = read_u64(b, off + 48);
            assert(b@.subrange(off as int, off + 56) =~= b@.subrange(off as int, off + 8)
                + b@.subrange(off + 8, off + 48) + b@.subrange(off + 48, off + 56));
            Some(Transacao { value, transacao_description: d, timestap: ts })
        },
    }
}


fn read_entry(b: &[u8], off: usize) -> (r: Option<TransacaoExtrato>)
    requires
        off + 57 <= b@.len(),
    ensures
        r.is_some() <==> entry_ok(b@, off as int),
        r matches Some(e) ==> entry_bytes(e) == b@.subrange(off as int, off + 57),
{
    let _n = b.len();
    let flag = b[off];
    if flag > 1 {
        return None;
    }
    match read_transacao(b, off + 1) {
        None => None,
        Some(t) => {
            let e = TransacaoExtrato {
                isvalid: flag == 1,
                value: t.value,
                transacao_description: t.transacao_description,
                timestap: t.timestap,
            };
            assert(b@.subrange(off as int, off + 57) =~= seq![flag] + b@.subrange(off + 1, off + 57));
            Some(e)
        },
    }
}

// ---------------------------------------------------------------- the records

/// A record with a fixed-size byte encoding.
pub trait Converter: Sized {
    /// The bytes this value encodes to.
    spec fn spec_buffer(&self) -> Seq<u8>;

    /// The byte strings that decode to a value.
    spec fn buffer_ok(b: Seq<u8>) -> bool;

    fn to_buffer(&self) -> (r: Vec<u8>)
        ensures
            r@ == self.spec_buffer(),
    ;

    /// Decodes `b`; succeeds exactly on the byte strings of the right size
    /// and content, and then gives the value that encodes to `b`.
    fn from_buffer(b: &[u8]) -> (r: Result<Self, MalformedRecord>)
        ensures
            r.is_ok() <==> Self::buffer_ok(b@),
            r matches Ok(v) ==> v.spec_buffer() == b@,
    ;
}

impl Converter for Operation {
    open spec fn spec_buffer(&self) -> Seq<u8> {
        seq![kind_byte(self.kind), self.id] + transacao_bytes(self.transacao)
    }

    open spec fn buffer_ok(b: Seq<u8>) -> bool {
        b.len() == 58 && b[0] <= 1 && transacao_ok(b, 2)
    }

    fn to_buffer(&self) -> (r: Vec<u8>) {
        let mut out: Vec<u8> = Vec::new();
        let k: u8 = match self.kind {
            OperationKind::Extrato => 0,
            OperationKind::Transacao => 1,
        };
        out.push(k);
        out.push(self.id);
        let t = &self.transacao;
        push_transacao(&mut out, t.value, &t.transacao_description, t.timestap);
        assert(out@ =~= self.spec_buffer());
        out
    }

    fn from_buffer(b: &[u8]) -> (r: Result<Self, MalformedRecord>) {
        if b.len() != 58 {
            return Err(MalformedRecord);
        }
        let kind = if b[0] == 0 {
            OperationKind::Extrato
        } else if b[0] == 1 {
            OperationKind::Transacao
        } else {
            return Err(MalformedRecord);
        };
        match read_transacao(b, 2) {
            None => Err(MalformedRecord),
            Some(t) => {
                let op = Operation { kind, id: b[1], transacao: t };
                assert(b@ =~= seq![b@[0], b@[1]] + b@.subrange(2, 58));
                Ok(op)
            },
        }
    }
}

impl Converter for TransacaoReturn {
    open spec fn spec_buffer(&self) -> Seq<u8> {
        i64_le(self.limite) + i64_le(self.saldo)
    }

    open spec fn buffer_ok(b: Seq<u8>) -> bool {
        b.len() == 16
    }

    fn to_buffer(&self) -> (r: Vec<u8>) {
        let mut out: Vec<u8> = Vec::new();
        push_i64(&mut out, self.limite);
        push_i64(&mut out, self.saldo);
        assert(out@ =~= self.spec_buffer());
        out
    }

    fn from_buffer(b: &[u8]) -> (r: Result<Self, MalformedRecord>) {
        if b.len() != 16 {
            return Err(MalformedRecord);
        }
        let limite = read_i64(b, 0);
        let saldo = read_i64(b, 8);
        assert(b@ =~= b@.subrange(0, 8) + b@.subrange(8, 16));
        Ok(TransacaoReturn { limite, saldo })
    }
}

impl Converter for Extrato {
    open spec fn spec_buffer(&self) -> Seq<u8> {
        i64_le(self.total) + i64_le(self.limite) + entries_bytes(self.transacoes@)
    }

    open spec fn buffer_ok(b: Seq<u8>) -> bool {
        b.len() == 586 && forall|k: int| 0 <= k < 10 ==> #[trigger] entry_ok(b, 16 + 57 * k)
    }

    fn to_buffer(&self) -> (r: Vec<u8>) {
        let mut out: Vec<u8> = Vec::new();
        push_i64(&mut out, self.total);
        push_i64(&mut out, self.limite);
        let ghost head = out@;
        let mut i: usize = 0;
        while i < 10
            invariant
                i <= 10,
                self.transacoes@.len() == 10,
                out@ == head + entries_bytes(self.transacoes@.take(i as int)),
            decreases 10 - i,
        {
            let e = &self.transacoes[i];
            out.push(if e.isvalid { 1u8 } else { 0u8 });
            push_transacao(&mut out, e.value, &e.transacao_description, e.timestap);
            proof {
                assert(self.transacoes@.take(i + 1).drop_last() =~= self.transacoes@.take(i as int));
                assert(out@ =~= head + entries_bytes(self.transacoes@.take(i + 1)));
            }
            i = i + 1;
        }
        assert(self.transacoes@.take(10) =~= self.transacoes@);
        out
    }

    fn from_buffer(b: &[u8]) -> (r: Result<Self, MalformedRecord>) {
        if b.len() != 586 {
            return Err(MalformedRecord);
        }
        let total = read_i64(b, 0);
        let limite = read_i64(b, 8);
        let blank = TransacaoExtrato {
            isvalid: false,
            value: 0,
            transacao_description: ['\0'; 10],
            timestap: 0,
        };
        let mut transacoes: [TransacaoExtrato; 10] = [blank; 10];
        let mut i: usize = 0;
        while i < 10
            invariant
                i <= 10,
                b@.len() == 586,
                transacoes@.len() == 10,
                forall|k: int| 0 <= k < i ==> #[trigger] entry_ok(b@, 16 + 57 * k),
                entries_bytes(transacoes@.take(i as int)) == b@.subrange(16, 16 + 57 * i),
            decreases 10 - i,
        {
            match read_entry(b, 16 + 57 * i) {
                None => {
                    return Err(MalformedRecord);
                },
                Some(e) => {
                    let ghost before = transacoes@;
                    transacoes[i] = e;
                    proof {
                        assert(transacoes@.take(i as int) =~= before.take(i as int));
                        assert(transacoes@.take(i + 1).drop_last() =~= transacoes@.take(i as int));
                        assert(b@.subrange(16, 16 + 57 * (i + 1)) =~= b@.subrange(16, 16 + 57 * i)
                            + b@.subrange(16 + 57 * i, 16 + 57 * i + 57));
                    }
                    i = i + 1;
                },
            }
        }
        assert(transacoes@.take(10) =~= transacoes@);
        assert(b@ =~= b@.subrange(0, 8) + b@.subrange(8, 16) + b@.subrange(16, 586));
        Ok(Extrato { total, limite, transacoes })
    }
}

impl Converter for ClientRaw {
    open spec fn spec_buffer(&self) -> Seq<u8> {
        seq![self.id] + i64_le(self.limite) + i64_le(self.saldo) + u64_le(self.ntransacoes)
            + history_bytes(self.transacoes@)
    }

    open spec fn buffer_ok(b: Seq<u8>) -> bool {
        b.len() == 361 && forall|k: int| 0 <= k < 6 ==> #[trigger] transacao_ok(b, 25 + 56 * k)
    }

    fn to_buffer(&self) -> (r: Vec<u8>) {
        let mut out: Vec<u8> = Vec::new();
        out.push(self.id);
        push_i64(&mut out, self.limite);
        push_i64(&mut out, self.saldo);
        push_u64(&mut out, self.ntransacoes);
        let ghost head = out@;
        let mut i: usize = 0;
        while i < 6
            invariant
                i <= 6,
                self.transacoes@.len() == 6,
                out@ == head + history_bytes(self.transacoes@.take(i as int)),
            decreases 6 - i,
        {
            let t = &self.transacoes[i];
            push_transacao(&mut out, t.value, &t.transacao_description, t.timestap);
            proof {
                assert(self.transacoes@.take(i + 1).drop_last() =~= self.transacoes@.take(i as int));
                assert(out@ =~= head + history_bytes(self.transacoes@.take(i + 1)));
            }
            i = i + 1;
        }
        assert(self.transacoes@.take(6) =~= self.transacoes@);
        out
    }

    fn from_buffer(b: &[u8]) -> (r: Result<Self, MalformedRecord>) {
        if b.len() != 361 {
            return Err(MalformedRecord);
        }
        let id = b[0];
        let limite = read_i64(b, 1);
        let saldo = read_i64(b, 9);
        let ntransacoes = read_u64(b, 17);
        let blank = Transacao { value: 0, transacao_description: ['\0'; 10], timestap: 0 };
        let mut transacoes: [Transacao; 6] = [blank; 6];
        let mut i: usize = 0;
        while i < 6
            invariant
                i <= 6,
                b@.len() == 361,
                transacoes@.len() == 6,
                forall|k: int| 0 <= k < i ==> #[trigger] transacao_ok(b@, 25 + 56 * k),
                history_bytes(transacoes@.take(i as int)) == b@.subrange(25, 25 + 56 * i),
            decreases 6 - i,
        {
            match read_transacao(b, 25 + 56 * i) {
                None => {
                    return Err(MalformedRecord);
                },
                Some(t) => {
                    let ghost before = transacoes@;
                    transacoes[i] = t;
                    proof {
                        assert(transacoes@.take(i as int) =~= before.take(i as int));
                        assert(transacoes@.take(i + 1).drop_last() =~= transacoes@.take(i as int));
                        assert(b@.subrange(25, 25 + 56 * (i + 1)) =~= b@.subrange(25, 25 + 56 * i)
                            + b@.subrange(25 + 56 * i, 25 + 56 * i + 56));
                    }
                    i = i + 1;
                },
            }
        }
        assert(transacoes@.take(6) =~= transacoes@);
        assert(b@ =~= seq![b@[0]] + b@.subrange(1, 9) + b@.subrange(9, 17) + b@.subrange(17, 25)
            + b@.subrange(25, 361));
        Ok(ClientRaw { id, limite, saldo, ntransacoes, transacoes })
    }
}


// ---------------------------------------------------------------- round trips

/// `history_bytes` of a concatenation is the concatenation of the parts.
pub proof fn lemma_history_append(a: Seq<Transacao>, b: Seq<Transacao>)
    ensures
        history_bytes(a + b) == history_bytes(a) + history_bytes(b),
    decreases b.len(),
{
    if b.len() == 0 {
        assert(a + b =~= a);
        assert(history_bytes(a) + history_bytes(b) =~= history_bytes(a));
    } else {
        lemma_history_append(a, b.drop_last());
        assert((a + b).drop_last() =~= a + b.drop_last());
        assert((a + b).last() == b.last());
        assert(history_bytes(a + b) =~= history_bytes(a) + history_bytes(b));
    }
}

/// Any header followed by six transactions is a snapshot that decodes.
pub proof fn lemma_snapshot_layout(id: u8, limite: i64, saldo: i64, n: u64, hist: Seq<Transacao>)
    requires
        hist.len() == 6,
    ensures
        ClientRaw::buffer_ok(seq![id] + i64_le(limite) + i64_le(saldo) + u64_le(n) + history_bytes(hist)),
{
    lemma_le_bytes();
    lemma_history(hist);
    let e = seq![id] + i64_le(limite) + i64_le(saldo) + u64_le(n) + history_bytes(hist);
    let hs = history_bytes(hist);
    assert forall|k: int| 0 <= k < 6 implies #[trigger] transacao_ok(e, 25 + 56 * k) by {
        assert(transacao_ok(hs, 56 * k));
        assert forall|j: int| 0 <= j < 10 implies #[trigger] is_scalar(u32_at(e, 25 + 56 * k + 8 + 4 * j)) by {
            assert(e.subrange(25 + 56 * k + 8 + 4 * j, 25 + 56 * k + 8 + 4 * j + 4)
                =~= hs.subrange(56 * k + 8 + 4 * j, 56 * k + 8 + 4 * j + 4));
            assert(is_scalar(u32_at(hs, 56 * k + 8 + 4 * j)));
        }
    }
}


/// An operation's encoding decodes, and no other operation encodes to it:
/// decoding what `to_buffer` wrote gives the same operation back.
pub proof fn lemma_operation_round_trip(a: Operation, b: Operation)
    ensures
        Operation::buffer_ok(a.spec_buffer()),
        b.spec_buffer() == a.spec_buffer() ==> b == a,
{
    lemma_transacao(a.transacao);
    lemma_transacao(b.transacao);
    let e = a.spec_buffer();
    let t = transacao_bytes(a.transacao);
    assert forall|k: int| 0 <= k < 10 implies #[trigger] is_scalar(u32_at(e, 10 + 4 * k)) by {
        assert(e.subrange(10 + 4 * k, 10 + 4 * k + 4) =~= t.subrange(8 + 4 * k, 8 + 4 * k + 4));
        assert(is_scalar(u32_at(t, 0 + 8 + 4 * k)));
    }
    assert(slots_ok(e, 10, 10));
    assert(e[0] == kind_byte(a.kind));
    if b.spec_buffer() == e {
        lemma_concat_injective(seq![kind_byte(b.kind), b.id], transacao_bytes(b.transacao),
            seq![kind_byte(a.kind), a.id], t);
        assert(seq![kind_byte(b.kind), b.id][0] == kind_byte(a.kind));
        assert(seq![kind_byte(b.kind), b.id][1] == a.id);
    }
}

/// A transaction result's encoding decodes, and no other result encodes to it.
pub proof fn lemma_transacao_return_round_trip(a: TransacaoReturn, b: TransacaoReturn)
    ensures
        TransacaoReturn::buffer_ok(a.spec_buffer()),
        b.spec_buffer() == a.spec_buffer() ==> b == a,
{
    lemma_le_bytes();
    if b.spec_buffer() == a.spec_buffer() {
        lemma_concat_injective(i64_le(b.limite), i64_le(b.saldo), i64_le(a.limite), i64_le(a.saldo));
        assert(spec_u64_from_le_bytes(i64_le(b.limite)) == spec_u64_from_le_bytes(i64_le(a.limite)));
        assert(spec_u64_from_le_bytes(i64_le(b.saldo)) == spec_u64_from_le_bytes(i64_le(a.saldo)));
        let (x1, y1, x2, y2) = (a.limite, b.limite, a.saldo, b.saldo);
        assert(x1 as u64 == y1 as u64 ==> x1 == y1) by (bit_vector);
        assert(x2 as u64 == y2 as u64 ==> x2 == y2) by (bit_vector);
    }
}

/// A statement's encoding decodes, and no other statement encodes to it.
pub proof fn lemma_extrato_round_trip(a: Extrato, b: Extrato)
    ensures
        Extrato::buffer_ok(a.spec_buffer()),
        b.spec_buffer() == a.spec_buffer() ==> b == a,
{
    broadcast use vstd::array::group_array_axioms;
    lemma_le_bytes();
    lemma_entries(a.transacoes@);
    lemma_entries(b.transacoes@);
    let e = a.spec_buffer();
    let es = entries_bytes(a.transacoes@);
    assert forall|k: int| 0 <= k < 10 implies #[trigger] entry_ok(e, 16 + 57 * k) by {
        assert(entry_ok(es, 57 * k));
        assert(e[16 + 57 * k] == es[57 * k]);
        assert forall|j: int| 0 <= j < 10 implies #[trigger] is_scalar(u32_at(e, 16 + 57 * k + 1 + 8 + 4 * j)) by {
            assert(e.subrange(16 + 57 * k + 9 + 4 * j, 16 + 57 * k + 9 + 4 * j + 4)
                =~= es.subrange(57 * k + 9 + 4 * j, 57 * k + 9 + 4 * j + 4));
            assert(is_scalar(u32_at(es, 57 * k + 1 + 8 + 4 * j)));
        }
    }
    if b.spec_buffer() == e {
        lemma_concat_injective(i64_le(b.total) + i64_le(b.limite), entries_bytes(b.transacoes@),
            i64_le(a.total) + i64_le(a.limite), es);
        lemma_concat_injective(i64_le(b.total), i64_le(b.limite), i64_le(a.total), i64_le(a.limite));
        assert(spec_u64_from_le_bytes(i64_le(b.total)) == spec_u64_from_le_bytes(i64_le(a.total)));
        assert(spec_u64_from_le_bytes(i64_le(b.limite)) == spec_u64_from_le_bytes(i64_le(a.limite)));
        let (x1, y1, x2, y2) = (a.total, b.total, a.limite, b.limite);
        assert(x1 as u64 == y1 as u64 ==> x1 == y1) by (bit_vector);
        assert(x2 as u64 == y2 as u64 ==> x2 == y2) by (bit_vector);
        assert(b.transacoes@ == a.transacoes@);
        assert(b.transacoes =~= a.transacoes);
    }
}

/// A snapshot's encoding decodes, and no other snapshot encodes to it.
pub proof fn lemma_client_raw_round_trip(a: ClientRaw, b: ClientRaw)
    ensures
        ClientRaw::buffer_ok(a.spec_buffer()),
        b.spec_buffer() == a.spec_buffer() ==> b == a,
{
    broadcast use vstd::array::group_array_axioms;
    lemma_le_bytes();
    lemma_history(a.transacoes@);
    lemma_history(b.transacoes@);
    let e = a.spec_buffer();
    let hs = history_bytes(a.transacoes@);
    lemma_snapshot_layout(a.id, a.limite, a.saldo, a.ntransacoes, a.transacoes@);
    if b.spec_buffer() == e {
        let hb = seq![b.id] + i64_le(b.limite) + i64_le(b.saldo) + u64_le(b.ntransacoes);
        let ha = seq![a.id] + i64_le(a.limite) + i64_le(a.saldo) + u64_le(a.ntransacoes);
        lemma_concat_injective(hb, history_bytes(b.transacoes@), ha, hs);
        lemma_concat_injective(seq![b.id] + i64_le(b.limite) + i64_le(b.saldo), u64_le(b.ntransacoes),
            seq![a.id] + i64_le(a.limite) + i64_le(a.saldo), u64_le(a.ntransacoes));
        lemma_concat_injective(seq![b.id] + i64_le(b.limite), i64_le(b.saldo),
            seq![a.id] + i64_le(a.limite), i64_le(a.saldo));
        lemma_concat_injective(seq![b.id], i64_le(b.limite), seq![a.id], i64_le(a.limite));
        assert(seq![b.id][0] == a.id);
        assert(spec_u64_from_le_bytes(u64_le(b.ntransacoes)) == spec_u64_from_le_bytes(u64_le(a.ntransacoes)));
        assert(spec_u64_from_le_bytes(i64_le(b.saldo)) == spec_u64_from_le_bytes(i64_le(a.saldo)));
        assert(spec_u64_from_le_bytes(i64_le(b.limite)) == spec_u64_from_le_bytes(i64_le(a.limite)));
        let (x1, y1, x2, y2) = (a.saldo, b.saldo, a.limite, b.limite);
        assert(x1 as u64 == y1 as u64 ==> x1 == y1) by (bit_vector);
        assert(x2 as u64 == y2 as u64 ==> x2 == y2) by (bit_vector);
        assert(b.transacoes@ == a.transacoes@);
        assert(b.transacoes =~= a.transacoes);
    }
}


/// A byte string one byte short or long of a record's size decodes to no
/// record of any kind.
pub proof fn lemma_wrong_size_rejected(b: Seq<u8>)
    ensures
        b.len() != 58 ==> !Operation::buffer_ok(b),
        b.len() != 16 ==> !TransacaoReturn::buffer_ok(b),
        b.len() != 586 ==> !Extrato::buffer_ok(b),
        b.len() != 361 ==> !ClientRaw::buffer_ok(b),
{
}

/// Bytes that differ from the encoding of `v` never decode to `v`: what
/// `from_buffer` returns always encodes back to the bytes it was given.
pub proof fn lemma_corruption_detected<T: Converter>(v: T, w: T, b: Seq<u8>)
    requires
        b != v.spec_buffer(),
        w.spec_buffer() == b,
    ensures
        w != v,
{
}

} // verus!
