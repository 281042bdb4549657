//! The self-describing binary wire form of values.
//!
//! Every value is encoded as a one-byte tag followed by its payload:
//! null and booleans directly, integers and doubles as eight
//! little-endian bytes, strings as a little-endian 64-bit length prefix
//! over their UTF-8 bytes, blobs likewise over their raw bytes, and
//! lists and objects as an element count followed by the encoded
//! elements in order.  Decoding inverts encoding exactly: the round
//! trip is proved below.

use vstd::prelude::*;
use vstd::bytes::{spec_u64_to_le_bytes, spec_u64_from_le_bytes, lemma_auto_spec_u64_to_from_le_bytes, u64_to_le_bytes, u64_from_le_bytes};
use vstd::utf8::{encode_utf8, decode_utf8, valid_utf8, encode_utf8_valid_utf8, encode_utf8_decode_utf8};
use vstd::slice::slice_subrange;
use vstd::string::StrSliceExecFns;
use crate::value::{StructuredValue, SpecValue, values_view, entries_view};
use crate::shims::bytes_to_string;

verus! {

broadcast use vstd::std_specs::vec::group_vec_axioms, vstd::seq::group_seq_axioms;

pub const TAG_NULL: u8 = 0;

pub const TAG_BOOL: u8 = 1;

pub const TAG_INT: u8 = 2;

pub const TAG_DOUBLE: u8 = 3;

pub const TAG_STR: u8 = 4;

pub const TAG_BLOB: u8 = 5;

pub const TAG_LIST: u8 = 6;

pub const TAG_OBJECT: u8 = 7;

/// A length-prefixed UTF-8 string payload.
pub open spec fn enc_str(s: Seq<char>) -> Seq<u8> {
    spec_u64_to_le_bytes(encode_utf8(s).len() as u64) + encode_utf8(s)
}

/// The wire bytes of a value.
pub open spec fn enc_value(v: SpecValue) -> Seq<u8>
    decreases v, 0int,
{
    match v {
        SpecValue::Null => seq![TAG_NULL],
        SpecValue::Bool(b) => seq![
            TAG_BOOL,
            if b {
                1u8
            } else {
                0u8
            },
        ],
        SpecValue::Int(i) => seq![TAG_INT] + spec_u64_to_le_bytes(i as u64),
        SpecValue::Double(bits) => seq![TAG_DOUBLE] + spec_u64_to_le_bytes(bits),
        SpecValue::Str(s) => seq![TAG_STR] + enc_str(s),
        SpecValue::Blob(b) => seq![TAG_BLOB] + spec_u64_to_le_bytes(b.len() as u64) + b,
        SpecValue::List(items) => seq![TAG_LIST] + spec_u64_to_le_bytes(items.len() as u64)
            + enc_values(items),
        SpecValue::Object(entries) => seq![TAG_OBJECT] + spec_u64_to_le_bytes(
            entries.len() as u64,
        ) + enc_entries(entries),
    }
}

pub open spec fn enc_values(items: Seq<SpecValue>) -> Seq<u8>
    decreases items, 1int,
{
    if items.len() == 0 {
        Seq::empty()
    } else {
        enc_value(items[0]) + enc_values(items.drop_first())
    }
}

pub open spec fn enc_entries(entries: Seq<(Seq<char>, SpecValue)>) -> Seq<u8>
    decreases entries, 1int,
{
    if entries.len() == 0 {
        Seq::empty()
    } else {
        enc_str(entries[0].0) + enc_value(entries[0].1) + enc_entries(entries.drop_first())
    }
}

/// A value whose components all fit the wire form's fixed-width length
/// fields: every count and byte length fits in 64 bits and every
/// integer in a signed 64-bit word.  Every value built at run time
/// satisfies this; it matters only for the specification-level laws.
pub open spec fn wf_value(v: SpecValue) -> bool
    decreases v, 0int,
{
    match v {
        SpecValue::Int(i) => i64::MIN <= i <= i64::MAX,
        SpecValue::Str(s) => encode_utf8(s).len() <= u64::MAX,
        SpecValue::Blob(b) => b.len() <= u64::MAX,
        SpecValue::List(items) => items.len() <= u64::MAX && forall|i: int|
            0 <= i < items.len() ==> wf_value(#[trigger] items[i]),
        SpecValue::Object(entries) => entries.len() <= u64::MAX && forall|i: int|
            0 <= i < entries.len() ==> encode_utf8((#[trigger] entries[i]).0).len() <= u64::MAX
                && wf_value(entries[i].1),
        _ => true,
    }
}

/// Decodes a 64-bit little-endian length from the front.
pub open spec fn dec_u64(b: Seq<u8>) -> Option<u64> {
    if b.len() >= 8 {
        Some(spec_u64_from_le_bytes(b.take(8)))
    } else {
        None
    }
}

/// Decodes a length-prefixed UTF-8 string from the front, returning it
/// with the number of bytes consumed.
pub open spec fn dec_str(b: Seq<u8>) -> Option<(Seq<char>, int)> {
    match dec_u64(b) {
        Some(n) => if n <= b.len() - 8 && valid_utf8(b.subrange(8, 8 + n)) {
            Some((decode_utf8(b.subrange(8, 8 + n)), 8 + n))
        } else {
            None
        },
        None => None,
    }
}

/// Decodes one value from the front of `b`, returning it with the
/// number of bytes consumed.
pub open spec fn dec_value(b: Seq<u8>) -> Option<(SpecValue, int)>
    decreases b.len(), 0int, 0int,
{
    if b.len() < 1 {
        None
    } else {
        let tag = b[0];
        let r = b.skip(1);
        if tag == TAG_NULL {
            Some((SpecValue::Null, 1))
        } else if tag == TAG_BOOL {
            if r.len() >= 1 && (r[0] == 0 || r[0] == 1) {
                Some((SpecValue::Bool(r[0] == 1), 2))
            } else {
                None
            }
        } else if tag == TAG_INT {
            match dec_u64(r) {
                Some(n) => Some((SpecValue::Int(n as i64 as int), 9)),
                None => None,
            }
        } else if tag == TAG_DOUBLE {
            match dec_u64(r) {
                Some(n) => Some((SpecValue::Double(n), 9)),
                None => None,
            }
        } else if tag == TAG_STR {
            match dec_str(r) {
                Some((s, used)) => Some((SpecValue::Str(s), 1 + used)),
                None => None,
            }
        } else if tag == TAG_BLOB {
            match dec_u64(r) {
                Some(n) => if n <= r.len() - 8 {
                    Some((SpecValue::Blob(r.subrange(8, 8 + n)), 9 + n))
                } else {
                    None
                },
                None => None,
            }
        } else if tag == TAG_LIST {
            match dec_u64(r) {
                Some(n) => match dec_values(r.skip(8), n) {
                    Some((vs, used)) => Some((SpecValue::List(vs), 9 + used)),
                    None => None,
                },
                None => None,
            }
        } else if tag == TAG_OBJECT {
            match dec_u64(r) {
                Some(n) => match dec_entries(r.skip(8), n) {
                    Some((es, used)) => Some((SpecValue::Object(es), 9 + used)),
                    None => None,
                },
                None => None,
            }
        } else {
            None
        }
    }
}

/// Decodes `n` consecutive values.
pub open spec fn dec_values(b: Seq<u8>, n: u64) -> Option<(Seq<SpecValue>, int)>
    decreases b.len(), n as int + 1, 0int,
{
    if n == 0 {
        Some((Seq::empty(), 0))
    } else {
        match dec_value(b) {
            Some((v, u)) => if 1 <= u <= b.len() {
                match dec_values(b.skip(u), (n - 1) as u64) {
                    Some((vs, u2)) => Some((seq![v] + vs, u + u2)),
                    None => None,
                }
            } else {
                None
            },
            None => None,
        }
    }
}

/// Decodes `n` consecutive key/value entries.
pub open spec fn dec_entries(b: Seq<u8>, n: u64) -> Option<(Seq<(Seq<char>, SpecValue)>, int)>
    decreases b.len(), n as int + 1, 0int,
{
    if n == 0 {
        Some((Seq::empty(), 0))
    } else {
        match dec_str(b) {
            Some((k, uk)) => if 8 <= uk <= b.len() {
                match dec_value(b.skip(uk)) {
                    Some((v, uv)) => if 1 <= uv <= b.len() - uk {
                        match dec_entries(b.skip(uk + uv), (n - 1) as u64) {
                            Some((es, u2)) => Some((seq![(k, v)] + es, uk + uv + u2)),
                            None => None,
                        }
                    } else {
                        None
                    },
                    None => None,
                }
            } else {
                None
            },
            None => None,
        }
    }
}

/// Every encoding is at least one byte long.
proof fn lemma_enc_value_len(v: SpecValue)
    ensures
        enc_value(v).len() >= 1,
{
    lemma_auto_spec_u64_to_from_le_bytes();
}

/// Law (round trip, strings): decoding the encoding of a string, with
/// anything after it, returns the string and its encoded length.
proof fn lemma_dec_enc_str(s: Seq<char>, rest: Seq<u8>)
    requires
        encode_utf8(s).len() <= u64::MAX,
    ensures
        enc_str(s).len() >= 8,
        dec_str(enc_str(s) + rest) == Some((s, enc_str(s).len() as int)),
{
    lemma_auto_spec_u64_to_from_le_bytes();
    broadcast use encode_utf8_valid_utf8, encode_utf8_decode_utf8;

    let u = encode_utf8(s);
    let b = enc_str(s) + rest;
    assert(b.take(8) =~= spec_u64_to_le_bytes(u.len() as u64));
    assert(dec_u64(b) == Some(u.len() as u64));
    assert(b.subrange(8, 8 + u.len() as int) =~= u);
}

/// Law (round trip, values): decoding the encoding of a well-formed
/// value, with anything after it, returns the value and its encoded
/// length.
pub proof fn lemma_dec_enc_value(v: SpecValue, rest: Seq<u8>)
    requires
        wf_value(v),
    ensures
        dec_value(enc_value(v) + rest) == Some((v, enc_value(v).len() as int)),
    decreases v, 0int,
{
    lemma_auto_spec_u64_to_from_le_bytes();
    let b = enc_value(v) + rest;
    match v {
        SpecValue::Null => {},
        SpecValue::Bool(x) => {},
        SpecValue::Int(i) => {
            let j = i as i64;
            assert(b.skip(1).take(8) =~= spec_u64_to_le_bytes(j as u64));
            assert((j as u64) as i64 == j) by (bit_vector);
        },
        SpecValue::Double(bits) => {
            assert(b.skip(1).take(8) =~= spec_u64_to_le_bytes(bits));
        },
        SpecValue::Str(s) => {
            lemma_dec_enc_str(s, rest);
            assert(b.skip(1) =~= enc_str(s) + rest);
        },
        SpecValue::Blob(bytes) => {
            let r = b.skip(1);
            assert(r.take(8) =~= spec_u64_to_le_bytes(bytes.len() as u64));
            assert(r.subrange(8, 8 + bytes.len() as int) =~= bytes);
        },
        SpecValue::List(items) => {
            let r = b.skip(1);
            assert(r.take(8) =~= spec_u64_to_le_bytes(items.len() as u64));
            assert(r.skip(8) =~= enc_values(items) + rest);
            lemma_dec_enc_values(items, rest);
        },
        SpecValue::Object(entries) => {
            let r = b.skip(1);
            assert(r.take(8) =~= spec_u64_to_le_bytes(entries.len() as u64));
            assert(r.skip(8) =~= enc_entries(entries) + rest);
            lemma_dec_enc_entries(entries, rest);
        },
    }
}

proof fn lemma_dec_enc_values(items: Seq<SpecValue>, rest: Seq<u8>)
    requires
        items.len() <= u64::MAX,
        forall|i: int| 0 <= i < items.len() ==> wf_value(#[trigger] items[i]),
    ensures
        dec_values(enc_values(items) + rest, items.len() as u64) == Some(
            (items, enc_values(items).len() as int),
        ),
    decreases items, 1int,
{
    if items.len() == 0 {
        assert(enc_values(items) + rest =~= rest);
        assert(items =~= Seq::<SpecValue>::empty());
    } else {
        let b = enc_values(items) + rest;
        let head = enc_value(items[0]);
        let tail = enc_values(items.drop_first());
        assert(b =~= head + (tail + rest));
        lemma_dec_enc_value(items[0], tail + rest);
        lemma_enc_value_len(items[0]);
        assert(b.skip(head.len() as int) =~= tail + rest);
        assert(forall|i: int|
            0 <= i < items.drop_first().len() ==> wf_value(#[trigger] items.drop_first()[i]));
        lemma_dec_enc_values(items.drop_first(), rest);
        assert(seq![items[0]] + items.drop_first() =~= items);
    }
}

proof fn lemma_dec_enc_entries(entries: Seq<(Seq<char>, SpecValue)>, rest: Seq<u8>)
    requires
        entries.len() <= u64::MAX,
        forall|i: int|
            0 <= i < entries.len() ==> encode_utf8((#[trigger] entries[i]).0).len() <= u64::MAX
                && wf_value(entries[i].1),
    ensures
        dec_entries(enc_entries(entries) + rest, entries.len() as u64) == Some(
            (entries, enc_entries(entries).len() as int),
        ),
    decreases entries, 1int,
{
    if entries.len() == 0 {
        assert(enc_entries(entries) + rest =~= rest);
        assert(entries =~= Seq::<(Seq<char>, SpecValue)>::empty());
    } else {
        let b = enc_entries(entries) + rest;
        let khead = enc_str(entries[0].0);
        let vhead = enc_value(entries[0].1);
        let tail = enc_entries(entries.drop_first());
        assert(b =~= khead + (vhead + (tail + rest)));
        lemma_dec_enc_str(entries[0].0, vhead + (tail + rest));
        lemma_enc_value_len(entries[0].1);
        assert(b.skip(khead.len() as int) =~= vhead + (tail + rest));
        lemma_dec_enc_value(entries[0].1, tail + rest);
        assert(b.skip(khead.len() + vhead.len() as int) =~= tail + rest);
        assert(forall|i: int|
            0 <= i < entries.drop_first().len() ==> encode_utf8(
                (#[trigger] entries.drop_first()[i]).0,
            ).len() <= u64::MAX && wf_value(entries.drop_first()[i].1));
        lemma_dec_enc_entries(entries.drop_first(), rest);
        assert(seq![entries[0]] + entries.drop_first() =~= entries);
    }
}

/// Law: for every well-formed value, decoding its encoding returns the
/// value itself, consuming the whole buffer.
pub proof fn lemma_codec_round_trip(v: SpecValue)
    requires
        wf_value(v),
    ensures
        dec_value(enc_value(v)) == Some((v, enc_value(v).len() as int)),
{
    lemma_dec_enc_value(v, Seq::empty());
    assert(enc_value(v) + Seq::<u8>::empty() =~= enc_value(v));
}

/// Appends the wire bytes of `v` to `out`.
pub fn encode_value_into(out: &mut Vec<u8>, v: &StructuredValue)
    ensures
        final(out)@ == old(out)@ + enc_value(v@),
    decreases *v,
{
    proof {
        lemma_auto_spec_u64_to_from_le_bytes();
    }
    match v {
        StructuredValue::Null => {
            out.push(TAG_NULL);
            proof {
                assert(out@ =~= old(out)@ + enc_value(v@));
            }
        },
        StructuredValue::Bool(b) => {
            out.push(TAG_BOOL);
            out.push(if *b { 1u8 } else { 0u8 });
            proof {
                assert(out@ =~= old(out)@ + enc_value(v@));
            }
        },
        StructuredValue::Int(i) => {
            out.push(TAG_INT);
            let mut bytes = u64_to_le_bytes(*i as u64);
            out.append(&mut bytes);
            proof {
                assert(out@ =~= old(out)@ + enc_value(v@));
            }
        },
        StructuredValue::Double(bits) => {
            out.push(TAG_DOUBLE);
            let mut bytes = u64_to_le_bytes(*bits);
            out.append(&mut bytes);
            proof {
                assert(out@ =~= old(out)@ + enc_value(v@));
            }
        },
        StructuredValue::Str(s) => {
            out.push(TAG_STR);
            push_str_bytes(out, s.as_str());
            proof {
                assert(out@ =~= old(out)@ + enc_value(v@));
            }
        },
        StructuredValue::Blob(b) => {
            out.push(TAG_BLOB);
            let mut bytes = u64_to_le_bytes(b.len() as u64);
            out.append(&mut bytes);
            let mut payload = b.clone();
            proof {
                assert(payload@ =~= b@);
            }
            out.append(&mut payload);
            proof {
                assert(out@ =~= old(out)@ + enc_value(v@));
            }
        },
        StructuredValue::List(items) => {
            let ghost lv = v@->List_0;
            out.push(TAG_LIST);
            let mut bytes = u64_to_le_bytes(items.len() as u64);
            out.append(&mut bytes);
            let ghost base = out@;
            let mut k: usize = 0;
            proof {
                assert(lv.skip(0) =~= lv);
                assert(base + enc_values(lv.skip(0)) =~= base + enc_values(lv));
            }
            while k < items.len()
                invariant
                    *v == StructuredValue::List(*items),
                    lv == v@->List_0,
                    k <= items.len(),
                    lv.len() == items@.len(),
                    out@ + enc_values(lv.skip(k as int)) == base + enc_values(lv),
                decreases items.len() - k,
            {
                proof {
                    assert(decreases_to!(*v => v->List_0));
                    assert(v->List_0 == *items);
                    assert(decreases_to!(*items => items[k as int]));
                    assert(decreases_to!(*v => items[k as int]));
                    assert(lv[k as int] == items@[k as int]@);
                }
                let ghost pre = out@;
                encode_value_into(out, &items[k]);
                proof {
                    assert(lv.skip(k as int)[0] == lv[k as int]);
                    assert(lv.skip(k as int).drop_first() =~= lv.skip(k + 1 as int));
                    assert(enc_values(lv.skip(k as int)) == enc_value(lv[k as int]) + enc_values(
                        lv.skip(k + 1 as int),
                    ));
                    assert((pre + enc_value(lv[k as int])) + enc_values(lv.skip(k + 1 as int)) =~=
                    pre + (enc_value(lv[k as int]) + enc_values(lv.skip(k + 1 as int))));
                }
                k = k + 1;
            }
            proof {
                assert(lv.skip(items@.len() as int) =~= Seq::<SpecValue>::empty());
                assert(enc_values(lv.skip(items@.len() as int)) =~= Seq::<u8>::empty());
                assert(out@ + Seq::<u8>::empty() =~= out@);
                assert(out@ =~= old(out)@ + enc_value(v@));
            }
        },
        StructuredValue::Object(entries) => {
            let ghost ev = v@->Object_0;
            out.push(TAG_OBJECT);
            let mut bytes = u64_to_le_bytes(entries.len() as u64);
            out.append(&mut bytes);
            let ghost base = out@;
            let mut k: usize = 0;
            proof {
                assert(ev.skip(0) =~= ev);
                assert(base + enc_entries(ev.skip(0)) =~= base + enc_entries(ev));
            }
            while k < entries.len()
                invariant
                    *v == StructuredValue::Object(*entries),
                    ev == v@->Object_0,
                    k <= entries.len(),
                    ev.len() == entries@.len(),
                    out@ + enc_entries(ev.skip(k as int)) == base + enc_entries(ev),
                decreases entries.len() - k,
            {
                proof {
                    assert(decreases_to!(*v => v->Object_0));
                    assert(v->Object_0 == *entries);
                    assert(decreases_to!(*entries => entries[k as int]));
                    assert(decreases_to!(entries[k as int] => entries[k as int].1));
                    assert(decreases_to!(*v => entries[k as int].1));
                    assert(ev[k as int] == (entries@[k as int].0@, entries@[k as int].1@));
                }
                let ghost pre = out@;
                push_str_bytes(out, entries[k].0.as_str());
                encode_value_into(out, &entries[k].1);
                proof {
                    assert(ev.skip(k as int)[0] == ev[k as int]);
                    assert(ev.skip(k as int).drop_first() =~= ev.skip(k + 1 as int));
                    assert(enc_entries(ev.skip(k as int)) == enc_str(ev[k as int].0) + enc_value(
                        ev[k as int].1,
                    ) + enc_entries(ev.skip(k + 1 as int)));
                    assert(out@ =~= pre + enc_str(ev[k as int].0) + enc_value(ev[k as int].1));
                    assert((pre + enc_str(ev[k as int].0) + enc_value(ev[k as int].1))
                        + enc_entries(ev.skip(k + 1 as int)) =~= pre + (enc_str(ev[k as int].0)
                        + enc_value(ev[k as int].1) + enc_entries(ev.skip(k + 1 as int))));
                }
                k = k + 1;
            }
            proof {
                assert(ev.skip(entries@.len() as int) =~= Seq::<(Seq<char>, SpecValue)>::empty());
                assert(enc_entries(ev.skip(entries@.len() as int)) =~= Seq::<u8>::empty());
                assert(out@ + Seq::<u8>::empty() =~= out@);
                assert(out@ =~= old(out)@ + enc_value(v@));
            }
        },
    }
}

/// Appends a length-prefixed UTF-8 string payload.
fn push_str_bytes(out: &mut Vec<u8>, s: &str)
    ensures
        final(out)@ == old(out)@ + enc_str(s@),
{
    let mut utf8 = s.as_bytes_vec();
    let mut bytes = u64_to_le_bytes(utf8.len() as u64);
    out.append(&mut bytes);
    out.append(&mut utf8);
    proof {
        assert(out@ =~= old(out)@ + enc_str(s@));
    }
}

/// Encodes one value to its wire bytes.
pub fn encode_value(v: &StructuredValue) -> (r: Vec<u8>)
    ensures
        r@ == enc_value(v@),
{
    let mut out: Vec<u8> = Vec::new();
    encode_value_into(&mut out, v);
    proof {
        assert(Seq::<u8>::empty() + enc_value(v@) =~= enc_value(v@));
    }
    out
}

/// Reads the 64-bit little-endian word at `pos`.
fn read_u64(b: &Vec<u8>, pos: usize) -> (r: Option<u64>)
    requires
        pos <= b@.len(),
    ensures
        match r {
            Some(n) => dec_u64(b@.skip(pos as int)) == Some(n) && pos + 8 <= b@.len(),
            None => dec_u64(b@.skip(pos as int)) is None,
        },
{
    if b.len() - pos < 8 {
        return None;
    }
    let word = slice_subrange(b.as_slice(), pos, pos + 8);
    let n = u64_from_le_bytes(word);
    proof {
        assert(b@.skip(pos as int).take(8) =~= b@.subrange(pos as int, pos + 8 as int));
    }
    Some(n)
}

/// Decodes a length-prefixed UTF-8 string at `pos`.
fn read_str(b: &Vec<u8>, pos: usize) -> (r: Option<(String, usize)>)
    requires
        pos <= b@.len(),
    ensures
        match r {
            Some((s, end)) => pos <= end <= b@.len() && dec_str(b@.skip(pos as int)) == Some(
                (s@, end - pos),
            ),
            None => dec_str(b@.skip(pos as int)) is None,
        },
{
    let ghost t = b@.skip(pos as int);
    match read_u64(b, pos) {
        Some(n) => {
            if n > (b.len() - pos - 8) as u64 {
                return None;
            }
            let len = n as usize;
            let payload = slice_subrange(b.as_slice(), pos + 8, pos + 8 + len);
            proof {
                assert(payload@ =~= t.subrange(8, 8 + n as int));
            }
            let payload_vec = vstd::slice::slice_to_vec(payload);
            match bytes_to_string(&payload_vec) {
                Some(s) => {
                    proof {
                        encode_utf8_decode_utf8(s@);
                    }
                    Some((s, pos + 8 + len))
                },
                None => None,
            }
        },
        None => None,
    }
}

/// Decodes the value at `pos`, returning it and the position just past
/// its wire bytes.
pub fn decode_value_at(b: &Vec<u8>, pos: usize) -> (r: Option<(StructuredValue, usize)>)
    requires
        pos <= b@.len(),
    ensures
        match r {
            Some((v, end)) => pos < end <= b@.len() && dec_value(b@.skip(pos as int)) == Some(
                (v@, end - pos),
            ),
            None => dec_value(b@.skip(pos as int)) is None,
        },
    decreases b@.len() - pos, 0int,
{
    let ghost t = b@.skip(pos as int);
    if pos == b.len() {
        return None;
    }
    let tag = b[pos];
    proof {
        assert(t[0] == tag);
        assert(t.skip(1) =~= b@.skip(pos + 1 as int));
    }
    if tag == TAG_NULL {
        Some((StructuredValue::Null, pos + 1))
    } else if tag == TAG_BOOL {
        if pos + 1 == b.len() {
            return None;
        }
        let x = b[pos + 1];
        proof {
            assert(b@.skip(pos + 1 as int)[0] == x);
        }
        if x == 0 || x == 1 {
            Some((StructuredValue::Bool(x == 1), pos + 2))
        } else {
            None
        }
    } else if tag == TAG_INT {
        match read_u64(b, pos + 1) {
            Some(n) => Some((StructuredValue::Int(n as i64), pos + 9)),
            None => None,
        }
    } else if tag == TAG_DOUBLE {
        match read_u64(b, pos + 1) {
            Some(n) => Some((StructuredValue::Double(n), pos + 9)),
            None => None,
        }
    } else if tag == TAG_STR {
        match read_str(b, pos + 1) {
            Some((s, end)) => Some((StructuredValue::Str(s), end)),
            None => None,
        }
    } else if tag == TAG_BLOB {
        match read_u64(b, pos + 1) {
            Some(n) => {
                if n > (b.len() - pos - 9) as u64 {
                    return None;
                }
                let len = n as usize;
                let payload = slice_subrange(b.as_slice(), pos + 9, pos + 9 + len);
                proof {
                    assert(payload@ =~= b@.skip(pos + 1 as int).subrange(8, 8 + n as int));
                }
                Some((StructuredValue::Blob(vstd::slice::slice_to_vec(payload)), pos + 9 + len))
            },
            None => None,
        }
    } else if tag == TAG_LIST {
        match read_u64(b, pos + 1) {
            Some(n) => {
                match decode_values_at(b, pos + 9, n) {
                    Some((vs, end)) => {
                        let rv = StructuredValue::List(vs);
                        proof {
                            assert(b@.skip(pos + 1 as int).skip(8) =~= b@.skip(pos + 9 as int));
                            assert(rv@->List_0 =~= values_view(rv->List_0@));
                        }
                        Some((rv, end))
                    },
                    None => {
                        proof {
                            assert(b@.skip(pos + 1 as int).skip(8) =~= b@.skip(pos + 9 as int));
                        }
                        None
                    },
                }
            },
            None => None,
        }
    } else if tag == TAG_OBJECT {
        match read_u64(b, pos + 1) {
            Some(n) => {
                match decode_entries_at(b, pos + 9, n) {
                    Some((es, end)) => {
                        let rv = StructuredValue::Object(es);
                        proof {
                            assert(b@.skip(pos + 1 as int).skip(8) =~= b@.skip(pos + 9 as int));
                            assert(rv@->Object_0 =~= entries_view(rv->Object_0@));
                        }
                        Some((rv, end))
                    },
                    None => {
                        proof {
                            assert(b@.skip(pos + 1 as int).skip(8) =~= b@.skip(pos + 9 as int));
                        }
                        None
                    },
                }
            },
            None => None,
        }
    } else {
        None
    }
}

/// Decodes `n` consecutive values starting at `pos`.
fn decode_values_at(b: &Vec<u8>, pos: usize, n: u64) -> (r: Option<(Vec<StructuredValue>, usize)>)
    requires
        pos <= b@.len(),
    ensures
        match r {
            Some((vs, end)) => pos <= end <= b@.len() && dec_values(b@.skip(pos as int), n)
                == Some((values_view(vs@), end - pos)),
            None => dec_values(b@.skip(pos as int), n) is None,
        },
    decreases b@.len() - pos, n as int + 1,
{
    let mut out: Vec<StructuredValue> = Vec::new();
    let mut cur: usize = pos;
    let mut k: u64 = 0;
    proof {
        assert(values_view(out@) =~= Seq::<SpecValue>::empty());
    }
    while k < n
        invariant
            pos <= cur <= b@.len(),
            k <= n,
            match dec_values(b@.skip(cur as int), (n - k) as u64) {
                Some((vs, u)) => dec_values(b@.skip(pos as int), n) == Some(
                    (values_view(out@) + vs, (cur - pos) + u),
                ),
                None => dec_values(b@.skip(pos as int), n) is None,
            },
        decreases n - k,
    {
        let ghost pre = values_view(out@);
        match decode_value_at(b, cur) {
            Some((v, end)) => {
                out.push(v);
                proof {
                    assert(b@.skip(cur as int).skip(end - cur) =~= b@.skip(end as int));
                    assert(values_view(out@) =~= pre + seq![v@]);
                    let rem = (n - k) as u64;
                    assert(dec_values(b@.skip(cur as int), rem) == (match dec_values(
                        b@.skip(end as int),
                        (rem - 1) as u64,
                    ) {
                        Some((vs, u2)) => Some((seq![v@] + vs, (end - cur) + u2)),
                        None => None,
                    }));
                    if dec_values(b@.skip(end as int), (n - k - 1) as u64) is Some {
                        let (vs2, u2) = dec_values(b@.skip(end as int), (n - k - 1) as u64)->Some_0;
                        assert(pre + (seq![v@] + vs2) =~= (pre + seq![v@]) + vs2);
                    }
                }
                cur = end;
                k = k + 1;
            },
            None => {
                return None;
            },
        }
    }
    proof {
        assert(dec_values(b@.skip(cur as int), 0) == Some((Seq::<SpecValue>::empty(), 0int)));
        assert(values_view(out@) + Seq::<SpecValue>::empty() =~= values_view(out@));
    }
    Some((out, cur))
}

/// Decodes `n` consecutive key/value entries starting at `pos`.
fn decode_entries_at(b: &Vec<u8>, pos: usize, n: u64) -> (r: Option<
    (Vec<(String, StructuredValue)>, usize),
>)
    requires
        pos <= b@.len(),
    ensures
        match r {
            Some((es, end)) => pos <= end <= b@.len() && dec_entries(b@.skip(pos as int), n)
                == Some((entries_view(es@), end - pos)),
            None => dec_entries(b@.skip(pos as int), n) is None,
        },
    decreases b@.len() - pos, n as int + 1,
{
    let mut out: Vec<(String, StructuredValue)> = Vec::new();
    let mut cur: usize = pos;
    let mut k: u64 = 0;
    proof {
        assert(entries_view(out@) =~= Seq::<(Seq<char>, SpecValue)>::empty());
    }
    while k < n
        invariant
            pos <= cur <= b@.len(),
            k <= n,
            match dec_entries(b@.skip(cur as int), (n - k) as u64) {
                Some((es, u)) => dec_entries(b@.skip(pos as int), n) == Some(
                    (entries_view(out@) + es, (cur - pos) + u),
                ),
                None => dec_entries(b@.skip(pos as int), n) is None,
            },
        decreases n - k,
    {
        let ghost pre = entries_view(out@);
        match read_str(b, cur) {
            Some((key, kend)) => {
                match decode_value_at(b, kend) {
                    Some((v, end)) => {
                        proof {
                            assert(b@.skip(cur as int).skip(kend - cur) =~= b@.skip(kend as int));
                        }
                        out.push((key, v));
                        proof {
                            assert(entries_view(out@) =~= pre + seq![(key@, v@)]);
                            if dec_entries(b@.skip(end as int), (n - k - 1) as u64) is Some {
                                let (es2, u2) = dec_entries(
                                    b@.skip(end as int),
                                    (n - k - 1) as u64,
                                )->Some_0;
                                assert(pre + (seq![(key@, v@)] + es2) =~= (pre + seq![(key@, v@)])
                                    + es2);
                            }
                            assert(b@.skip(cur as int).skip(end - cur) =~= b@.skip(end as int));
                        }
                        cur = end;
                        k = k + 1;
                    },
                    None => {
                        proof {
                            assert(b@.skip(cur as int).skip(kend - cur) =~= b@.skip(kend as int));
                        }
                        return None;
                    },
                }
            },
            None => {
                return None;
            },
        }
    }
    proof {
        assert(dec_entries(b@.skip(cur as int), 0) == Some((
            Seq::<(Seq<char>, SpecValue)>::empty(),
            0int,
        )));
        assert(entries_view(out@) + Seq::<(Seq<char>, SpecValue)>::empty() =~= entries_view(out@));
    }
    Some((out, cur))
}

/// Decodes a whole buffer as one value; every byte must belong to it.
pub fn decode_value(b: &Vec<u8>) -> (r: Option<StructuredValue>)
    ensures
        match r {
            Some(v) => dec_value(b@) == Some((v@, b@.len() as int)),
            None => dec_value(b@) is None || (dec_value(b@) matches Some((_, used)) && used
                != b@.len()),
        },
{
    proof {
        assert(b@.skip(0) =~= b@);
    }
    match decode_value_at(b, 0) {
        Some((v, end)) => {
            if end == b.len() {
                Some(v)
            } else {
                None
            }
        },
        None => None,
    }
}

/// Every blob inside a decoded value fits inside the buffer it was
/// decoded from.
pub proof fn lemma_dec_value_blobs(b: Seq<u8>, limit: int)
    requires
        b.len() <= limit,
        dec_value(b) is Some,
    ensures
        blobs_within(dec_value(b)->Some_0.0, limit),
    decreases b.len(), 0int, 0int,
{
    if b.len() >= 1 {
        let tag = b[0];
        let r = b.skip(1);
        if tag == TAG_LIST {
            if dec_u64(r) is Some {
                let n = dec_u64(r)->Some_0;
                if dec_values(r.skip(8), n) is Some {
                    lemma_dec_values_blobs(r.skip(8), n, limit);
                }
            }
        } else if tag == TAG_OBJECT {
            if dec_u64(r) is Some {
                let n = dec_u64(r)->Some_0;
                if dec_entries(r.skip(8), n) is Some {
                    lemma_dec_entries_blobs(r.skip(8), n, limit);
                }
            }
        }
    }
}

proof fn lemma_dec_values_blobs(b: Seq<u8>, n: u64, limit: int)
    requires
        b.len() <= limit,
        dec_values(b, n) is Some,
    ensures
        forall|i: int|
            0 <= i < dec_values(b, n)->Some_0.0.len() ==> blobs_within(
                #[trigger] dec_values(b, n)->Some_0.0[i],
                limit,
            ),
    decreases b.len(), n as int + 1, 0int,
{
    if n != 0 {
        lemma_dec_value_blobs(b, limit);
        let (v, u) = dec_value(b)->Some_0;
        lemma_dec_values_blobs(b.skip(u), (n - 1) as u64, limit);
        let vs = dec_values(b.skip(u), (n - 1) as u64)->Some_0.0;
        assert(forall|i: int|
            0 <= i < vs.len() ==> (seq![v] + vs)[i + 1] == #[trigger] vs[i]);
    }
}

proof fn lemma_dec_entries_blobs(b: Seq<u8>, n: u64, limit: int)
    requires
        b.len() <= limit,
        dec_entries(b, n) is Some,
    ensures
        forall|i: int|
            0 <= i < dec_entries(b, n)->Some_0.0.len() ==> blobs_within(
                (#[trigger] dec_entries(b, n)->Some_0.0[i]).1,
                limit,
            ),
    decreases b.len(), n as int + 1, 0int,
{
    if n != 0 {
        let (k, uk) = dec_str(b)->Some_0;
        lemma_dec_value_blobs(b.skip(uk), limit);
        let (v, uv) = dec_value(b.skip(uk))->Some_0;
        lemma_dec_entries_blobs(b.skip(uk + uv), (n - 1) as u64, limit);
        let es = dec_entries(b.skip(uk + uv), (n - 1) as u64)->Some_0.0;
        assert(forall|i: int|
            0 <= i < es.len() ==> (seq![(k, v)] + es)[i + 1] == #[trigger] es[i]);
    }
}

/// Every byte blob in the value is at most `limit` bytes long.
pub open spec fn blobs_within(v: SpecValue, limit: int) -> bool
    decreases v,
{
    match v {
        SpecValue::Blob(b) => b.len() <= limit,
        SpecValue::List(items) => forall|i: int|
            0 <= i < items.len() ==> blobs_within(#[trigger] items[i], limit),
        SpecValue::Object(entries) => forall|i: int|
            0 <= i < entries.len() ==> blobs_within((#[trigger] entries[i]).1, limit),
        _ => true,
    }
}

} // verus!
