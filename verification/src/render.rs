//! Canonical textual rendering of values.
//!
//! When the resolver substitutes a reference, a string leaf renders as
//! itself and every other value renders as its canonical text: `null`,
//! `true`/`false`, decimal integers, the software-float text for
//! doubles, and JSON-style composite syntax with escaped, quoted
//! strings.  Byte blobs render as their quoted base64 text.

use vstd::prelude::*;
use crate::value::{StructuredValue, SpecValue};
use crate::shims::{base64_of, double_text, base64_encode, render_double, push_char};
use vstd::string::StrSliceExecFns;

verus! {

broadcast use vstd::std_specs::vec::group_vec_axioms, vstd::seq::group_seq_axioms;

pub open spec fn digit_char(d: int) -> char {
    if d == 0 {
        '0'
    } else if d == 1 {
        '1'
    } else if d == 2 {
        '2'
    } else if d == 3 {
        '3'
    } else if d == 4 {
        '4'
    } else if d == 5 {
        '5'
    } else if d == 6 {
        '6'
    } else if d == 7 {
        '7'
    } else if d == 8 {
        '8'
    } else if d == 9 {
        '9'
    } else if d == 10 {
        'a'
    } else if d == 11 {
        'b'
    } else if d == 12 {
        'c'
    } else if d == 13 {
        'd'
    } else if d == 14 {
        'e'
    } else {
        'f'
    }
}

/// Decimal text of a natural number.
pub open spec fn nat_text(n: nat) -> Seq<char>
    decreases n,
{
    if n < 10 {
        seq![digit_char(n as int)]
    } else {
        nat_text(n / 10).push(digit_char((n % 10) as int))
    }
}

/// Decimal text of an integer, with a leading minus sign when negative.
pub open spec fn int_text(i: int) -> Seq<char> {
    if i >= 0 {
        nat_text(i as nat)
    } else {
        seq!['-'] + nat_text((-i) as nat)
    }
}

/// JSON-style escape of one character inside a quoted string.
pub open spec fn escape_char(c: char) -> Seq<char> {
    if c == '"' {
        seq!['\\', '"']
    } else if c == '\\' {
        seq!['\\', '\\']
    } else if c == '\n' {
        seq!['\\', 'n']
    } else if c == '\r' {
        seq!['\\', 'r']
    } else if c == '\t' {
        seq!['\\', 't']
    } else if c as u32 == 8 {
        seq!['\\', 'b']
    } else if c as u32 == 12 {
        seq!['\\', 'f']
    } else if (c as u32) < 32 {
        seq!['\\', 'u', '0', '0', digit_char((c as u32) as int / 16), digit_char(
            (c as u32) as int % 16,
        )]
    } else {
        seq![c]
    }
}

pub open spec fn escape_text(s: Seq<char>) -> Seq<char>
    decreases s.len(),
{
    if s.len() == 0 {
        Seq::empty()
    } else {
        escape_char(s[0]) + escape_text(s.drop_first())
    }
}

/// A string as it appears inside composite canonical text.
pub open spec fn quoted(s: Seq<char>) -> Seq<char> {
    seq!['"'] + escape_text(s) + seq!['"']
}

/// The canonical text of a value.
pub open spec fn canon_text(v: SpecValue) -> Seq<char>
    decreases v, 0int,
{
    match v {
        SpecValue::Null => seq!['n', 'u', 'l', 'l'],
        SpecValue::Bool(b) => if b {
            seq!['t', 'r', 'u', 'e']
        } else {
            seq!['f', 'a', 'l', 's', 'e']
        },
        SpecValue::Int(i) => int_text(i),
        SpecValue::Double(bits) => double_text(bits),
        SpecValue::Str(s) => quoted(s),
        SpecValue::Blob(b) => quoted(base64_of(b)),
        SpecValue::List(items) => seq!['['] + canon_list(items) + seq![']'],
        SpecValue::Object(entries) => seq!['{'] + canon_entries(entries) + seq!['}'],
    }
}

pub open spec fn canon_list(items: Seq<SpecValue>) -> Seq<char>
    decreases items, 1int,
{
    if items.len() == 0 {
        Seq::empty()
    } else {
        canon_text(items[0]) + canon_list_rest(items.drop_first())
    }
}

pub open spec fn canon_list_rest(items: Seq<SpecValue>) -> Seq<char>
    decreases items, 2int,
{
    if items.len() == 0 {
        Seq::empty()
    } else {
        seq![','] + canon_text(items[0]) + canon_list_rest(items.drop_first())
    }
}

pub open spec fn canon_entry(e: (Seq<char>, SpecValue)) -> Seq<char>
    decreases e, 0int,
{
    quoted(e.0) + seq![':'] + canon_text(e.1)
}

pub open spec fn canon_entries(entries: Seq<(Seq<char>, SpecValue)>) -> Seq<char>
    decreases entries, 1int,
{
    if entries.len() == 0 {
        Seq::empty()
    } else {
        canon_entry(entries[0]) + canon_entries_rest(entries.drop_first())
    }
}

pub open spec fn canon_entries_rest(entries: Seq<(Seq<char>, SpecValue)>) -> Seq<char>
    decreases entries, 2int,
{
    if entries.len() == 0 {
        Seq::empty()
    } else {
        seq![','] + canon_entry(entries[0]) + canon_entries_rest(entries.drop_first())
    }
}

/// How a value looked up for a reference is written into the host text:
/// a string leaf as itself, anything else as its canonical text.
pub open spec fn rendered(v: SpecValue) -> Seq<char> {
    match v {
        SpecValue::Str(s) => s,
        _ => canon_text(v),
    }
}

/// The largest byte length whose base64 text still fits in memory on
/// this machine.
pub open spec fn base64_fit_limit() -> int {
    (usize::MAX - 4) as int / 4 * 3
}

/// Every byte blob in the tree is small enough for base64 encoding on
/// this machine.
pub open spec fn blobs_fit(v: SpecValue) -> bool
    decreases v,
{
    match v {
        SpecValue::Blob(b) => b.len() <= base64_fit_limit(),
        SpecValue::List(items) => forall|i: int|
            0 <= i < items.len() ==> blobs_fit(#[trigger] items[i]),
        SpecValue::Object(entries) => forall|i: int|
            0 <= i < entries.len() ==> blobs_fit(#[trigger] entries[i].1),
        _ => true,
    }
}

pub fn digit(d: u8) -> (c: char)
    requires
        d < 16,
    ensures
        c == digit_char(d as int),
{
    if d == 0 {
        '0'
    } else if d == 1 {
        '1'
    } else if d == 2 {
        '2'
    } else if d == 3 {
        '3'
    } else if d == 4 {
        '4'
    } else if d == 5 {
        '5'
    } else if d == 6 {
        '6'
    } else if d == 7 {
        '7'
    } else if d == 8 {
        '8'
    } else if d == 9 {
        '9'
    } else if d == 10 {
        'a'
    } else if d == 11 {
        'b'
    } else if d == 12 {
        'c'
    } else if d == 13 {
        'd'
    } else if d == 14 {
        'e'
    } else {
        'f'
    }
}

/// Appends the decimal text of `n`.
pub fn push_u64_text(s: &mut String, n: u64)
    ensures
        final(s)@ == old(s)@ + nat_text(n as nat),
    decreases n,
{
    if n < 10 {
        push_char(s, digit(n as u8));
        proof {
            assert(final(s)@ =~= old(s)@ + nat_text(n as nat));
        }
    } else {
        push_u64_text(s, n / 10);
        push_char(s, digit((n % 10) as u8));
        proof {
            assert(final(s)@ =~= old(s)@ + nat_text(n as nat));
        }
    }
}

/// Appends the decimal text of `i`, with a minus sign when negative.
pub fn push_i64_text(s: &mut String, i: i64)
    ensures
        final(s)@ == old(s)@ + int_text(i as int),
{
    if i >= 0 {
        push_u64_text(s, i as u64);
    } else {
        push_char(s, '-');
        let magnitude: u64 = ((-(i + 1)) as u64) + 1;
        proof {
            assert(magnitude as int == -(i as int));
        }
        push_u64_text(s, magnitude);
        proof {
            assert(final(s)@ =~= old(s)@ + int_text(i as int));
        }
    }
}

proof fn lemma_escape_push(s: Seq<char>, c: char)
    ensures
        escape_text(s.push(c)) == escape_text(s) + escape_char(c),
    decreases s.len(),
{
    if s.len() == 0 {
        assert(s.push(c)[0] == c);
        assert(s.push(c).drop_first() =~= Seq::<char>::empty());
        assert(escape_text(s.push(c)) == escape_char(c) + escape_text(
            Seq::<char>::empty(),
        ));
        assert(escape_char(c) + Seq::<char>::empty() =~= escape_char(c));
        assert(escape_text(s) + escape_char(c) =~= escape_char(c));
    } else {
        assert(s.push(c).drop_first() =~= s.drop_first().push(c));
        lemma_escape_push(s.drop_first(), c);
        assert(escape_text(s.push(c)) =~= escape_text(s) + escape_char(c));
    }
}

/// Appends the escaped form of `t`.
pub fn push_escaped(s: &mut String, t: &str)
    ensures
        final(s)@ == old(s)@ + escape_text(t@),
{
    let len = t.unicode_len();
    let mut i: usize = 0;
    proof {
        assert(t@.take(0) =~= Seq::<char>::empty());
        assert(s@ =~= s@ + escape_text(t@.take(0)));
    }
    while i < len
        invariant
            i <= len,
            len == t@.len(),
            s@ == old(s)@ + escape_text(t@.take(i as int)),
        decreases len - i,
    {
        let c = t.get_char(i);
        let code: u32 = c as u32;
        if c == '"' || c == '\\' {
            push_char(s, '\\');
            push_char(s, c);
        } else if c == '\n' {
            push_char(s, '\\');
            push_char(s, 'n');
        } else if c == '\r' {
            push_char(s, '\\');
            push_char(s, 'r');
        } else if c == '\t' {
            push_char(s, '\\');
            push_char(s, 't');
        } else if code == 8 {
            push_char(s, '\\');
            push_char(s, 'b');
        } else if code == 12 {
            push_char(s, '\\');
            push_char(s, 'f');
        } else if code < 32 {
            push_char(s, '\\');
            push_char(s, 'u');
            push_char(s, '0');
            push_char(s, '0');
            push_char(s, digit((code / 16) as u8));
            push_char(s, digit((code % 16) as u8));
        } else {
            push_char(s, c);
        }
        proof {
            lemma_escape_push(t@.take(i as int), t@[i as int]);
            assert(t@.take(i + 1 as int) =~= t@.take(i as int).push(t@[i as int]));
            assert(s@ =~= old(s)@ + escape_text(t@.take(i + 1 as int)));
        }
        i = i + 1;
    }
    proof {
        assert(t@.take(len as int) =~= t@);
    }
}

/// Appends the canonical text of `v`.
pub fn push_canon(s: &mut String, v: &StructuredValue)
    requires
        blobs_fit(v@),
    ensures
        final(s)@ == old(s)@ + canon_text(v@),
    decreases *v,
{
    match v {
        StructuredValue::Null => {
            s.append("null");
            proof {
                reveal_strlit("null");
                assert(("null")@ =~= seq!['n', 'u', 'l', 'l']);
            }
        },
        StructuredValue::Bool(b) => {
            if *b {
                s.append("true");
                proof {
                    reveal_strlit("true");
                    assert(("true")@ =~= seq!['t', 'r', 'u', 'e']);
                }
            } else {
                s.append("false");
                proof {
                    reveal_strlit("false");
                    assert(("false")@ =~= seq!['f', 'a', 'l', 's', 'e']);
                }
            }
        },
        StructuredValue::Int(i) => {
            push_i64_text(s, *i);
        },
        StructuredValue::Double(bits) => {
            let t = render_double(*bits);
            s.append(t.as_str());
        },
        StructuredValue::Str(t) => {
            push_char(s, '"');
            push_escaped(s, t.as_str());
            push_char(s, '"');
            proof {
                assert(s@ =~= old(s)@ + quoted(t@));
            }
        },
        StructuredValue::Blob(b) => {
            let t = base64_encode(b);
            push_char(s, '"');
            push_escaped(s, t.as_str());
            push_char(s, '"');
            proof {
                assert(s@ =~= old(s)@ + quoted(base64_of(b@)));
            }
        },
        StructuredValue::List(items) => {
            let ghost lv = v@->List_0;
            let ghost base = s@;
            push_char(s, '[');
            if items.len() == 0 {
                proof {
                    assert(canon_list(lv) =~= Seq::<char>::empty());
                }
            } else {
                proof {
                    assert(decreases_to!(*v => v->List_0));
                    assert(v->List_0 == *items);
                    assert(decreases_to!(*items => items[0int]));
                    assert(decreases_to!(*v => items[0int]));
                    assert(lv[0] == items@[0]@);
                    assert(blobs_fit(lv[0]));
                }
                push_canon(s, &items[0]);
                let mut i: usize = 1;
                proof {
                    assert(lv.drop_first() =~= lv.skip(1));
                }
                while i < items.len()
                    invariant
                        *v == StructuredValue::List(*items),
                        lv == v@->List_0,
                        blobs_fit(v@),
                        1 <= i <= items.len(),
                        lv.len() == items@.len(),
                        s@ + canon_list_rest(lv.skip(i as int)) == base + seq!['['] + canon_list(
                            lv,
                        ),
                    decreases items.len() - i,
                {
                    proof {
                        assert(decreases_to!(*v => v->List_0));
                        assert(v->List_0 == *items);
                        assert(decreases_to!(*items => items[i as int]));
                        assert(decreases_to!(*v => items[i as int]));
                        assert(lv[i as int] == items@[i as int]@);
                        assert(blobs_fit(lv[i as int]));
                    }
                    push_char(s, ',');
                    push_canon(s, &items[i]);
                    proof {
                        assert(lv.skip(i as int)[0] == lv[i as int]);
                        assert(lv.skip(i as int).drop_first() =~= lv.skip(i + 1 as int));
                    }
                    i = i + 1;
                }
                proof {
                    assert(lv.skip(items@.len() as int) =~= Seq::<SpecValue>::empty());
                    assert(canon_list_rest(lv.skip(items@.len() as int)) =~= Seq::<char>::empty());
                    assert(s@ + Seq::<char>::empty() =~= s@);
                }
            }
            push_char(s, ']');
            proof {
                assert(s@ =~= base + canon_text(v@));
            }
        },
        StructuredValue::Object(entries) => {
            let ghost ev = v@->Object_0;
            let ghost base = s@;
            push_char(s, '{');
            if entries.len() == 0 {
                proof {
                    assert(canon_entries(ev) =~= Seq::<char>::empty());
                }
            } else {
                proof {
                    assert(decreases_to!(*v => v->Object_0));
                    assert(v->Object_0 == *entries);
                    assert(decreases_to!(*entries => entries[0int]));
                    assert(decreases_to!(entries[0int] => entries[0int].1));
                    assert(decreases_to!(*v => entries[0int].1));
                    assert(ev[0] == (entries@[0].0@, entries@[0].1@));
                    assert(blobs_fit(ev[0].1));
                }
                push_char(s, '"');
                push_escaped(s, entries[0].0.as_str());
                push_char(s, '"');
                push_char(s, ':');
                push_canon(s, &entries[0].1);
                proof {
                    assert(s@ =~= base + seq!['{'] + canon_entry(ev[0]));
                    assert(ev.drop_first() =~= ev.skip(1));
                }
                let mut i: usize = 1;
                while i < entries.len()
                    invariant
                        *v == StructuredValue::Object(*entries),
                        ev == v@->Object_0,
                        blobs_fit(v@),
                        1 <= i <= entries.len(),
                        ev.len() == entries@.len(),
                        s@ + canon_entries_rest(ev.skip(i as int)) == base + seq!['{']
                            + canon_entries(ev),
                    decreases entries.len() - i,
                {
                    proof {
                        assert(decreases_to!(*v => v->Object_0));
                        assert(v->Object_0 == *entries);
                        assert(decreases_to!(*entries => entries[i as int]));
                        assert(decreases_to!(entries[i as int] => entries[i as int].1));
                        assert(decreases_to!(*v => entries[i as int].1));
                        assert(ev[i as int] == (entries@[i as int].0@, entries@[i as int].1@));
                        assert(blobs_fit(ev[i as int].1));
                    }
                    let ghost mid = s@;
                    push_char(s, ',');
                    push_char(s, '"');
                    push_escaped(s, entries[i].0.as_str());
                    push_char(s, '"');
                    push_char(s, ':');
                    push_canon(s, &entries[i].1);
                    proof {
                        assert(ev.skip(i as int)[0] == ev[i as int]);
                        assert(ev.skip(i as int).drop_first() =~= ev.skip(i + 1 as int));
                        assert(s@ =~= mid + seq![','] + canon_entry(ev[i as int]));
                        assert(canon_entries_rest(ev.skip(i as int)) == seq![','] + canon_entry(
                            ev[i as int],
                        ) + canon_entries_rest(ev.skip(i + 1 as int)));
                        assert(mid + (seq![','] + canon_entry(ev[i as int]) + canon_entries_rest(
                            ev.skip(i + 1 as int),
                        )) =~= (mid + seq![','] + canon_entry(ev[i as int])) + canon_entries_rest(
                            ev.skip(i + 1 as int),
                        ));
                    }
                    i = i + 1;
                }
                proof {
                    assert(ev.skip(entries@.len() as int) =~= Seq::<(Seq<char>, SpecValue)>::empty());
                    assert(canon_entries_rest(ev.skip(entries@.len() as int)) =~= Seq::<
                        char,
                    >::empty());
                    assert(s@ + Seq::<char>::empty() =~= s@);
                }
            }
            push_char(s, '}');
            proof {
                assert(s@ =~= base + canon_text(v@));
            }
        },
    }
}

/// The text a looked-up value contributes when substituted for a
/// reference: a string leaf as itself, anything else as canonical text.
pub fn rendered_text(v: &StructuredValue) -> (r: String)
    requires
        blobs_fit(v@),
    ensures
        r@ == rendered(v@),
{
    match v {
        StructuredValue::Str(t) => t.clone(),
        _ => {
            let mut s = String::new();
            push_canon(&mut s, v);
            s
        },
    }
}

/// A blob bound at or below the base64 limit gives `blobs_fit`.
pub proof fn lemma_blobs_within_fit(v: SpecValue, limit: int)
    requires
        crate::codec::blobs_within(v, limit),
        limit <= base64_fit_limit(),
    ensures
        blobs_fit(v),
    decreases v,
{
    match v {
        SpecValue::List(items) => {
            assert forall|i: int| 0 <= i < items.len() implies blobs_fit(#[trigger] items[i]) by {
                lemma_blobs_within_fit(items[i], limit);
            }
        },
        SpecValue::Object(entries) => {
            assert forall|i: int| 0 <= i < entries.len() implies blobs_fit(
                (#[trigger] entries[i]).1,
            ) by {
                lemma_blobs_within_fit(entries[i].1, limit);
            }
        },
        _ => {},
    }
}

} // verus!
