//! Output-reference discovery and resolution.
//!
//! A reference is a substring `${<body>}` whose body contains no `}`.
//! It is valid exactly when splitting the body on `.` yields at least
//! two segments, all non-empty: the first segment names a resource, the
//! rest (joined by `.`, i.e. the text after the first dot) form a
//! property path into that resource's outputs.  Discovery walks a tree
//! depth-first and reports every valid reference inside string leaves
//! in order.  Resolution rewrites each string leaf in one left-to-right
//! pass over its original text, replacing each valid reference whose
//! lookup succeeds by the looked-up value's rendered form and leaving
//! everything else (including unresolvable references) unchanged.

use vstd::prelude::*;
use crate::value::{StructuredValue, SpecValue, spec_value_of, object_get};
use crate::render::{rendered, blobs_fit, rendered_text};
use crate::shims::push_char;
use vstd::string::StrSliceExecFns;

verus! {

broadcast use vstd::std_specs::vec::group_vec_axioms, vstd::seq::group_seq_axioms;

/// The first index at or after `i` holding `c`, or the length of `s`
/// when there is none.
pub open spec fn find_char(s: Seq<char>, i: int, c: char) -> int
    decreases s.len() - i when 0 <= i <= s.len()
{
    if i >= s.len() {
        s.len() as int
    } else if s[i] == c {
        i
    } else {
        find_char(s, i + 1, c)
    }
}

pub proof fn lemma_find_char(s: Seq<char>, i: int, c: char)
    requires
        0 <= i <= s.len(),
    ensures
        i <= find_char(s, i, c) <= s.len(),
        forall|k: int| i <= k < find_char(s, i, c) ==> s[k] != c,
        find_char(s, i, c) < s.len() ==> s[find_char(s, i, c)] == c,
    decreases s.len() - i,
{
    if i < s.len() && s[i] != c {
        lemma_find_char(s, i + 1, c);
    }
}

/// `find_char` is pinned down by its characterisation.
pub proof fn lemma_find_char_is(s: Seq<char>, i: int, c: char, j: int)
    requires
        0 <= i <= j <= s.len(),
        forall|k: int| i <= k < j ==> s[k] != c,
        j < s.len() ==> s[j] == c,
    ensures
        find_char(s, i, c) == j,
    decreases s.len() - i,
{
    if i < s.len() && s[i] != c {
        lemma_find_char_is(s, i + 1, c, j);
    }
}

/// A `${...}` match starts at the front of `s`: the opener, then a
/// closing brace strictly after at least one body character.
pub open spec fn match_at(s: Seq<char>) -> bool {
    &&& s.len() >= 2
    &&& s[0] == '$'
    &&& s[1] == '{'
    &&& find_char(s, 2, '}') > 2
    &&& find_char(s, 2, '}') < s.len()
}

/// One past the closing brace of the match at the front of `s`.
pub open spec fn match_end(s: Seq<char>) -> int {
    find_char(s, 2, '}') + 1
}

/// The text between `${` and `}`.
pub open spec fn match_body(s: Seq<char>) -> Seq<char> {
    s.subrange(2, find_char(s, 2, '}'))
}

/// The segments obtained by splitting `s` on `.` (empty segments kept).
pub open spec fn dot_segments(s: Seq<char>) -> Seq<Seq<char>>
    decreases s.len(),
{
    let d = find_char(s, 0, '.');
    if d < 0 || d >= s.len() {
        seq![s]
    } else {
        seq![s.subrange(0, d)] + dot_segments(s.subrange(d + 1, s.len() as int))
    }
}

/// A reference body is valid when splitting it on `.` yields at least
/// two segments, all of them non-empty.
pub open spec fn valid_ref_body(s: Seq<char>) -> bool {
    &&& dot_segments(s).len() >= 2
    &&& forall|i: int| 0 <= i < dot_segments(s).len() ==> dot_segments(s)[i].len() > 0
}

/// The resource name: the first dot segment.
pub open spec fn ref_name(s: Seq<char>) -> Seq<char> {
    s.subrange(0, find_char(s, 0, '.'))
}

/// The property path: everything after the first dot, which equals the
/// remaining segments joined by `.`.
pub open spec fn ref_path(s: Seq<char>) -> Seq<char> {
    s.subrange(find_char(s, 0, '.') + 1, s.len() as int)
}

/// Non-emptiness of every dot segment of `s`, stated recursively the
/// way an implementation walks the text.
pub open spec fn segs_nonempty(s: Seq<char>) -> bool
    decreases s.len(),
{
    let d = find_char(s, 0, '.');
    if d < 0 || d >= s.len() {
        s.len() > 0
    } else {
        d > 0 && segs_nonempty(s.subrange(d + 1, s.len() as int))
    }
}

pub proof fn lemma_dot_segments_len(s: Seq<char>)
    ensures
        dot_segments(s).len() >= 1,
    decreases s.len(),
{
    lemma_find_char(s, 0, '.');
    let d = find_char(s, 0, '.');
    if 0 <= d < s.len() {
        lemma_dot_segments_len(s.subrange(d + 1, s.len() as int));
    }
}

pub proof fn lemma_valid_ref_body(s: Seq<char>)
    ensures
        valid_ref_body(s) <==> (find_char(s, 0, '.') < s.len() && segs_nonempty(s)),
    decreases s.len(),
{
    lemma_find_char(s, 0, '.');
    let d = find_char(s, 0, '.');
    if d >= s.len() {
        assert(dot_segments(s).len() == 1);
    } else {
        let rest = s.subrange(d + 1, s.len() as int);
        lemma_valid_ref_body(rest);
        lemma_find_char(rest, 0, '.');
        assert(dot_segments(s) == seq![s.subrange(0, d)] + dot_segments(rest));
        assert(dot_segments(s)[0] == s.subrange(0, d));
        assert(forall|i: int|
            0 <= i < dot_segments(rest).len() ==> dot_segments(s)[i + 1] == dot_segments(rest)[i]);
        assert(dot_segments(rest).len() >= 1);
        if d > 0 && segs_nonempty(rest) {
            if dot_segments(rest).len() >= 2 {
                assert(valid_ref_body(rest));
                assert(forall|i: int|
                    0 <= i < dot_segments(s).len() ==> dot_segments(s)[i].len() > 0) by {
                    assert(forall|i: int|
                        1 <= i < dot_segments(s).len() ==> dot_segments(s)[i] == dot_segments(
                            rest,
                        )[i - 1]);
                }
            } else {
                lemma_dot_segments_len(rest);
                assert(dot_segments(rest).len() == 1);
                let drest = find_char(rest, 0, '.');
                assert(drest >= rest.len() || drest < 0) by {
                    if 0 <= drest < rest.len() {
                        lemma_dot_segments_len(rest.subrange(drest + 1, rest.len() as int));
                    }
                }
                assert(dot_segments(rest)[0] == rest);
                assert(rest.len() > 0);
                assert(forall|i: int|
                    0 <= i < dot_segments(s).len() ==> dot_segments(s)[i].len() > 0) by {
                    assert(forall|i: int|
                        1 <= i < dot_segments(s).len() ==> dot_segments(s)[i] == dot_segments(
                            rest,
                        )[i - 1]);
                }
            }
            assert(valid_ref_body(s));
        }
        if valid_ref_body(s) {
            assert(dot_segments(s)[0].len() > 0);
            assert(d > 0);
            if dot_segments(rest).len() >= 2 {
                assert(forall|i: int|
                    0 <= i < dot_segments(rest).len() ==> dot_segments(rest)[i].len() > 0) by {
                    assert(forall|i: int|
                        0 <= i < dot_segments(rest).len() ==> dot_segments(rest)[i]
                            == dot_segments(s)[i + 1]);
                }
                assert(valid_ref_body(rest));
            } else {
                lemma_dot_segments_len(rest);
                assert(dot_segments(rest)[0] == dot_segments(s)[1]);
                assert(dot_segments(rest).len() == 1);
                let drest = find_char(rest, 0, '.');
                lemma_find_char(rest, 0, '.');
                assert(drest >= rest.len()) by {
                    if 0 <= drest < rest.len() {
                        lemma_dot_segments_len(rest.subrange(drest + 1, rest.len() as int));
                    }
                }
                assert(dot_segments(rest)[0] == rest);
                assert(rest.len() > 0);
            }
            assert(segs_nonempty(rest));
        }
    }
}

/// A reference like `${resourceName.property.nested}`, parsed from the
/// text between the braces.
#[derive(Debug, Clone)]
pub struct OutputReference {
    pub resource_name: String,
    pub property_path: String,
}

impl View for OutputReference {
    type V = (Seq<char>, Seq<char>);

    open spec fn view(&self) -> (Seq<char>, Seq<char>) {
        (self.resource_name@, self.property_path@)
    }
}

/// Character-by-character equality of two string slices.
pub fn str_eq(a: &str, b: &str) -> (r: bool)
    ensures
        r == (a@ == b@),
{
    let alen = a.unicode_len();
    let blen = b.unicode_len();
    if alen != blen {
        return false;
    }
    let mut i: usize = 0;
    while i < alen
        invariant
            i <= alen,
            alen == a@.len(),
            alen == b@.len(),
            forall|j: int| 0 <= j < i ==> a@[j] == b@[j],
        decreases alen - i,
    {
        if a.get_char(i) != b.get_char(i) {
            return false;
        }
        i = i + 1;
    }
    proof {
        assert(a@ =~= b@);
    }
    true
}

/// The first index at or after `from` holding `c`, or the length.
fn scan_char(s: &str, from: usize, c: char) -> (r: usize)
    requires
        from <= s@.len(),
    ensures
        r == find_char(s@, from as int, c),
        from <= r <= s@.len(),
{
    let len = s.unicode_len();
    let mut i: usize = from;
    while i < len
        invariant
            from <= i <= len,
            len == s@.len(),
            forall|k: int| from <= k < i ==> s@[k] != c,
        decreases len - i,
    {
        if s.get_char(i) == c {
            proof {
                lemma_find_char_is(s@, from as int, c, i as int);
            }
            return i;
        }
        i = i + 1;
    }
    proof {
        lemma_find_char_is(s@, from as int, c, len as int);
    }
    len
}

/// Whether every dot segment of `s` from `from` on is non-empty.
fn segments_nonempty_from(s: &str, from: usize) -> (r: bool)
    requires
        from <= s@.len(),
    ensures
        r == segs_nonempty(s@.skip(from as int)),
    decreases s@.len() - from,
{
    let len = s.unicode_len();
    let d = scan_char(s, from, '.');
    proof {
        let t = s@.skip(from as int);
        assert(forall|k: int| 0 <= k < t.len() ==> t[k] == s@[k + from]);
        lemma_find_char(s@, from as int, '.');
        lemma_find_char_is(t, 0, '.', find_char(s@, from as int, '.') - from);
    }
    if d == len {
        from < len
    } else {
        if d == from {
            proof {
                let t = s@.skip(from as int);
                assert(!segs_nonempty(t));
            }
            return false;
        }
        let r = segments_nonempty_from(s, d + 1);
        proof {
            let t = s@.skip(from as int);
            let dd = (d - from) as int;
            assert(t.subrange(dd + 1, t.len() as int) =~= s@.skip(d + 1 as int));
        }
        r
    }
}

impl OutputReference {
    /// Parses `resourceName.property.nested` into a reference: the text
    /// must split on `.` into at least two non-empty segments.  The
    /// name is the first segment; the path is the rest of the text.
    pub fn parse(reference: &str) -> (r: Option<OutputReference>)
        ensures
            match r {
                Some(or) => valid_ref_body(reference@) && or.resource_name@ == ref_name(
                    reference@,
                ) && or.property_path@ == ref_path(reference@),
                None => !valid_ref_body(reference@),
            },
    {
        let len = reference.unicode_len();
        let d = scan_char(reference, 0, '.');
        proof {
            lemma_valid_ref_body(reference@);
            lemma_find_char(reference@, 0, '.');
        }
        if d == len || d == 0 {
            proof {
                if d == 0 && d < len {
                    assert(!segs_nonempty(reference@));
                }
            }
            return None;
        }
        if !segments_nonempty_from(reference, d + 1) {
            proof {
                assert(reference@.skip(0) =~= reference@);
                assert(!segs_nonempty(reference@)) by {
                    assert(reference@.subrange(d + 1, reference@.len() as int) =~= reference@.skip(
                        d + 1 as int,
                    ));
                }
            }
            return None;
        }
        let name = reference.substring_char(0, d).to_owned();
        let path = reference.substring_char(d + 1, len).to_owned();
        proof {
            assert(reference@.skip(0) =~= reference@);
            assert(segs_nonempty(reference@)) by {
                assert(reference@.subrange(d + 1, reference@.len() as int) =~= reference@.skip(
                    d + 1 as int,
                ));
            }
            assert(name@ =~= ref_name(reference@));
            assert(path@ =~= ref_path(reference@));
        }
        Some(OutputReference { resource_name: name, property_path: path })
    }
}

/// The reference reported for one matched body: one valid reference, or
/// nothing.
pub open spec fn found_ref(body: Seq<char>) -> Seq<(Seq<char>, Seq<char>)> {
    if valid_ref_body(body) {
        seq![(ref_name(body), ref_path(body))]
    } else {
        Seq::empty()
    }
}

/// All valid references in one text, left to right.
pub open spec fn find_refs_text(s: Seq<char>) -> Seq<(Seq<char>, Seq<char>)>
    decreases s.len(),
{
    if s.len() == 0 {
        Seq::empty()
    } else if match_at(s) {
        found_ref(match_body(s)) + find_refs_text(s.skip(match_end(s)))
    } else {
        find_refs_text(s.drop_first())
    }
}

/// All valid references in a tree, in depth-first order: string leaves
/// are scanned, lists and objects are visited in element order.
pub open spec fn find_refs_value(v: SpecValue) -> Seq<(Seq<char>, Seq<char>)>
    decreases v, 0int,
{
    match v {
        SpecValue::Str(s) => find_refs_text(s),
        SpecValue::List(items) => find_refs_list(items),
        SpecValue::Object(entries) => find_refs_entries(entries),
        _ => Seq::empty(),
    }
}

pub open spec fn find_refs_list(items: Seq<SpecValue>) -> Seq<(Seq<char>, Seq<char>)>
    decreases items, 1int,
{
    if items.len() == 0 {
        Seq::empty()
    } else {
        find_refs_value(items[0]) + find_refs_list(items.drop_first())
    }
}

pub open spec fn find_refs_entries(entries: Seq<(Seq<char>, SpecValue)>) -> Seq<
    (Seq<char>, Seq<char>),
>
    decreases entries, 1int,
{
    if entries.len() == 0 {
        Seq::empty()
    } else {
        find_refs_value(entries[0].1) + find_refs_entries(entries.drop_first())
    }
}

/// The models of a sequence of parsed references.
pub open spec fn refs_view(rs: Seq<OutputReference>) -> Seq<(Seq<char>, Seq<char>)> {
    Seq::new(rs.len(), |i: int|
        if 0 <= i < rs.len() {
            rs[i]@
        } else {
            (Seq::<char>::empty(), Seq::<char>::empty())
        })
}

/// Decides whether a reference match starts at position `i`, returning
/// the index of its closing brace.
fn match_close_at(s: &str, i: usize) -> (r: Option<usize>)
    requires
        i < s@.len(),
    ensures
        r is Some <==> match_at(s@.skip(i as int)),
        match r {
            Some(j) => i + 2 < j < s@.len() && j - i == find_char(s@.skip(i as int), 2, '}'),
            None => true,
        },
{
    let len = s.unicode_len();
    proof {
        let t = s@.skip(i as int);
        assert(forall|k: int| 0 <= k < t.len() ==> t[k] == s@[k + i]);
    }
    if s.get_char(i) != '$' {
        return None;
    }
    if i + 1 >= len || s.get_char(i + 1) != '{' {
        proof {
            assert(!match_at(s@.skip(i as int)));
        }
        return None;
    }
    let j = scan_char(s, i + 2, '}');
    proof {
        let t = s@.skip(i as int);
        lemma_find_char(s@, i + 2 as int, '}');
        lemma_find_char_is(t, 2, '}', find_char(s@, i + 2 as int, '}') - i);
    }
    if j == len || j == i + 2 {
        return None;
    }
    Some(j)
}

proof fn lemma_refs_view_push(rs: Seq<OutputReference>, x: OutputReference)
    ensures
        refs_view(rs.push(x)) == refs_view(rs) + seq![x@],
{
    assert(refs_view(rs.push(x)) =~= refs_view(rs) + seq![x@]);
}

/// Appends every valid reference found in the text to `out`.
fn collect_refs_text(s: &str, out: &mut Vec<OutputReference>)
    ensures
        refs_view(final(out)@) == refs_view(old(out)@) + find_refs_text(s@),
{
    let len = s.unicode_len();
    let mut i: usize = 0;
    proof {
        assert(s@.skip(0) =~= s@);
        assert(refs_view(out@) + find_refs_text(s@.skip(0)) =~= refs_view(out@) + find_refs_text(
            s@,
        ));
    }
    while i < len
        invariant
            i <= len,
            len == s@.len(),
            refs_view(out@) + find_refs_text(s@.skip(i as int)) == refs_view(old(out)@)
                + find_refs_text(s@),
        decreases len - i,
    {
        let ghost pre = out@;
        let ghost t = s@.skip(i as int);
        match match_close_at(s, i) {
            Some(j) => {
                let body = s.substring_char(i + 2, j);
                proof {
                    assert(body@ =~= match_body(t)) by {
                        assert(forall|k: int| 0 <= k < t.len() ==> t[k] == s@[k + i]);
                        assert(body@ =~= s@.subrange(i + 2 as int, j as int));
                    }
                }
                match OutputReference::parse(body) {
                    Some(or) => {
                        out.push(or);
                        proof {
                            lemma_refs_view_push(pre, or);
                            assert(found_ref(match_body(t)) =~= seq![or@]);
                        }
                    },
                    None => {
                        proof {
                            assert(found_ref(match_body(t)) =~= Seq::<
                                (Seq<char>, Seq<char>),
                            >::empty());
                        }
                    },
                }
                proof {
                    assert(t.skip(match_end(t)) =~= s@.skip(j + 1 as int));
                    assert(find_refs_text(t) == found_ref(match_body(t)) + find_refs_text(
                        s@.skip(j + 1 as int),
                    ));
                    assert(refs_view(out@) + find_refs_text(s@.skip(j + 1 as int)) =~= refs_view(
                        old(out)@,
                    ) + find_refs_text(s@));
                }
                i = j + 1;
            },
            None => {
                proof {
                    assert(t.drop_first() =~= s@.skip(i + 1 as int));
                    assert(find_refs_text(t) == find_refs_text(s@.skip(i + 1 as int)));
                }
                i = i + 1;
            },
        }
    }
    proof {
        assert(s@.skip(len as int) =~= Seq::<char>::empty());
        assert(find_refs_text(s@.skip(len as int)) =~= Seq::<(Seq<char>, Seq<char>)>::empty());
        assert(refs_view(out@) + Seq::<(Seq<char>, Seq<char>)>::empty() =~= refs_view(out@));
    }
}

/// Appends every valid reference found in the tree to `out`.
fn collect_refs(v: &StructuredValue, out: &mut Vec<OutputReference>)
    ensures
        refs_view(final(out)@) == refs_view(old(out)@) + find_refs_value(v@),
    decreases *v,
{
    let ghost base = refs_view(old(out)@);
    match v {
        StructuredValue::Str(s) => {
            collect_refs_text(s.as_str(), out);
        },
        StructuredValue::List(items) => {
            let ghost lv = v@->List_0;
            let mut k: usize = 0;
            proof {
                assert(lv.skip(0) =~= lv);
                assert(refs_view(out@) + find_refs_list(lv.skip(0)) =~= base + find_refs_list(lv));
            }
            while k < items.len()
                invariant
                    *v == StructuredValue::List(*items),
                    lv == v@->List_0,
                    k <= items.len(),
                    lv.len() == items@.len(),
                    refs_view(out@) + find_refs_list(lv.skip(k as int)) == base + find_refs_list(
                        lv,
                    ),
                decreases items.len() - k,
            {
                proof {
                    assert(decreases_to!(*v => v->List_0));
                    assert(v->List_0 == *items);
                    assert(decreases_to!(*items => items[k as int]));
                    assert(decreases_to!(*v => items[k as int]));
                    assert(lv[k as int] == items@[k as int]@);
                }
                let ghost pre = refs_view(out@);
                collect_refs(&items[k], out);
                proof {
                    assert(lv.skip(k as int)[0] == lv[k as int]);
                    assert(lv.skip(k as int).drop_first() =~= lv.skip(k + 1 as int));
                    assert(find_refs_list(lv.skip(k as int)) == find_refs_value(lv[k as int])
                        + find_refs_list(lv.skip(k + 1 as int)));
                    assert((pre + find_refs_value(lv[k as int])) + find_refs_list(
                        lv.skip(k + 1 as int),
                    ) =~= pre + (find_refs_value(lv[k as int]) + find_refs_list(
                        lv.skip(k + 1 as int),
                    )));
                }
                k = k + 1;
            }
            proof {
                assert(lv.skip(items@.len() as int) =~= Seq::<SpecValue>::empty());
                assert(find_refs_list(lv.skip(items@.len() as int)) =~= Seq::<
                    (Seq<char>, Seq<char>),
                >::empty());
                assert(refs_view(out@) + Seq::<(Seq<char>, Seq<char>)>::empty() =~= refs_view(
                    out@,
                ));
            }
        },
        StructuredValue::Object(entries) => {
            let ghost ev = v@->Object_0;
            let mut k: usize = 0;
            proof {
                assert(ev.skip(0) =~= ev);
                assert(refs_view(out@) + find_refs_entries(ev.skip(0)) =~= base + find_refs_entries(
                    ev,
                ));
            }
            while k < entries.len()
                invariant
                    *v == StructuredValue::Object(*entries),
                    ev == v@->Object_0,
                    k <= entries.len(),
                    ev.len() == entries@.len(),
                    refs_view(out@) + find_refs_entries(ev.skip(k as int)) == base
                        + find_refs_entries(ev),
                decreases entries.len() - k,
            {
                proof {
                    assert(decreases_to!(*v => v->Object_0));
                    assert(v->Object_0 == *entries);
                    assert(decreases_to!(*entries => entries[k as int]));
                    assert(decreases_to!(entries[k as int] => entries[k as int].1));
                    assert(decreases_to!(*v => entries[k as int].1));
                    assert(ev[k as int] == (entries@[k as int].0@, entries@[k as int].1@));
                }
                let ghost pre = refs_view(out@);
                collect_refs(&entries[k].1, out);
                proof {
                    assert(ev.skip(k as int)[0] == ev[k as int]);
                    assert(ev.skip(k as int).drop_first() =~= ev.skip(k + 1 as int));
                    assert(find_refs_entries(ev.skip(k as int)) == find_refs_value(ev[k as int].1)
                        + find_refs_entries(ev.skip(k + 1 as int)));
                    assert((pre + find_refs_value(ev[k as int].1)) + find_refs_entries(
                        ev.skip(k + 1 as int),
                    ) =~= pre + (find_refs_value(ev[k as int].1) + find_refs_entries(
                        ev.skip(k + 1 as int),
                    )));
                }
                k = k + 1;
            }
            proof {
                assert(ev.skip(entries@.len() as int) =~= Seq::<(Seq<char>, SpecValue)>::empty());
                assert(find_refs_entries(ev.skip(entries@.len() as int)) =~= Seq::<
                    (Seq<char>, Seq<char>),
                >::empty());
                assert(refs_view(out@) + Seq::<(Seq<char>, Seq<char>)>::empty() =~= refs_view(
                    out@,
                ));
            }
        },
        _ => {
            proof {
                assert(refs_view(out@) + find_refs_value(v@) =~= refs_view(out@));
            }
        },
    }
}

/// Finds all valid output references in a tree, in depth-first
/// traversal order, duplicates kept.
pub fn find_output_references(value: &StructuredValue) -> (r: Vec<OutputReference>)
    ensures
        refs_view(r@) == find_refs_value(value@),
{
    let mut out: Vec<OutputReference> = Vec::new();
    proof {
        assert(refs_view(out@) =~= Seq::<(Seq<char>, Seq<char>)>::empty());
    }
    collect_refs(value, &mut out);
    proof {
        assert(Seq::<(Seq<char>, Seq<char>)>::empty() + find_refs_value(value@) =~= find_refs_value(
            value@,
        ));
    }
    out
}

/// Walks a dot-delimited path into a value: at each segment the current
/// value must be an object holding the segment as a key.
pub open spec fn walk_path(v: SpecValue, path: Seq<char>) -> Option<SpecValue>
    decreases path.len(),
{
    let d = find_char(path, 0, '.');
    if d < 0 || d > path.len() {
        None
    } else {
        match v {
            SpecValue::Object(es) => match object_get(es, path.subrange(0, d)) {
                Some(x) => if d >= path.len() {
                    Some(x)
                } else {
                    walk_path(x, path.subrange(d + 1, path.len() as int))
                },
                None => None,
            },
            _ => None,
        }
    }
}

/// The value a reference denotes, if the resource is known and the path
/// leads through objects all the way.
pub open spec fn lookup_ref(
    outputs: Seq<(Seq<char>, SpecValue)>,
    name: Seq<char>,
    path: Seq<char>,
) -> Option<SpecValue> {
    match object_get(outputs, name) {
        Some(root) => walk_path(root, path),
        None => None,
    }
}

/// The replacement text for one matched body: the rendered form of the
/// looked-up value, if the body is a valid reference that resolves.
pub open spec fn subst_body(body: Seq<char>, outputs: Seq<(Seq<char>, SpecValue)>) -> Option<
    Seq<char>,
> {
    if valid_ref_body(body) {
        match lookup_ref(outputs, ref_name(body), ref_path(body)) {
            Some(val) => Some(rendered(val)),
            None => None,
        }
    } else {
        None
    }
}

/// One left-to-right pass over a text: each match is replaced by its
/// substitution when one exists, and kept verbatim otherwise.
pub open spec fn resolve_text(s: Seq<char>, outputs: Seq<(Seq<char>, SpecValue)>) -> Seq<char>
    decreases s.len(),
{
    if s.len() == 0 {
        s
    } else if match_at(s) {
        (match subst_body(match_body(s), outputs) {
            Some(rep) => rep,
            None => s.subrange(0, match_end(s)),
        }) + resolve_text(s.skip(match_end(s)), outputs)
    } else {
        seq![s[0]] + resolve_text(s.drop_first(), outputs)
    }
}

/// Structural resolution: string leaves are rewritten, everything else
/// is copied with its children resolved.
pub open spec fn resolve_value(v: SpecValue, outputs: Seq<(Seq<char>, SpecValue)>) -> SpecValue
    decreases v,
{
    match v {
        SpecValue::Str(s) => SpecValue::Str(resolve_text(s, outputs)),
        SpecValue::List(items) => SpecValue::List(
            Seq::new(items.len(), |i: int|
                if 0 <= i < items.len() {
                    resolve_value(items[i], outputs)
                } else {
                    SpecValue::Null
                }),
        ),
        SpecValue::Object(entries) => SpecValue::Object(
            Seq::new(entries.len(), |i: int|
                if 0 <= i < entries.len() {
                    (entries[i].0, resolve_value(entries[i].1, outputs))
                } else {
                    (Seq::<char>::empty(), SpecValue::Null)
                }),
        ),
        _ => v,
    }
}

/// The model of an outputs table.
pub open spec fn outputs_view(o: Seq<(String, StructuredValue)>) -> Seq<(Seq<char>, SpecValue)> {
    crate::value::entries_view(o)
}

/// Every value in the outputs table has blobs small enough to render.
pub open spec fn outputs_blobs_fit(o: Seq<(Seq<char>, SpecValue)>) -> bool {
    forall|i: int| 0 <= i < o.len() ==> blobs_fit(#[trigger] o[i].1)
}

/// A successful lookup in an entry list returns one of its values.
proof fn lemma_object_get_is_entry(es: Seq<(Seq<char>, SpecValue)>, key: Seq<char>)
    requires
        object_get(es, key) is Some,
    ensures
        exists|i: int|
            0 <= i < es.len() && object_get(es, key) == Some(#[trigger] es[i].1),
    decreases es.len(),
{
    if es.len() > 0 {
        if es[0].0 == key {
            assert(object_get(es, key) == Some(es[0].1));
        } else {
            lemma_object_get_is_entry(es.drop_first(), key);
            let i = choose|i: int|
                0 <= i < es.drop_first().len() && object_get(es.drop_first(), key) == Some(
                    #[trigger] es.drop_first()[i].1,
                );
            assert(es.drop_first()[i] == es[i + 1]);
            assert(object_get(es, key) == Some(es[i + 1].1));
        }
    }
}

/// Walking a path inside a value whose blobs fit yields a value whose
/// blobs fit.
proof fn lemma_walk_blobs_fit(v: SpecValue, path: Seq<char>)
    requires
        blobs_fit(v),
        walk_path(v, path) is Some,
    ensures
        blobs_fit(walk_path(v, path)->Some_0),
    decreases path.len(),
{
    let d = find_char(path, 0, '.');
    if 0 <= d <= path.len() {
        match v {
            SpecValue::Object(es) => {
                let key = path.subrange(0, d);
                if object_get(es, key) is Some {
                    lemma_object_get_is_entry(es, key);
                    let x = object_get(es, key)->Some_0;
                    assert(blobs_fit(x));
                    if d < path.len() {
                        lemma_walk_blobs_fit(x, path.subrange(d + 1, path.len() as int));
                    }
                }
            },
            _ => {},
        }
    }
}

/// Looks a resource name up in the outputs table (first entry wins).
fn get_output<'a>(outputs: &'a Vec<(String, StructuredValue)>, name: &str) -> (r: Option<
    &'a StructuredValue,
>)
    ensures
        match r {
            Some(x) => object_get(outputs_view(outputs@), name@) == Some(x@),
            None => object_get(outputs_view(outputs@), name@) is None,
        },
{
    let ghost o = outputs_view(outputs@);
    let mut i: usize = 0;
    proof {
        assert(o.skip(0) =~= o);
    }
    while i < outputs.len()
        invariant
            i <= outputs.len(),
            o == outputs_view(outputs@),
            o.len() == outputs@.len(),
            object_get(o.skip(i as int), name@) == object_get(o, name@),
        decreases outputs.len() - i,
    {
        if str_eq(outputs[i].0.as_str(), name) {
            proof {
                assert(o.skip(i as int)[0] == o[i as int]);
                assert(object_get(o.skip(i as int), name@) == Some(o[i as int].1));
            }
            return Some(&outputs[i].1);
        }
        proof {
            assert(o.skip(i as int)[0] == o[i as int]);
            assert(o.skip(i as int).drop_first() =~= o.skip(i + 1 as int));
        }
        i = i + 1;
    }
    proof {
        assert(o.skip(outputs@.len() as int) =~= Seq::<(Seq<char>, SpecValue)>::empty());
    }
    None
}

/// Looks a key up in an object's entries (first entry wins).
fn get_entry<'a>(entries: &'a Vec<(String, StructuredValue)>, key: &str) -> (r: Option<
    &'a StructuredValue,
>)
    ensures
        match r {
            Some(x) => object_get(outputs_view(entries@), key@) == Some(x@),
            None => object_get(outputs_view(entries@), key@) is None,
        },
{
    get_output(entries, key)
}

/// Walks the dot path `path[from..]` into `root`.
fn walk_path_from<'a>(root: &'a StructuredValue, path: &str, from: usize) -> (r: Option<
    &'a StructuredValue,
>)
    requires
        from <= path@.len(),
    ensures
        match r {
            Some(x) => walk_path(root@, path@.skip(from as int)) == Some(x@),
            None => walk_path(root@, path@.skip(from as int)) is None,
        },
    decreases path@.len() - from,
{
    let ghost t = path@.skip(from as int);
    let d = scan_char(path, from, '.');
    proof {
        assert(forall|k: int| 0 <= k < t.len() ==> t[k] == path@[k + from]);
        lemma_find_char(path@, from as int, '.');
        lemma_find_char_is(t, 0, '.', find_char(path@, from as int, '.') - from);
    }
    match root {
        StructuredValue::Object(entries) => {
            let key = path.substring_char(from, d);
            proof {
                assert(key@ =~= t.subrange(0, find_char(t, 0, '.')));
                assert(root@->Object_0 == outputs_view(entries@)) by {
                    assert(root@->Object_0 =~= outputs_view(entries@));
                }
            }
            match get_entry(entries, key) {
                Some(x) => {
                    let len = path.unicode_len();
                    if d == len {
                        Some(x)
                    } else {
                        let r = walk_path_from(x, path, d + 1);
                        proof {
                            assert(t.subrange(find_char(t, 0, '.') + 1, t.len() as int)
                                =~= path@.skip(d + 1 as int));
                        }
                        r
                    }
                },
                None => None,
            }
        },
        _ => None,
    }
}

/// Resolves one text: every valid, resolvable reference is replaced by
/// the looked-up value's rendered form; all other text is kept.
fn resolve_text_exec(s: &str, outputs: &Vec<(String, StructuredValue)>) -> (r: String)
    requires
        outputs_blobs_fit(outputs_view(outputs@)),
    ensures
        r@ == resolve_text(s@, outputs_view(outputs@)),
{
    let ghost o = outputs_view(outputs@);
    let len = s.unicode_len();
    let mut out = String::new();
    let mut i: usize = 0;
    proof {
        assert(s@.skip(0) =~= s@);
    }
    while i < len
        invariant
            i <= len,
            len == s@.len(),
            o == outputs_view(outputs@),
            outputs_blobs_fit(o),
            resolve_text(s@, o) == out@ + resolve_text(s@.skip(i as int), o),
        decreases len - i,
    {
        let ghost t = s@.skip(i as int);
        let ghost pre = out@;
        match match_close_at(s, i) {
            Some(j) => {
                let body = s.substring_char(i + 2, j);
                proof {
                    assert(body@ =~= match_body(t)) by {
                        assert(forall|k: int| 0 <= k < t.len() ==> t[k] == s@[k + i]);
                        assert(body@ =~= s@.subrange(i + 2 as int, j as int));
                    }
                }
                let mut replaced = false;
                match OutputReference::parse(body) {
                    Some(or) => {
                        match get_output(outputs, or.resource_name.as_str()) {
                            Some(root) => {
                                match walk_path_from(root, or.property_path.as_str(), 0) {
                                    Some(val) => {
                                        proof {
                                            assert(or.property_path@.skip(0)
                                                =~= or.property_path@);
                                            lemma_object_get_is_entry(o, or.resource_name@);
                                            assert(blobs_fit(root@));
                                            lemma_walk_blobs_fit(root@, or.property_path@);
                                            assert(subst_body(match_body(t), o) == Some(
                                                rendered(val@),
                                            ));
                                        }
                                        let rep = rendered_text(val);
                                        out.append(rep.as_str());
                                        replaced = true;
                                    },
                                    None => {
                                        proof {
                                            assert(or.property_path@.skip(0)
                                                =~= or.property_path@);
                                            assert(subst_body(match_body(t), o) is None);
                                        }
                                    },
                                }
                            },
                            None => {
                                proof {
                                    assert(subst_body(match_body(t), o) is None);
                                }
                            },
                        }
                    },
                    None => {
                        proof {
                            assert(subst_body(match_body(t), o) is None);
                        }
                    },
                }
                if !replaced {
                    let span = s.substring_char(i, j + 1);
                    out.append(span);
                    proof {
                        assert(span@ =~= t.subrange(0, match_end(t))) by {
                            assert(forall|k: int| 0 <= k < t.len() ==> t[k] == s@[k + i]);
                            assert(span@ =~= s@.subrange(i as int, j + 1 as int));
                        }
                    }
                }
                proof {
                    assert(t.skip(match_end(t)) =~= s@.skip(j + 1 as int));
                    assert(resolve_text(t, o) == (match subst_body(match_body(t), o) {
                        Some(rep) => rep,
                        None => t.subrange(0, match_end(t)),
                    }) + resolve_text(s@.skip(j + 1 as int), o));
    let piece = (match subst_body(match_body(t), o) {
                        Some(rep) => rep,
                        None => t.subrange(0, match_end(t)),
                    });
                    assert(out@ =~= pre + piece);
                    assert(pre + (piece + resolve_text(s@.skip(j + 1 as int), o)) =~= (pre + piece)
                        + resolve_text(s@.skip(j + 1 as int), o));
                }
                i = j + 1;
            },
            None => {
                push_char(&mut out, s.get_char(i));
                proof {
                    assert(t.drop_first() =~= s@.skip(i + 1 as int));
                    assert(resolve_text(t, o) == seq![t[0]] + resolve_text(
                        s@.skip(i + 1 as int),
                        o,
                    ));
                    assert(pre + (seq![s@[i as int]] + resolve_text(s@.skip(i + 1 as int), o)) =~= (
                    pre + seq![s@[i as int]]) + resolve_text(s@.skip(i + 1 as int), o));
                    assert(pre + seq![s@[i as int]] =~= out@);
                }
                i = i + 1;
            },
        }
    }
    proof {
        assert(s@.skip(len as int) =~= Seq::<char>::empty());
        assert(resolve_text(s@.skip(len as int), o) =~= Seq::<char>::empty());
        assert(out@ + Seq::<char>::empty() =~= out@);
    }
    out
}

/// Resolves every string leaf of a tree against the outputs table,
/// copying the rest of the structure unchanged.  Unresolvable
/// references are left as their literal text; resolution never fails.
pub fn resolve_output_references(
    value: &StructuredValue,
    outputs: &Vec<(String, StructuredValue)>,
) -> (r: StructuredValue)
    requires
        outputs_blobs_fit(outputs_view(outputs@)),
    ensures
        r@ == resolve_value(value@, outputs_view(outputs@)),
    decreases *value,
{
    let ghost o = outputs_view(outputs@);
    match value {
        StructuredValue::Null => StructuredValue::Null,
        StructuredValue::Bool(b) => StructuredValue::Bool(*b),
        StructuredValue::Int(i) => StructuredValue::Int(*i),
        StructuredValue::Double(bits) => StructuredValue::Double(*bits),
        StructuredValue::Blob(b) => {
            let copy = b.clone();
            proof {
                assert(copy@ =~= b@);
            }
            StructuredValue::Blob(copy)
        },
        StructuredValue::Str(s) => StructuredValue::Str(resolve_text_exec(s.as_str(), outputs)),
        StructuredValue::List(items) => {
            let ghost lv = value@->List_0;
            let mut out: Vec<StructuredValue> = Vec::new();
            let mut k: usize = 0;
            while k < items.len()
                invariant
                    *value == StructuredValue::List(*items),
                    lv == value@->List_0,
                    o == outputs_view(outputs@),
                    outputs_blobs_fit(o),
                    k <= items.len(),
                    lv.len() == items@.len(),
                    out@.len() == k as int,
                    forall|j: int| 0 <= j < k ==> out@[j]@ == resolve_value(lv[j], o),
                decreases items.len() - k,
            {
                proof {
                    assert(decreases_to!(*value => value->List_0));
                    assert(value->List_0 == *items);
                    assert(decreases_to!(*items => items[k as int]));
                    assert(decreases_to!(*value => items[k as int]));
                    assert(lv[k as int] == items@[k as int]@);
                }
                out.push(resolve_output_references(&items[k], outputs));
                k = k + 1;
            }
            let res = StructuredValue::List(out);
            proof {
                assert(res@->List_0 =~= resolve_value(value@, o)->List_0);
            }
            res
        },
        StructuredValue::Object(entries) => {
            let ghost ev = value@->Object_0;
            let mut out: Vec<(String, StructuredValue)> = Vec::new();
            let mut k: usize = 0;
            while k < entries.len()
                invariant
                    *value == StructuredValue::Object(*entries),
                    ev == value@->Object_0,
                    o == outputs_view(outputs@),
                    outputs_blobs_fit(o),
                    k <= entries.len(),
                    ev.len() == entries@.len(),
                    out@.len() == k as int,
                    forall|j: int| 0 <= j < k ==> out@[j].0@ == ev[j].0 && out@[j].1@
                        == resolve_value(ev[j].1, o),
                decreases entries.len() - k,
            {
                proof {
                    assert(decreases_to!(*value => value->Object_0));
                    assert(value->Object_0 == *entries);
                    assert(decreases_to!(*entries => entries[k as int]));
                    assert(decreases_to!(entries[k as int] => entries[k as int].1));
                    assert(decreases_to!(*value => entries[k as int].1));
                    assert(ev[k as int] == (entries@[k as int].0@, entries@[k as int].1@));
                }
                let key = entries[k].0.clone();
                let rv = resolve_output_references(&entries[k].1, outputs);
                out.push((key, rv));
                k = k + 1;
            }
            let res = StructuredValue::Object(out);
            proof {
                assert(res@->Object_0 =~= resolve_value(value@, o)->Object_0);
            }
            res
        },
    }
}

/// No substitution applies anywhere in `s`: every match is either an
/// invalid reference or one whose lookup fails.
pub open spec fn no_subst(s: Seq<char>, outputs: Seq<(Seq<char>, SpecValue)>) -> bool
    decreases s.len(),
{
    if s.len() == 0 {
        true
    } else if match_at(s) {
        subst_body(match_body(s), outputs) is None && no_subst(s.skip(match_end(s)), outputs)
    } else {
        no_subst(s.drop_first(), outputs)
    }
}

/// Law: resolution never touches text in which no substitution applies;
/// in particular it never errors and never replaces an unresolvable or
/// invalid reference.
pub proof fn lemma_no_subst_identity(s: Seq<char>, outputs: Seq<(Seq<char>, SpecValue)>)
    requires
        no_subst(s, outputs),
    ensures
        resolve_text(s, outputs) == s,
    decreases s.len(),
{
    if s.len() == 0 {
    } else if match_at(s) {
        let e = match_end(s);
        lemma_no_subst_identity(s.skip(e), outputs);
        assert(resolve_text(s, outputs) =~= s.subrange(0, e) + s.skip(e));
        assert(s.subrange(0, e) + s.skip(e) =~= s);
    } else {
        lemma_no_subst_identity(s.drop_first(), outputs);
        assert(resolve_text(s, outputs) =~= seq![s[0]] + s.drop_first());
        assert(seq![s[0]] + s.drop_first() =~= s);
    }
}

/// Law: resolving the single unresolvable reference `${missing.x}`
/// against any outputs table that lacks the resource `missing` returns
/// the literal text unchanged; resolution never errors.
pub proof fn lemma_unresolvable_reference(outputs: Seq<(Seq<char>, SpecValue)>)
    requires
        object_get(outputs, "missing"@) is None,
    ensures
        resolve_text("${missing.x}"@, outputs) == "${missing.x}"@,
{
    reveal_strlit("${missing.x}");
    reveal_strlit("missing");
    let s = "${missing.x}"@;
    assert(s.len() == 12);
    lemma_find_char_is(s, 2, '}', 11);
    assert(match_at(s));
    let body = match_body(s);
    lemma_find_char_is(body, 0, '.', 7);
    assert(ref_name(body) =~= "missing"@);
    assert(subst_body(body, outputs) is None);
    assert(s.skip(match_end(s)) =~= Seq::<char>::empty());
    assert(no_subst(Seq::<char>::empty(), outputs));
    assert(no_subst(s.skip(match_end(s)), outputs));
    assert(no_subst(s, outputs));
    lemma_no_subst_identity(s, outputs);
}

/// Law: a placeholder whose body has no dot is not a reference: it is
/// never substituted, whatever the outputs hold.
pub proof fn lemma_single_segment_not_substituted(outputs: Seq<(Seq<char>, SpecValue)>)
    ensures
        resolve_text("${onlyname}"@, outputs) == "${onlyname}"@,
{
    reveal_strlit("${onlyname}");
    let s = "${onlyname}"@;
    assert(s.len() == 11);
    lemma_find_char_is(s, 2, '}', 10);
    assert(match_at(s));
    let body = match_body(s);
    lemma_find_char_is(body, 0, '.', body.len() as int);
    lemma_dot_segments_len(body);
    assert(dot_segments(body).len() == 1);
    assert(!valid_ref_body(body));
    assert(subst_body(body, outputs) is None);
    assert(s.skip(match_end(s)) =~= Seq::<char>::empty());
    assert(no_subst(Seq::<char>::empty(), outputs));
    assert(no_subst(s.skip(match_end(s)), outputs));
    assert(no_subst(s, outputs));
    lemma_no_subst_identity(s, outputs);
}

/// Law: a placeholder whose body has no dot is never reported by
/// discovery.
pub proof fn lemma_single_segment_not_reported()
    ensures
        find_refs_text("${onlyname}"@) == Seq::<(Seq<char>, Seq<char>)>::empty(),
{
    reveal_strlit("${onlyname}");
    let s = "${onlyname}"@;
    assert(s.len() == 11);
    lemma_find_char_is(s, 2, '}', 10);
    assert(match_at(s));
    let body = match_body(s);
    lemma_find_char_is(body, 0, '.', body.len() as int);
    lemma_dot_segments_len(body);
    assert(dot_segments(body).len() == 1);
    assert(!valid_ref_body(body));
    assert(s.skip(match_end(s)) =~= Seq::<char>::empty());
    assert(find_refs_text(s.skip(match_end(s))) =~= Seq::<(Seq<char>, Seq<char>)>::empty());
    assert(found_ref(body) =~= Seq::<(Seq<char>, Seq<char>)>::empty());
    assert(find_refs_text(s) == found_ref(body) + find_refs_text(s.skip(match_end(s))));
    assert(found_ref(body) + find_refs_text(s.skip(match_end(s))) =~= Seq::<
        (Seq<char>, Seq<char>),
    >::empty());
}

/// Text that can be spliced into a host string without creating or
/// destroying matches around it: non-empty, with none of `$`, `{`, `}`.
pub open spec fn inert(t: Seq<char>) -> bool {
    &&& t.len() > 0
    &&& forall|i: int| 0 <= i < t.len() ==> t[i] != '$' && t[i] != '{' && t[i] != '}'
}

/// Every value that any reference can look up in `outputs` renders as
/// inert text.
pub open spec fn outputs_render_inert(outputs: Seq<(Seq<char>, SpecValue)>) -> bool {
    forall|name: Seq<char>, path: Seq<char>|
        (#[trigger] lookup_ref(outputs, name, path)) matches Some(v) ==> inert(rendered(v))
}

/// A prefix free of `$` passes through resolution untouched.
proof fn lemma_resolve_prefix_no_dollar(
    a: Seq<char>,
    b: Seq<char>,
    o: Seq<(Seq<char>, SpecValue)>,
)
    requires
        forall|i: int| 0 <= i < a.len() ==> a[i] != '$',
    ensures
        resolve_text(a + b, o) == a + resolve_text(b, o),
    decreases a.len(),
{
    if a.len() == 0 {
        assert(a + b =~= b);
        assert(a + resolve_text(b, o) =~= resolve_text(b, o));
    } else {
        let s = a + b;
        assert(s[0] == a[0]);
        assert(!match_at(s));
        assert(s.drop_first() =~= a.drop_first() + b);
        lemma_resolve_prefix_no_dollar(a.drop_first(), b, o);
        assert(resolve_text(s, o) == seq![s[0]] + (a.drop_first() + resolve_text(b, o)));
        assert(seq![s[0]] + (a.drop_first() + resolve_text(b, o)) =~= a + resolve_text(b, o));
    }
}

/// Text without a closing brace holds no match and resolves to itself.
proof fn lemma_resolve_no_close(s: Seq<char>, o: Seq<(Seq<char>, SpecValue)>)
    requires
        forall|i: int| 0 <= i < s.len() ==> s[i] != '}',
    ensures
        resolve_text(s, o) == s,
    decreases s.len(),
{
    if s.len() > 0 {
        if s.len() >= 2 {
            lemma_find_char(s, 2, '}');
            assert(!match_at(s));
        }
        lemma_resolve_no_close(s.drop_first(), o);
        assert(resolve_text(s, o) == seq![s[0]] + s.drop_first());
        assert(seq![s[0]] + s.drop_first() =~= s);
    }
}

/// The first character of resolved text: either the original first
/// character, or an inert one from a substitution.
proof fn lemma_resolve_first(s: Seq<char>, o: Seq<(Seq<char>, SpecValue)>)
    requires
        outputs_render_inert(o),
        s.len() > 0,
    ensures
        resolve_text(s, o).len() > 0,
        resolve_text(s, o)[0] == s[0] || (resolve_text(s, o)[0] != '$' && resolve_text(s, o)[0]
            != '{' && resolve_text(s, o)[0] != '}'),
{
    if match_at(s) {
        let body = match_body(s);
        match subst_body(body, o) {
            Some(rep) => {
                assert(lookup_ref(o, ref_name(body), ref_path(body)) is Some);
                let val = lookup_ref(o, ref_name(body), ref_path(body))->Some_0;
                assert(inert(rendered(val)));
                assert(rep == rendered(val));
                assert(resolve_text(s, o)[0] == rep[0]);
            },
            None => {
                assert(resolve_text(s, o)[0] == s.subrange(0, match_end(s))[0]);
                assert(s.subrange(0, match_end(s))[0] == s[0]);
            },
        }
    } else {
        assert(resolve_text(s, o)[0] == s[0]);
    }
}

/// Law: resolution is idempotent on texts, provided every value the
/// outputs can deliver renders as non-empty text free of `$`, `{` and
/// `}`.  (A rendered value containing such characters can splice into
/// the surrounding text and form a new reference, which a second pass
/// would then substitute.)
pub proof fn lemma_resolve_idempotent_text(s: Seq<char>, o: Seq<(Seq<char>, SpecValue)>)
    requires
        outputs_render_inert(o),
    ensures
        resolve_text(resolve_text(s, o), o) == resolve_text(s, o),
    decreases s.len(),
{
    let r1 = resolve_text(s, o);
    if s.len() == 0 {
    } else if match_at(s) {
        let e = match_end(s);
        let rest = s.skip(e);
        lemma_resolve_idempotent_text(rest, o);
        let y = resolve_text(rest, o);
        let body = match_body(s);
        match subst_body(body, o) {
            Some(rep) => {
                assert(lookup_ref(o, ref_name(body), ref_path(body)) is Some);
                let val = lookup_ref(o, ref_name(body), ref_path(body))->Some_0;
                assert(inert(rendered(val)));
                assert(rep == rendered(val));
                assert(r1 == rep + y);
                lemma_resolve_prefix_no_dollar(rep, y, o);
            },
            None => {
                let span = s.subrange(0, e);
                assert(r1 == span + y);
                let s2 = span + y;
                lemma_find_char(s, 2, '}');
                let fc = find_char(s, 2, '}');
                assert(forall|k: int| 0 <= k < e ==> s2[k] == s[k]);
                assert(s2[0] == '$' && s2[1] == '{');
                assert(forall|k: int| 2 <= k < fc ==> s2[k] != '}');
                assert(s2[fc] == '}');
                lemma_find_char_is(s2, 2, '}', fc);
                assert(match_at(s2));
                assert(match_end(s2) == e);
                assert(match_body(s2) =~= body);
                assert(s2.skip(e) =~= y);
                assert(resolve_text(s2, o) == s2.subrange(0, e) + resolve_text(y, o));
                assert(s2.subrange(0, e) =~= span);
                assert(resolve_text(s2, o) == span + y);
            },
        }
    } else {
        let t = s.drop_first();
        lemma_resolve_idempotent_text(t, o);
        let y = resolve_text(t, o);
        assert(r1 == seq![s[0]] + y);
        assert(r1[0] == s[0]);
        assert(r1.drop_first() =~= y);
        if s[0] != '$' {
            assert(!match_at(r1));
            assert(resolve_text(r1, o) == seq![r1[0]] + y);
            assert(seq![r1[0]] + y =~= r1);
        } else if s.len() == 1 {
            assert(r1.len() == 1);
            assert(!match_at(r1));
            assert(resolve_text(r1, o) == seq![r1[0]] + resolve_text(r1.drop_first(), o));
            assert(resolve_text(r1, o) =~= r1);
        } else if s[1] != '{' {
            assert(t.len() > 0);
            assert(t[0] == s[1]);
            lemma_resolve_first(t, o);
            assert(y[0] != '{');
            assert(r1[1] == y[0]);
            assert(!match_at(r1));
            assert(resolve_text(r1, o) == seq![r1[0]] + y);
            assert(seq![r1[0]] + y =~= r1);
        } else {
            lemma_find_char(s, 2, '}');
            let fc = find_char(s, 2, '}');
            assert(fc == 2 || fc >= s.len());
            if fc >= s.len() {
                assert(forall|k: int| 0 <= k < t.len() ==> t[k] != '}');
                lemma_resolve_no_close(t, o);
                assert(y == t);
                assert(r1 =~= s);
                assert(resolve_text(r1, o) == r1);
            } else {
                assert(s[2] == '}');
                assert(t[0] == '{');
                assert(!match_at(t));
                let u = t.drop_first();
                assert(y == seq![t[0]] + resolve_text(u, o));
                let z = resolve_text(u, o);
                assert(u[0] == '}');
                assert(!match_at(u));
                assert(z == seq![u[0]] + resolve_text(u.drop_first(), o));
                assert(z[0] == '}');
                assert(r1[1] == '{' && r1[2] == '}');
                lemma_find_char_is(r1, 2, '}', 2);
                assert(!match_at(r1));
                assert(resolve_text(r1, o) == seq![r1[0]] + y);
                assert(seq![r1[0]] + y =~= r1);
            }
        }
    }
}

/// Law: resolution is idempotent on whole trees, under the same
/// condition on the outputs.
pub proof fn lemma_resolve_idempotent(v: SpecValue, o: Seq<(Seq<char>, SpecValue)>)
    requires
        outputs_render_inert(o),
    ensures
        resolve_value(resolve_value(v, o), o) == resolve_value(v, o),
    decreases v,
{
    let r1 = resolve_value(v, o);
    match v {
        SpecValue::Str(s) => {
            lemma_resolve_idempotent_text(s, o);
        },
        SpecValue::List(items) => {
            let items1 = r1->List_0;
            assert forall|i: int| 0 <= i < items.len() implies resolve_value(
                #[trigger] items1[i],
                o,
            ) == items1[i] by {
                assert(items1[i] == resolve_value(items[i], o));
                lemma_resolve_idempotent(items[i], o);
            }
            assert(resolve_value(r1, o)->List_0 =~= items1);
        },
        SpecValue::Object(entries) => {
            let entries1 = r1->Object_0;
            assert forall|i: int| 0 <= i < entries.len() implies resolve_value(
                (#[trigger] entries1[i]).1,
                o,
            ) == entries1[i].1 by {
                assert(entries1[i] == (entries[i].0, resolve_value(entries[i].1, o)));
                lemma_resolve_idempotent(entries[i].1, o);
            }
            assert(resolve_value(r1, o)->Object_0 =~= entries1);
        },
        _ => {},
    }
}

/// One reported pair is well-formed: non-empty name, non-empty path.
pub open spec fn wf_ref(p: (Seq<char>, Seq<char>)) -> bool {
    p.0.len() > 0 && p.1.len() > 0
}

proof fn lemma_found_ref_wf(body: Seq<char>)
    ensures
        forall|i: int| 0 <= i < found_ref(body).len() ==> wf_ref(#[trigger] found_ref(body)[i]),
{
    if valid_ref_body(body) {
        lemma_valid_ref_body(body);
        lemma_find_char(body, 0, '.');
        let d = find_char(body, 0, '.');
        assert(d < body.len() && segs_nonempty(body));
        assert(d > 0);
        assert(ref_name(body).len() == d);
        let rest = body.subrange(d + 1, body.len() as int);
        lemma_find_char(rest, 0, '.');
        assert(rest.len() > 0) by {
            let drest = find_char(rest, 0, '.');
            if !(0 <= drest < rest.len()) {
                assert(segs_nonempty(rest));
            }
        }
        assert(ref_path(body).len() == rest.len());
    }
}

/// Law: discovery never reports a reference with an empty resource name
/// or an empty property path; in particular a placeholder without a dot
/// is never reported.
pub proof fn lemma_reported_refs_wf_text(s: Seq<char>)
    ensures
        forall|i: int|
            0 <= i < find_refs_text(s).len() ==> wf_ref(#[trigger] find_refs_text(s)[i]),
    decreases s.len(),
{
    if s.len() == 0 {
    } else if match_at(s) {
        let head = found_ref(match_body(s));
        let tail = find_refs_text(s.skip(match_end(s)));
        lemma_found_ref_wf(match_body(s));
        lemma_reported_refs_wf_text(s.skip(match_end(s)));
        assert forall|i: int| 0 <= i < find_refs_text(s).len() implies wf_ref(
            #[trigger] find_refs_text(s)[i],
        ) by {
            if i < head.len() {
                assert(find_refs_text(s)[i] == head[i]);
            } else {
                assert(find_refs_text(s)[i] == tail[i - head.len()]);
            }
        }
    } else {
        lemma_reported_refs_wf_text(s.drop_first());
        assert(find_refs_text(s) == find_refs_text(s.drop_first()));
    }
}

/// Law: the same holds across whole trees.
pub proof fn lemma_reported_refs_wf(v: SpecValue)
    ensures
        forall|i: int|
            0 <= i < find_refs_value(v).len() ==> wf_ref(#[trigger] find_refs_value(v)[i]),
    decreases v, 0int,
{
    match v {
        SpecValue::Str(s) => {
            lemma_reported_refs_wf_text(s);
            assert(find_refs_value(v) == find_refs_text(s));
        },
        SpecValue::List(items) => {
            lemma_reported_refs_wf_list(items);
            assert(find_refs_value(v) == find_refs_list(items));
        },
        SpecValue::Object(entries) => {
            lemma_reported_refs_wf_entries(entries);
            assert(find_refs_value(v) == find_refs_entries(entries));
        },
        _ => {},
    }
}

proof fn lemma_reported_refs_wf_list(items: Seq<SpecValue>)
    ensures
        forall|i: int|
            0 <= i < find_refs_list(items).len() ==> wf_ref(#[trigger] find_refs_list(items)[i]),
    decreases items, 1int,
{
    if items.len() > 0 {
        let head = find_refs_value(items[0]);
        let tail = find_refs_list(items.drop_first());
        lemma_reported_refs_wf(items[0]);
        lemma_reported_refs_wf_list(items.drop_first());
        assert forall|i: int| 0 <= i < find_refs_list(items).len() implies wf_ref(
            #[trigger] find_refs_list(items)[i],
        ) by {
            if i < head.len() {
                assert(find_refs_list(items)[i] == head[i]);
            } else {
                assert(find_refs_list(items)[i] == tail[i - head.len()]);
            }
        }
    }
}

proof fn lemma_reported_refs_wf_entries(entries: Seq<(Seq<char>, SpecValue)>)
    ensures
        forall|i: int|
            0 <= i < find_refs_entries(entries).len() ==> wf_ref(
                #[trigger] find_refs_entries(entries)[i],
            ),
    decreases entries, 1int,
{
    if entries.len() > 0 {
        let head = find_refs_value(entries[0].1);
        let tail = find_refs_entries(entries.drop_first());
        lemma_reported_refs_wf(entries[0].1);
        lemma_reported_refs_wf_entries(entries.drop_first());
        assert forall|i: int| 0 <= i < find_refs_entries(entries).len() implies wf_ref(
            #[trigger] find_refs_entries(entries)[i],
        ) by {
            if i < head.len() {
                assert(find_refs_entries(entries)[i] == head[i]);
            } else {
                assert(find_refs_entries(entries)[i] == tail[i - head.len()]);
            }
        }
    }
}

} // verus!
