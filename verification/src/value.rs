//! The recursive tagged-union value type carried across the runtime
//! boundary, together with its mathematical model.
//!
//! A `StructuredValue` is a JSON-like tree: strings, 64-bit integers,
//! 64-bit floating-point numbers (held as their IEEE 754 bit pattern),
//! booleans, ordered lists, ordered string-keyed maps, byte blobs, and
//! null.  Its model, `SpecValue`, replaces each executable component by
//! its view (`Seq<char>`, `Seq<u8>`, `int`, ...).

use vstd::prelude::*;

verus! {

broadcast use vstd::std_specs::vec::group_vec_axioms, vstd::seq::group_seq_axioms;

/// A JSON-like tree value.  Floating-point numbers are carried as their
/// IEEE 754 double-precision bit pattern; map entries keep their order.
#[derive(Debug)]
pub enum StructuredValue {
    Null,
    Bool(bool),
    Int(i64),
    Double(u64),
    Str(String),
    Blob(Vec<u8>),
    List(Vec<StructuredValue>),
    Object(Vec<(String, StructuredValue)>),
}

/// The mathematical model of a `StructuredValue`.
#[verifier::ext_equal]
pub enum SpecValue {
    Null,
    Bool(bool),
    Int(int),
    Double(u64),
    Str(Seq<char>),
    Blob(Seq<u8>),
    List(Seq<SpecValue>),
    Object(Seq<(Seq<char>, SpecValue)>),
}

pub open spec fn spec_value_of(v: StructuredValue) -> SpecValue
    decreases v,
{
    match v {
        StructuredValue::Null => SpecValue::Null,
        StructuredValue::Bool(b) => SpecValue::Bool(b),
        StructuredValue::Int(i) => SpecValue::Int(i as int),
        StructuredValue::Double(bits) => SpecValue::Double(bits),
        StructuredValue::Str(s) => SpecValue::Str(s@),
        StructuredValue::Blob(b) => SpecValue::Blob(b@),
        StructuredValue::List(items) => SpecValue::List(
            Seq::new(items@.len(), |i: int|
                if 0 <= i < items@.len() {
                    spec_value_of(items@[i])
                } else {
                    SpecValue::Null
                }),
        ),
        StructuredValue::Object(entries) => SpecValue::Object(
            Seq::new(entries@.len(), |i: int|
                if 0 <= i < entries@.len() {
                    (entries@[i].0@, spec_value_of(entries@[i].1))
                } else {
                    (Seq::empty(), SpecValue::Null)
                }),
        ),
    }
}

impl View for StructuredValue {
    type V = SpecValue;

    open spec fn view(&self) -> SpecValue {
        spec_value_of(*self)
    }
}

/// The value stored under `key` in an ordered list of object entries:
/// the first entry with that key wins.
pub open spec fn object_get(entries: Seq<(Seq<char>, SpecValue)>, key: Seq<char>) -> Option<
    SpecValue,
>
    decreases entries.len(),
{
    if entries.len() == 0 {
        None
    } else if entries[0].0 == key {
        Some(entries[0].1)
    } else {
        object_get(entries.drop_first(), key)
    }
}


/// The models of a sequence of values.
pub open spec fn values_view(s: Seq<StructuredValue>) -> Seq<SpecValue> {
    Seq::new(s.len(), |i: int|
        if 0 <= i < s.len() {
            s[i]@
        } else {
            SpecValue::Null
        })
}

/// The models of a sequence of key/value entries.
pub open spec fn entries_view(s: Seq<(String, StructuredValue)>) -> Seq<(Seq<char>, SpecValue)> {
    Seq::new(s.len(), |i: int|
        if 0 <= i < s.len() {
            (s[i].0@, s[i].1@)
        } else {
            (Seq::<char>::empty(), SpecValue::Null)
        })
}


/// Indexing the model of a list goes through the element's own model.
pub broadcast proof fn lemma_list_view_index(v: StructuredValue, i: int)
    requires
        v is List,
        0 <= i < v->List_0@.len(),
    ensures
        spec_value_of(v)->List_0.len() == v->List_0@.len(),
        #[trigger] spec_value_of(v)->List_0[i] == spec_value_of(v->List_0@[i]),
{
}

/// Indexing the model of an object goes through the entry's own model.
pub broadcast proof fn lemma_object_view_index(v: StructuredValue, i: int)
    requires
        v is Object,
        0 <= i < v->Object_0@.len(),
    ensures
        spec_value_of(v)->Object_0.len() == v->Object_0@.len(),
        #[trigger] spec_value_of(v)->Object_0[i] == (
            v->Object_0@[i].0@,
            spec_value_of(v->Object_0@[i].1),
        ),
{
}


/// The model of a list's elements is the sequence of element models.
pub broadcast proof fn lemma_list_view_values(v: StructuredValue)
    requires
        v is List,
    ensures
        #[trigger] spec_value_of(v)->List_0 == values_view(v->List_0@),
{
    assert forall|i: int| 0 <= i < v->List_0@.len() implies spec_value_of(v)->List_0[i]
        == values_view(v->List_0@)[i] by {
        lemma_list_view_index(v, i);
    }
    assert(spec_value_of(v)->List_0 =~= values_view(v->List_0@));
}

/// The model of an object's entries is the sequence of entry models.
pub broadcast proof fn lemma_object_view_entries(v: StructuredValue)
    requires
        v is Object,
    ensures
        #[trigger] spec_value_of(v)->Object_0 == entries_view(v->Object_0@),
{
    assert forall|i: int| 0 <= i < v->Object_0@.len() implies spec_value_of(v)->Object_0[i]
        == entries_view(v->Object_0@)[i] by {
        lemma_object_view_index(v, i);
    }
    assert(spec_value_of(v)->Object_0 =~= entries_view(v->Object_0@));
}

impl Clone for StructuredValue {
    /// Cloning preserves the model exactly.
    fn clone(&self) -> (res: Self)
        ensures
            res@ == self@,
    {
        clone_value(self)
    }
}

fn clone_value(v: &StructuredValue) -> (res: StructuredValue)
    ensures
        res@ == v@,
    decreases *v,
{
    {
        match v {
            StructuredValue::Null => StructuredValue::Null,
            StructuredValue::Bool(b) => StructuredValue::Bool(*b),
            StructuredValue::Int(i) => StructuredValue::Int(*i),
            StructuredValue::Double(bits) => StructuredValue::Double(*bits),
            StructuredValue::Str(s) => StructuredValue::Str(s.clone()),
            StructuredValue::Blob(b) => {
                let copy = b.clone();
                proof {
                    assert(copy@ =~= b@);
                }
                StructuredValue::Blob(copy)
            },
            StructuredValue::List(items) => {
                let mut out: Vec<StructuredValue> = Vec::new();
                let mut i: usize = 0;
                while i < items.len()
                    invariant
                        *v == StructuredValue::List(*items),
                        i <= items.len(),
                        out@.len() == i as int,
                        forall|j: int| 0 <= j < i ==> out@[j]@ == items@[j]@,
                    decreases items.len() - i,
                {
                    proof {
                        assert(decreases_to!(*v => v->List_0));
                        assert(v->List_0 == *items);
                        assert(decreases_to!(*items => items[i as int]));
                        assert(decreases_to!(*v => items[i as int]));
                    }
                    out.push(clone_value(&items[i]));
                    i = i + 1;
                }
                let res = StructuredValue::List(out);
                proof {
                    assert(res@->List_0 =~= v@->List_0);
                }
                res
            },
            StructuredValue::Object(entries) => {
                let mut out: Vec<(String, StructuredValue)> = Vec::new();
                let mut i: usize = 0;
                while i < entries.len()
                    invariant
                        *v == StructuredValue::Object(*entries),
                        i <= entries.len(),
                        out@.len() == i as int,
                        forall|j: int| 0 <= j < i ==> out@[j].0@ == entries@[j].0@ && out@[j].1@
                            == entries@[j].1@,
                    decreases entries.len() - i,
                {
                    proof {
                        assert(decreases_to!(*v => v->Object_0));
                        assert(v->Object_0 == *entries);
                        assert(decreases_to!(*entries => entries[i as int]));
                        assert(decreases_to!(*v => entries[i as int]));
                        assert(decreases_to!(entries[i as int] => entries[i as int].1));
                        assert(decreases_to!(*v => entries[i as int].1));
                    }
                    let (k, v) = &entries[i];
                    out.push((k.clone(), clone_value(v)));
                    i = i + 1;
                }
                let res = StructuredValue::Object(out);
                proof {
                    assert(res@->Object_0 =~= v@->Object_0);
                }
                res
            },
        }
    }
}

impl StructuredValue {
    /// Structural equality of two trees: true exactly when the models
    /// are equal.
    pub fn deep_eq(&self, other: &Self) -> (r: bool)
        ensures
            r == (self@ == other@),
        decreases *self,
    {
        match (self, other) {
            (StructuredValue::Null, StructuredValue::Null) => true,
            (StructuredValue::Bool(a), StructuredValue::Bool(b)) => *a == *b,
            (StructuredValue::Int(a), StructuredValue::Int(b)) => *a == *b,
            (StructuredValue::Double(a), StructuredValue::Double(b)) => *a == *b,
            (StructuredValue::Str(a), StructuredValue::Str(b)) => *a == *b,
            (StructuredValue::Blob(a), StructuredValue::Blob(b)) => {
                if a.len() != b.len() {
                    return false;
                }
                let mut i: usize = 0;
                while i < a.len()
                    invariant
                        *self == StructuredValue::Blob(*a),
                        *other == StructuredValue::Blob(*b),
                        i <= a.len(),
                        a@.len() == b@.len(),
                        forall|j: int| 0 <= j < i ==> a@[j] == b@[j],
                    decreases a.len() - i,
                {
                    if a[i] != b[i] {
                        return false;
                    }
                    i = i + 1;
                }
                proof {
                    assert(a@ =~= b@);
                }
                true
            },
            (StructuredValue::List(a), StructuredValue::List(b)) => {
                if a.len() != b.len() {
                    proof {
                        assert(self@->List_0.len() != other@->List_0.len());
                    }
                    return false;
                }
                let mut i: usize = 0;
                while i < a.len()
                    invariant
                        *self == StructuredValue::List(*a),
                        *other == StructuredValue::List(*b),
                        i <= a.len(),
                        a@.len() == b@.len(),
                        forall|j: int| 0 <= j < i ==> a@[j]@ == b@[j]@,
                    decreases a.len() - i,
                {
                    proof {
                        assert(decreases_to!(*self => (*self)->List_0));
                        assert((*self)->List_0 == *a);
                        assert(decreases_to!(*a => a[i as int]));
                        assert(decreases_to!(*self => a[i as int]));
                    }
                    if !a[i].deep_eq(&b[i]) {
                        proof {
                            assert(self@->List_0[i as int] != other@->List_0[i as int]);
                        }
                        return false;
                    }
                    i = i + 1;
                }
                proof {
                    assert(self@->List_0 =~= other@->List_0);
                }
                true
            },
            (StructuredValue::Object(a), StructuredValue::Object(b)) => {
                if a.len() != b.len() {
                    proof {
                        assert(self@->Object_0.len() != other@->Object_0.len());
                    }
                    return false;
                }
                let mut i: usize = 0;
                while i < a.len()
                    invariant
                        *self == StructuredValue::Object(*a),
                        *other == StructuredValue::Object(*b),
                        i <= a.len(),
                        a@.len() == b@.len(),
                        forall|j: int| 0 <= j < i ==> a@[j].0@ == b@[j].0@ && a@[j].1@ == b@[j].1@,
                    decreases a.len() - i,
                {
                    proof {
                        assert(decreases_to!(*self => (*self)->Object_0));
                        assert((*self)->Object_0 == *a);
                        assert(decreases_to!(*a => a[i as int]));
                        assert(decreases_to!(*self => a[i as int]));
                        assert(decreases_to!(a[i as int] => a[i as int].1));
                        assert(decreases_to!(*self => a[i as int].1));
                    }
                    let keys_eq: bool = a[i].0 == b[i].0;
                    if !keys_eq || !a[i].1.deep_eq(&b[i].1) {
                        proof {
                            assert(self@->Object_0[i as int] != other@->Object_0[i as int]);
                        }
                        return false;
                    }
                    i = i + 1;
                }
                proof {
                    assert(self@->Object_0 =~= other@->Object_0);
                }
                true
            },
            _ => {
                proof {
                    assert(self@ != other@);
                }
                false
            },
        }
    }
}

} // verus!
