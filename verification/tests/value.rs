use pulumist::value::StructuredValue;

fn s(text: &str) -> String {
    text.to_string()
}

fn sv(text: &str) -> StructuredValue {
    StructuredValue::Str(s(text))
}

#[test]
fn deep_eq_distinguishes_values() {
    let a = StructuredValue::Object(vec![
        (s("k"), StructuredValue::List(vec![StructuredValue::Int(1), sv("x")])),
        (s("b"), StructuredValue::Bool(true)),
    ]);
    let same = StructuredValue::Object(vec![
        (s("k"), StructuredValue::List(vec![StructuredValue::Int(1), sv("x")])),
        (s("b"), StructuredValue::Bool(true)),
    ]);
    assert!(a.deep_eq(&same));
    let different_leaf = StructuredValue::Object(vec![
        (s("k"), StructuredValue::List(vec![StructuredValue::Int(2), sv("x")])),
        (s("b"), StructuredValue::Bool(true)),
    ]);
    assert!(!a.deep_eq(&different_leaf));
    let different_key = StructuredValue::Object(vec![
        (s("q"), StructuredValue::List(vec![StructuredValue::Int(1), sv("x")])),
        (s("b"), StructuredValue::Bool(true)),
    ]);
    assert!(!a.deep_eq(&different_key));
    let different_shape = StructuredValue::List(vec![]);
    assert!(!a.deep_eq(&different_shape));
    assert!(!StructuredValue::Null.deep_eq(&StructuredValue::Bool(false)));
    assert!(StructuredValue::Blob(vec![1, 2]).deep_eq(&StructuredValue::Blob(vec![1, 2])));
    assert!(!StructuredValue::Blob(vec![1, 2]).deep_eq(&StructuredValue::Blob(vec![1, 3])));
}

#[test]
fn clone_preserves_trees() {
    let v = StructuredValue::Object(vec![
        (
            s("list"),
            StructuredValue::List(vec![sv("a"), StructuredValue::Double(0x3FF0000000000000)]),
        ),
        (s("blob"), StructuredValue::Blob(vec![9, 8, 7])),
    ]);
    let copy = v.clone();
    assert!(v.deep_eq(&copy));
}
