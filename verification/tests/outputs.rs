use pulumist::outputs::{find_output_references, resolve_output_references, OutputReference};
use pulumist::value::StructuredValue;

fn s(text: &str) -> String {
    text.to_string()
}

fn sv(text: &str) -> StructuredValue {
    StructuredValue::Str(s(text))
}

fn obj(entries: Vec<(&str, StructuredValue)>) -> StructuredValue {
    StructuredValue::Object(entries.into_iter().map(|(k, v)| (s(k), v)).collect())
}

#[test]
fn test_parse_output_reference() {
    let ref1 = OutputReference::parse("myResource.id").unwrap();
    assert_eq!(ref1.resource_name, "myResource");
    assert_eq!(ref1.property_path, "id");

    let ref2 = OutputReference::parse("myResource.properties.name").unwrap();
    assert_eq!(ref2.resource_name, "myResource");
    assert_eq!(ref2.property_path, "properties.name");
}

#[test]
fn test_find_output_references() {
    let value = obj(vec![
        ("name", sv("${rg.name}")),
        ("location", sv("${rg.location}")),
        ("nested", obj(vec![("id", sv("${storage.id}"))])),
        (
            "array",
            StructuredValue::List(vec![sv("${vm.ip}"), sv("static-value")]),
        ),
    ]);

    let refs = find_output_references(&value);
    assert_eq!(refs.len(), 4);
}

#[test]
fn test_resolve_output_references() {
    let value = obj(vec![
        ("resourceGroupName", sv("${rg.name}")),
        ("location", sv("${rg.location}")),
    ]);

    let mut outputs = Vec::new();
    outputs.push((
        s("rg"),
        obj(vec![
            ("name", sv("my-resource-group")),
            ("location", sv("eastus")),
        ]),
    ));

    let resolved = resolve_output_references(&value, &outputs);
    match &resolved {
        StructuredValue::Object(entries) => {
            assert_eq!(entries.len(), 2);
            assert_eq!(entries[0].0, "resourceGroupName");
            assert!(entries[0].1.deep_eq(&sv("my-resource-group")));
            assert_eq!(entries[1].0, "location");
            assert!(entries[1].1.deep_eq(&sv("eastus")));
        }
        _ => panic!("resolved tree is not an object"),
    }
}

#[test]
fn reference_discovery_order_and_paths() {
    // {"a": "${x.y}", "b": ["${p.q}", "lit"], "c": {"d": "${r.s.t}"}}
    let tree = obj(vec![
        ("a", sv("${x.y}")),
        (
            "b",
            StructuredValue::List(vec![sv("${p.q}"), sv("lit")]),
        ),
        ("c", obj(vec![("d", sv("${r.s.t}"))])),
    ]);
    let refs = find_output_references(&tree);
    assert_eq!(refs.len(), 3);
    assert_eq!(refs[0].resource_name, "x");
    assert_eq!(refs[0].property_path, "y");
    assert_eq!(refs[1].resource_name, "p");
    assert_eq!(refs[1].property_path, "q");
    assert_eq!(refs[2].resource_name, "r");
    assert_eq!(refs[2].property_path, "s.t");
}

#[test]
fn reference_resolution_substitutes_rendered_values() {
    // outputs {"rg": {"name": "my-rg", "location": "eastus"}}
    let outputs = vec![(
        s("rg"),
        obj(vec![("name", sv("my-rg")), ("location", sv("eastus"))]),
    )];
    let tree = obj(vec![("g", sv("${rg.name}")), ("l", sv("${rg.location}"))]);
    let resolved = resolve_output_references(&tree, &outputs);
    let expected = obj(vec![("g", sv("my-rg")), ("l", sv("eastus"))]);
    assert!(resolved.deep_eq(&expected));
}

#[test]
fn unresolvable_reference_is_left_verbatim() {
    let outputs = vec![(s("present"), obj(vec![("x", sv("v"))]))];
    let tree = sv("${missing.x}");
    let resolved = resolve_output_references(&tree, &outputs);
    assert!(resolved.deep_eq(&sv("${missing.x}")));
}

#[test]
fn resolution_is_idempotent() {
    let outputs = vec![(
        s("rg"),
        obj(vec![("name", sv("my-rg")), ("location", sv("eastus"))]),
    )];
    let tree = obj(vec![
        ("g", sv("prefix ${rg.name} suffix")),
        ("keep", sv("${missing.x} and ${rg.location}")),
        ("deep", StructuredValue::List(vec![sv("${rg.name}")])),
    ]);
    let once = resolve_output_references(&tree, &outputs);
    let twice = resolve_output_references(&once, &outputs);
    assert!(twice.deep_eq(&once));
}

#[test]
fn single_segment_placeholder_is_no_reference() {
    let tree = sv("${onlyname}");
    let refs = find_output_references(&tree);
    assert_eq!(refs.len(), 0);

    let outputs = vec![(s("onlyname"), sv("value"))];
    let resolved = resolve_output_references(&tree, &outputs);
    assert!(resolved.deep_eq(&sv("${onlyname}")));
}

#[test]
fn parse_rejects_empty_segments() {
    assert!(OutputReference::parse("onlyname").is_none());
    assert!(OutputReference::parse("").is_none());
    assert!(OutputReference::parse(".path").is_none());
    assert!(OutputReference::parse("name.").is_none());
    assert!(OutputReference::parse("a..b").is_none());
    let ok = OutputReference::parse("a.b").unwrap();
    assert_eq!(ok.resource_name, "a");
    assert_eq!(ok.property_path, "b");
}

#[test]
fn non_string_values_render_canonically() {
    let outputs = vec![(
        s("rg"),
        obj(vec![
            ("count", StructuredValue::Int(42)),
            ("on", StructuredValue::Bool(true)),
            ("nothing", StructuredValue::Null),
            (
                "tags",
                obj(vec![("env", sv("dev"))]),
            ),
        ]),
    )];
    let tree = obj(vec![
        ("c", sv("n=${rg.count}")),
        ("o", sv("${rg.on}")),
        ("z", sv("${rg.nothing}!")),
        ("t", sv("${rg.tags}")),
    ]);
    let resolved = resolve_output_references(&tree, &outputs);
    let expected = obj(vec![
        ("c", sv("n=42")),
        ("o", sv("true")),
        ("z", sv("null!")),
        ("t", sv("{\"env\":\"dev\"}")),
    ]);
    assert!(resolved.deep_eq(&expected));
}

#[test]
fn multiple_references_in_one_leaf_resolve_left_to_right() {
    let outputs = vec![(s("a"), obj(vec![("b", sv("1")), ("c", sv("2"))]))];
    let tree = sv("${a.b}-${a.c}-${a.b}");
    let resolved = resolve_output_references(&tree, &outputs);
    assert!(resolved.deep_eq(&sv("1-2-1")));
}

#[test]
fn deep_path_walks_through_objects_only() {
    let outputs = vec![(
        s("res"),
        obj(vec![(
            "a",
            obj(vec![("b", obj(vec![("c", sv("deep"))]))]),
        )]),
    )];
    let hit = resolve_output_references(&sv("${res.a.b.c}"), &outputs);
    assert!(hit.deep_eq(&sv("deep")));
    // walking into a non-object leaves the reference in place
    let miss = resolve_output_references(&sv("${res.a.b.c.d}"), &outputs);
    assert!(miss.deep_eq(&sv("${res.a.b.c.d}")));
}

#[test]
fn empty_text_and_empty_outputs() {
    let refs = find_output_references(&sv(""));
    assert_eq!(refs.len(), 0);
    let resolved = resolve_output_references(&sv(""), &Vec::new());
    assert!(resolved.deep_eq(&sv("")));
}

#[test]
fn first_entry_wins_for_equal_keys() {
    let outputs = vec![
        (s("rg"), obj(vec![("name", sv("first"))])),
        (s("rg"), obj(vec![("name", sv("second"))])),
    ];
    let resolved = resolve_output_references(&sv("${rg.name}"), &outputs);
    assert!(resolved.deep_eq(&sv("first")));
}

#[test]
fn unclosed_and_empty_placeholders_are_untouched() {
    let outputs = vec![(s("a"), obj(vec![("b", sv("v"))]))];
    for text in ["${a.b", "${}", "$", "$ {a.b}", "literal"] {
        let resolved = resolve_output_references(&sv(text), &outputs);
        assert!(resolved.deep_eq(&sv(text)));
    }
    // a placeholder body may itself contain a dollar sign
    let resolved = resolve_output_references(&sv("${a${b.c}"), &outputs);
    assert!(resolved.deep_eq(&sv("${a${b.c}")));
}

#[test]
fn negative_and_extreme_integers_render_exactly() {
    let outputs = vec![(
        s("n"),
        obj(vec![
            ("neg", StructuredValue::Int(-42)),
            ("min", StructuredValue::Int(i64::MIN)),
            ("max", StructuredValue::Int(i64::MAX)),
        ]),
    )];
    let resolved = resolve_output_references(&sv("${n.neg} ${n.min} ${n.max}"), &outputs);
    assert!(resolved.deep_eq(&sv(
        "-42 -9223372036854775808 9223372036854775807"
    )));
}

#[test]
fn strings_inside_composites_are_escaped() {
    let outputs = vec![(
        s("a"),
        obj(vec![(
            "v",
            StructuredValue::List(vec![sv("say \"hi\"\n"), StructuredValue::Int(1)]),
        )]),
    )];
    let resolved = resolve_output_references(&sv("${a.v}"), &outputs);
    assert!(resolved.deep_eq(&sv("[\"say \\\"hi\\\"\\n\",1]")));
}

#[test]
fn duplicate_references_are_reported_each_time() {
    let tree = sv("${a.b} and ${a.b}");
    let refs = find_output_references(&tree);
    assert_eq!(refs.len(), 2);
    assert_eq!(refs[0].resource_name, "a");
    assert_eq!(refs[1].resource_name, "a");
    assert_eq!(refs[0].property_path, "b");
    assert_eq!(refs[1].property_path, "b");
}
