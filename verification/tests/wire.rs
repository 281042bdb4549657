use pulumist::dynamic::{
    build_wire_request, config_to_strings, response_to_result, wire_to_caller, DynamicResource,
    PulumiDynamic, ResourceOptions, StackRequest,
};
use pulumist::error::PulumistError;
use pulumist::value::StructuredValue;
use pulumist::wire::{
    decode_response, encode_envelope, encode_request, encode_response, open_envelope,
    PulumiResponse, ResourceOutput,
};

fn s(text: &str) -> String {
    text.to_string()
}

fn sv(text: &str) -> StructuredValue {
    StructuredValue::Str(s(text))
}

fn sample_request() -> StackRequest {
    StackRequest {
        project: s("proj"),
        stack: s("dev"),
        backend: Some(s("azblob")),
        config: vec![
            (s("azure-native:location"), sv("eastus")),
            (s("count"), StructuredValue::Int(3)),
        ],
        resources: vec![DynamicResource {
            resource_type: s("azure-native:resources:ResourceGroup"),
            name: s("rg"),
            properties: StructuredValue::Object(vec![(s("location"), sv("eastus"))]),
            options: Some(ResourceOptions {
                parent: None,
                depends_on: Some(vec![s("net")]),
                provider: Some(s("prov")),
                delete_before_replace: None,
            }),
        }],
    }
}

#[test]
fn wire_request_carries_everything() {
    let req = sample_request();
    let q = build_wire_request(&req);
    assert_eq!(q.working_dir, "proj");
    assert_eq!(q.stack_name, "dev");
    assert_eq!(q.project_name, "proj");
    assert_eq!(q.resources.len(), 1);
    let r = &q.resources[0];
    assert_eq!(r.resource_type, "azure-native:resources:ResourceGroup");
    assert_eq!(r.name, "rg");
    assert_eq!(r.properties.len(), 1);
    assert_eq!(r.depends_on, vec![s("net")]);
    assert_eq!(r.provider, "prov");
    // non-string config values are sent as empty strings
    assert_eq!(
        q.config,
        vec![(s("azure-native:location"), s("eastus")), (s("count"), s(""))]
    );
    assert!(q.pulumi_config.is_none());
}

#[test]
fn missing_options_default_to_empty() {
    let r = DynamicResource {
        resource_type: s("t"),
        name: s("n"),
        properties: StructuredValue::Null,
        options: None,
    };
    let q = build_wire_request(&StackRequest {
        project: s("p"),
        stack: s("s"),
        backend: None,
        config: vec![],
        resources: vec![r],
    });
    assert_eq!(q.resources[0].depends_on.len(), 0);
    assert_eq!(q.resources[0].provider, "");
    assert_eq!(q.resources[0].properties.len(), 0);
}

#[test]
fn config_strings_drop_non_strings() {
    let pairs = config_to_strings(&vec![
        (s("a"), sv("x")),
        (s("b"), StructuredValue::Bool(true)),
        (s("c"), StructuredValue::Null),
    ]);
    assert_eq!(pairs, vec![(s("a"), s("x")), (s("b"), s("")), (s("c"), s(""))]);
}

#[test]
fn envelope_round_trip() {
    let payload = vec![1u8, 2, 3, 4, 5];
    let enveloped = encode_envelope(&payload);
    assert_eq!(enveloped[..4], [5, 0, 0, 0]);
    let back = open_envelope(&enveloped).unwrap();
    assert_eq!(back, payload);
    // a wrong length prefix is refused
    let mut bad = enveloped.clone();
    bad[0] = 6;
    assert!(open_envelope(&bad).is_none());
    assert!(open_envelope(&vec![1, 0, 0]).is_none());
}

#[test]
fn response_round_trip() {
    let resp = PulumiResponse {
        success: true,
        outputs: vec![
            ResourceOutput {
                resource_name: s("rg"),
                output_name: s("name"),
                value: Some(sv("my-rg")),
            },
            ResourceOutput {
                resource_name: s("rg"),
                output_name: s("missing"),
                value: None,
            },
        ],
        error: s(""),
    };
    let bytes = encode_response(&resp).unwrap();
    let back = decode_response(&bytes).unwrap();
    assert_eq!(back.success, true);
    assert_eq!(back.outputs.len(), 2);
    assert_eq!(back.outputs[0].resource_name, "rg");
    assert_eq!(back.outputs[0].output_name, "name");
    assert!(back.outputs[0].value.as_ref().unwrap().deep_eq(&sv("my-rg")));
    assert!(back.outputs[1].value.is_none());
    assert_eq!(back.error, "");
}

#[test]
fn operation_failure_surfaces_error_text() {
    let resp = PulumiResponse {
        success: false,
        outputs: vec![ResourceOutput {
            resource_name: s("rg"),
            output_name: s("ignored"),
            value: Some(sv("ignored")),
        }],
        error: s("quota exceeded"),
    };
    match response_to_result(&resp) {
        Err(PulumistError::StackOperation(m)) => assert_eq!(m, "quota exceeded"),
        _ => panic!("a failed response must surface a stack-operation error"),
    }
    // end to end through the wire
    let bytes = encode_response(&resp).unwrap();
    let gateway = PulumiDynamic::new();
    match gateway.interpret_response(&bytes) {
        Err(e @ PulumistError::StackOperation(_)) => {
            assert_eq!(e.message(), "Stack operation failed: quota exceeded");
        }
        _ => panic!("the failure must cross the wire verbatim"),
    }
}

#[test]
fn successful_response_builds_output_tree() {
    let resp = PulumiResponse {
        success: true,
        outputs: vec![
            ResourceOutput {
                resource_name: s("rg"),
                output_name: s("name"),
                value: Some(sv("my-rg")),
            },
            ResourceOutput {
                resource_name: s("rg"),
                output_name: s("skipped"),
                value: None,
            },
            ResourceOutput {
                resource_name: s("vm"),
                output_name: s("size"),
                value: Some(StructuredValue::Int(4)),
            },
        ],
        error: s("ignored on success"),
    };
    let tree = response_to_result(&resp).unwrap();
    let expected = StructuredValue::Object(vec![
        (s("rg.name"), sv("my-rg")),
        (s("vm.size"), StructuredValue::Int(4)),
    ]);
    assert!(tree.deep_eq(&expected));
}

#[test]
fn wire_values_become_caller_values() {
    // blobs turn into their base64 text
    let converted = wire_to_caller(&StructuredValue::Blob(vec![104, 101, 108, 108, 111]));
    assert!(converted.deep_eq(&sv("aGVsbG8=")));
    // non-finite doubles turn into null
    let nan_bits = 0x7FF8000000000001u64;
    assert!(wire_to_caller(&StructuredValue::Double(nan_bits)).deep_eq(&StructuredValue::Null));
    let finite_bits = 0x3FF0000000000000u64; // 1.0
    assert!(wire_to_caller(&StructuredValue::Double(finite_bits))
        .deep_eq(&StructuredValue::Double(finite_bits)));
    // structure is kept
    let tree = StructuredValue::List(vec![StructuredValue::Object(vec![(
        s("b"),
        StructuredValue::Blob(vec![1]),
    )])]);
    let expected = StructuredValue::List(vec![StructuredValue::Object(vec![(s("b"), sv("AQ=="))])]);
    assert!(wire_to_caller(&tree).deep_eq(&expected));
}

#[test]
fn malformed_response_bytes_are_fatal() {
    let gateway = PulumiDynamic::new();
    match gateway.interpret_response(&vec![1, 0, 0, 0, 99]) {
        Err(PulumistError::Serialization(_)) => {}
        _ => panic!("garbage bytes must fail with a serialization error"),
    }
    // an envelope whose payload is a well-formed value of the wrong shape
    let payload = pulumist::codec::encode_value(&StructuredValue::Int(7));
    let bytes = encode_envelope(&payload);
    match gateway.interpret_response(&bytes) {
        Err(PulumistError::Serialization(_)) => {}
        _ => panic!("a non-response value must fail with a serialization error"),
    }
}

#[test]
fn request_encoding_never_fails_and_is_stable() {
    let req = sample_request();
    let q = build_wire_request(&req);
    let bytes = encode_request(&q);
    assert!(bytes.len() > 0);
    // encoding the same request twice gives the same bytes
    let again = encode_request(&build_wire_request(&req));
    assert_eq!(bytes, again);
}
