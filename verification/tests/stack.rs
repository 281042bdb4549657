use pulumist::dynamic::{DynamicResource, PulumiDynamic, ResourceOptions, StackRequest};
use pulumist::engine::PulumiEngine;
use pulumist::error::PulumistError;
use pulumist::value::StructuredValue;
use pulumist::wire::encode_request;

fn s(text: &str) -> String {
    text.to_string()
}

fn sv(text: &str) -> StructuredValue {
    StructuredValue::Str(s(text))
}

#[test]
fn test_dynamic_resource_creation() {
    // An example of describing a resource group dynamically.
    let resource = DynamicResource {
        resource_type: s("azure-native:resources:ResourceGroup"),
        name: s("my-resource-group"),
        properties: StructuredValue::Object(vec![
            (s("location"), sv("eastus")),
            (
                s("tags"),
                StructuredValue::Object(vec![
                    (s("Environment"), sv("Dev")),
                    (s("Team"), sv("Platform")),
                ]),
            ),
        ]),
        options: None,
    };

    let mut config = Vec::new();
    config.push((s("azure-native:location"), sv("eastus")));

    let request = StackRequest {
        project: s("test-project"),
        stack: s("dev"),
        backend: Some(s("azblob")),
        config,
        resources: vec![resource],
    };

    // This would cross the runtime boundary in a real scenario.
    let bytes = encode_request(&pulumist::dynamic::build_wire_request(&request));
    println!("Request: {} bytes", bytes.len());
}

#[test]
fn engine_builds_stacks_with_defaults() {
    let engine = PulumiEngine::new().unwrap();
    let stack = engine.create_stack("dev").build().unwrap();
    assert_eq!(stack.name, "dev");
    assert_eq!(stack.project, "pulumist-project");
    assert!(stack.backend.is_none());

    let stack = engine
        .create_stack("prod")
        .with_project("my-project")
        .with_azure_backend()
        .with_config("azure-native:location", sv("eastus"))
        .build()
        .unwrap();
    assert_eq!(stack.project, "my-project");
    assert_eq!(stack.backend, Some(s("azblob")));
    assert_eq!(stack.config.len(), 1);
}

#[test]
fn builders_accumulate_resources() {
    let engine = PulumiEngine::new().unwrap();
    let stack = engine.create_stack("dev").build().unwrap();
    let resource = DynamicResource {
        resource_type: s("t"),
        name: s("n"),
        properties: StructuredValue::Null,
        options: Some(ResourceOptions::default()),
    };
    let request = stack
        .deploy()
        .with_resource(resource.clone())
        .with_resource(resource.clone())
        .request();
    assert_eq!(request.resources.len(), 2);
    assert_eq!(request.project, "pulumist-project");
    assert_eq!(request.stack, "dev");

    let preview = stack.preview().with_resource(resource).request();
    assert_eq!(preview.resources.len(), 1);

    let refresh = stack.refresh().request();
    assert_eq!(refresh.resources.len(), 0);

    let immediate = stack.empty_request();
    assert_eq!(immediate.resources.len(), 0);
    assert_eq!(immediate.stack, "dev");
}

#[test]
fn import_requires_type_name_and_id() {
    let engine = PulumiEngine::new().unwrap();
    let stack = engine.create_stack("dev").build().unwrap();

    // No boundary payload exists until all three fields are set: the
    // builder refuses with a configuration error first.
    match stack.import().request() {
        Err(PulumistError::ConfigError(m)) => {
            assert_eq!(m, "resource_type is required for import")
        }
        _ => panic!("a missing resource type must be refused"),
    }
    match stack.import().with_resource_type(s("t")).request() {
        Err(PulumistError::ConfigError(m)) => {
            assert_eq!(m, "resource_name is required for import")
        }
        _ => panic!("a missing resource name must be refused"),
    }
    match stack
        .import()
        .with_resource_type(s("t"))
        .with_resource_name(s("n"))
        .request()
    {
        Err(PulumistError::ConfigError(m)) => {
            assert_eq!(m, "resource_id is required for import")
        }
        _ => panic!("a missing resource id must be refused"),
    }
    let q = stack
        .import()
        .with_resource_type(s("t"))
        .with_resource_name(s("n"))
        .with_resource_id(s("i"))
        .with_resources(vec![])
        .request()
        .unwrap();
    assert_eq!(q.resource_type, "t");
    assert_eq!(q.resource_name, "n");
    assert_eq!(q.resource_id, "i");
    assert_eq!(q.project, "pulumist-project");
    assert_eq!(q.outputs.len(), 0);
}

#[test]
fn error_messages_carry_their_variant() {
    assert_eq!(
        PulumistError::Ffi(s("null pointer")).message(),
        "FFI error: null pointer"
    );
    assert_eq!(
        PulumistError::Serialization(s("bad bytes")).message(),
        "Serialization error: bad bytes"
    );
    assert_eq!(
        PulumistError::StackOperation(s("boom")).message(),
        "Stack operation failed: boom"
    );
    assert_eq!(
        PulumistError::Provider(s("p")).message(),
        "Provider error: p"
    );
    assert_eq!(
        PulumistError::ConfigError(s("c")).message(),
        "Configuration error: c"
    );
    assert_eq!(PulumistError::Unknown(s("u")).message(), "Unknown error: u");
}

#[test]
fn encode_operation_is_deterministic() {
    let gateway = PulumiDynamic::new();
    let request = StackRequest {
        project: s("p"),
        stack: s("s"),
        backend: None,
        config: vec![],
        resources: vec![],
    };
    let a = gateway.encode_operation(&request);
    let b = gateway.encode_operation(&request);
    assert_eq!(a, b);
    assert!(a.len() > 0);
}
