use pulumist::events::{
    render_event, DeploymentEvent, DiagnosticSeverity, EventMetadata, Progress, ResourceEvent,
    ResourceOperation,
};

fn s(text: &str) -> String {
    text.to_string()
}

fn resource(op: ResourceOperation) -> ResourceEvent {
    ResourceEvent {
        urn: s("urn:x"),
        resource_type: s("azure:Group"),
        name: s("rg"),
        operation: op,
    }
}

#[test]
fn prelude_renders_its_message() {
    let line = render_event(&DeploymentEvent::Prelude {
        message: s("starting deployment"),
    });
    assert_eq!(line, "starting deployment");
}

#[test]
fn resource_pre_renders_progress_and_verb() {
    let line = render_event(&DeploymentEvent::ResourcePre {
        resource: resource(ResourceOperation::Create),
        metadata: EventMetadata {
            duration_millis: None,
            progress: Some(Progress { current: 2, total: 5 }),
        },
    });
    assert_eq!(line, "[2/5] Creating azure:Group (rg)");

    let line = render_event(&DeploymentEvent::ResourcePre {
        resource: resource(ResourceOperation::Update),
        metadata: EventMetadata {
            duration_millis: None,
            progress: None,
        },
    });
    assert_eq!(line, "Updating azure:Group (rg)");

    let line = render_event(&DeploymentEvent::ResourcePre {
        resource: resource(ResourceOperation::Read),
        metadata: EventMetadata {
            duration_millis: None,
            progress: None,
        },
    });
    assert_eq!(line, "Processing azure:Group (rg)");
}

#[test]
fn resource_outputs_render_duration() {
    let line = render_event(&DeploymentEvent::ResourceOutputs {
        resource: resource(ResourceOperation::Create),
        metadata: EventMetadata {
            duration_millis: Some(12540),
            progress: None,
        },
    });
    assert_eq!(line, "azure:Group rg created (12.5s)");

    let line = render_event(&DeploymentEvent::ResourceOutputs {
        resource: resource(ResourceOperation::Create),
        metadata: EventMetadata {
            duration_millis: None,
            progress: None,
        },
    });
    assert_eq!(line, "azure:Group rg created (0.0s)");
}

#[test]
fn failures_and_diagnostics_render_their_kind() {
    let line = render_event(&DeploymentEvent::ResourceOperationFailed {
        resource: resource(ResourceOperation::Delete),
        status: pulumist::events::ResourceStatus::Failed,
        steps: 1,
        metadata: EventMetadata {
            duration_millis: None,
            progress: None,
        },
    });
    assert_eq!(line, "Failed to delete azure:Group (rg)");

    let line = render_event(&DeploymentEvent::Diagnostic {
        severity: DiagnosticSeverity::Warning,
        message: s("disk almost full"),
        resource: None,
    });
    assert_eq!(line, "WARN: disk almost full");
}

#[test]
fn summary_renders_duration() {
    let line = render_event(&DeploymentEvent::Summary {
        message: s("3 resources created"),
        duration_millis: 61900,
    });
    assert_eq!(line, "Summary: 3 resources created (took 61.9s)");
}
