//! Deployment events and their one-line rendering.
//!
//! Events stream back from the runtime while an operation is in
//! flight.  Each event is decoded once outside the library and handed
//! to exactly one handler invocation; durations arrive in whole
//! milliseconds.

use vstd::prelude::*;
use crate::render::{nat_text, int_text, digit_char, digit, push_u64_text, push_i64_text};
use crate::shims::{push_char, print_line};

verus! {

broadcast use vstd::std_specs::vec::group_vec_axioms, vstd::seq::group_seq_axioms;

/// The operation the runtime performs on one resource.
#[derive(Debug, Clone, PartialEq, Eq, Structural)]
pub enum ResourceOperation {
    Create,
    Update,
    Delete,
    Replace,
    CreateReplacement,
    DeleteReplaced,
    Read,
    Import,
}

/// How one resource operation ended.
#[derive(Debug, Clone, PartialEq, Eq, Structural)]
pub enum ResourceStatus {
    Success,
    Failed,
    Skipped,
}

/// Severity of a diagnostic line.
#[derive(Debug, Clone, PartialEq, Eq, Structural)]
pub enum DiagnosticSeverity {
    Debug,
    Info,
    Warning,
    Error,
}

/// The resource identity an event speaks about.
#[derive(Debug, Clone)]
pub struct ResourceEvent {
    pub urn: String,
    pub resource_type: String,
    pub name: String,
    pub operation: ResourceOperation,
}

/// Progress counters attached to an event.
#[derive(Debug, Clone, PartialEq, Eq, Structural)]
pub struct Progress {
    pub current: i32,
    pub total: i32,
}

/// Optional duration and progress attached to an event.
#[derive(Debug, Clone)]
pub struct EventMetadata {
    pub duration_millis: Option<u64>,
    pub progress: Option<Progress>,
}

/// One progress or diagnostic event of a running operation.
#[derive(Debug, Clone)]
pub enum DeploymentEvent {
    Prelude { message: String },
    ResourcePre { resource: ResourceEvent, metadata: EventMetadata },
    ResourceOutputs { resource: ResourceEvent, metadata: EventMetadata },
    ResourceOperationFailed {
        resource: ResourceEvent,
        status: ResourceStatus,
        steps: i32,
        metadata: EventMetadata,
    },
    Diagnostic {
        severity: DiagnosticSeverity,
        message: String,
        resource: Option<ResourceEvent>,
    },
    Summary { message: String, duration_millis: u64 },
}

/// The verb announcing an operation about to run.
pub open spec fn op_verb(op: ResourceOperation) -> Seq<char> {
    match op {
        ResourceOperation::Create => "Creating"@,
        ResourceOperation::Update => "Updating"@,
        ResourceOperation::Delete => "Deleting"@,
        ResourceOperation::Replace => "Replacing"@,
        _ => "Processing"@,
    }
}

/// The verb naming a failed operation.
pub open spec fn fail_verb(op: ResourceOperation) -> Seq<char> {
    match op {
        ResourceOperation::Create => "create"@,
        ResourceOperation::Update => "update"@,
        ResourceOperation::Delete => "delete"@,
        _ => "process"@,
    }
}

/// The tag of a diagnostic line.
pub open spec fn severity_tag(s: DiagnosticSeverity) -> Seq<char> {
    match s {
        DiagnosticSeverity::Error => "ERROR"@,
        DiagnosticSeverity::Warning => "WARN"@,
        DiagnosticSeverity::Info => "INFO"@,
        DiagnosticSeverity::Debug => "DEBUG"@,
    }
}

/// A duration in milliseconds, rendered as seconds with one decimal.
pub open spec fn secs_text(millis: u64) -> Seq<char> {
    nat_text((millis / 1000) as nat) + seq!['.', digit_char((millis % 1000 / 100) as int)]
}

/// The one-line text of an event.
pub open spec fn spec_render_event(e: DeploymentEvent) -> Seq<char> {
    match e {
        DeploymentEvent::Prelude { message } => message@,
        DeploymentEvent::ResourcePre { resource, metadata } => (match metadata.progress {
            Some(p) => seq!['['] + int_text(p.current as int) + seq!['/'] + int_text(
                p.total as int,
            ) + seq![']', ' '],
            None => Seq::<char>::empty(),
        }) + op_verb(resource.operation) + seq![' '] + resource.resource_type@ + seq![' ', '(']
            + resource.name@ + seq![')'],
        DeploymentEvent::ResourceOutputs { resource, metadata } => resource.resource_type@ + seq![
            ' ',
        ] + resource.name@ + " created ("@ + secs_text(
            match metadata.duration_millis {
                Some(m) => m,
                None => 0,
            },
        ) + "s)"@,
        DeploymentEvent::ResourceOperationFailed { resource, .. } => "Failed to "@ + fail_verb(
            resource.operation,
        ) + seq![' '] + resource.resource_type@ + seq![' ', '('] + resource.name@ + seq![')'],
        DeploymentEvent::Diagnostic { severity, message, .. } => severity_tag(severity) + ": "@
            + message@,
        DeploymentEvent::Summary { message, duration_millis } => "Summary: "@ + message@
            + " (took "@ + secs_text(duration_millis) + "s)"@,
    }
}

/// Appends a duration in seconds with one decimal.
fn push_secs(s: &mut String, millis: u64)
    ensures
        final(s)@ == old(s)@ + secs_text(millis),
{
    push_u64_text(s, millis / 1000);
    push_char(s, '.');
    push_char(s, digit((millis % 1000 / 100) as u8));
    proof {
        assert(s@ =~= old(s)@ + secs_text(millis));
    }
}

/// Renders the one-line text of an event.
pub fn render_event(e: &DeploymentEvent) -> (r: String)
    ensures
        r@ == spec_render_event(*e),
{
    let mut s = String::new();
    match e {
        DeploymentEvent::Prelude { message } => {
            s.append(message.as_str());
            proof {
                assert(s@ =~= spec_render_event(*e));
            }
        },
        DeploymentEvent::ResourcePre { resource, metadata } => {
            match &metadata.progress {
                Some(p) => {
                    push_char(&mut s, '[');
                    push_i64_text(&mut s, p.current as i64);
                    push_char(&mut s, '/');
                    push_i64_text(&mut s, p.total as i64);
                    push_char(&mut s, ']');
                    push_char(&mut s, ' ');
                },
                None => {},
            }
            match resource.operation {
                ResourceOperation::Create => s.append("Creating"),
                ResourceOperation::Update => s.append("Updating"),
                ResourceOperation::Delete => s.append("Deleting"),
                ResourceOperation::Replace => s.append("Replacing"),
                _ => s.append("Processing"),
            }
            push_char(&mut s, ' ');
            s.append(resource.resource_type.as_str());
            push_char(&mut s, ' ');
            push_char(&mut s, '(');
            s.append(resource.name.as_str());
            push_char(&mut s, ')');
            proof {
                assert(s@ =~= spec_render_event(*e));
            }
        },
        DeploymentEvent::ResourceOutputs { resource, metadata } => {
            s.append(resource.resource_type.as_str());
            push_char(&mut s, ' ');
            s.append(resource.name.as_str());
            s.append(" created (");
            let millis = match &metadata.duration_millis {
                Some(m) => *m,
                None => 0,
            };
            push_secs(&mut s, millis);
            s.append("s)");
            proof {
                assert(s@ =~= spec_render_event(*e));
            }
        },
        DeploymentEvent::ResourceOperationFailed { resource, .. } => {
            s.append("Failed to ");
            match resource.operation {
                ResourceOperation::Create => s.append("create"),
                ResourceOperation::Update => s.append("update"),
                ResourceOperation::Delete => s.append("delete"),
                _ => s.append("process"),
            }
            push_char(&mut s, ' ');
            s.append(resource.resource_type.as_str());
            push_char(&mut s, ' ');
            push_char(&mut s, '(');
            s.append(resource.name.as_str());
            push_char(&mut s, ')');
            proof {
                assert(s@ =~= spec_render_event(*e));
            }
        },
        DeploymentEvent::Diagnostic { severity, message, .. } => {
            match severity {
                DiagnosticSeverity::Error => s.append("ERROR"),
                DiagnosticSeverity::Warning => s.append("WARN"),
                DiagnosticSeverity::Info => s.append("INFO"),
                DiagnosticSeverity::Debug => s.append("DEBUG"),
            }
            s.append(": ");
            s.append(message.as_str());
            proof {
                assert(s@ =~= spec_render_event(*e));
            }
        },
        DeploymentEvent::Summary { message, duration_millis } => {
            s.append("Summary: ");
            s.append(message.as_str());
            s.append(" (took ");
            push_secs(&mut s, *duration_millis);
            s.append("s)");
            proof {
                assert(s@ =~= spec_render_event(*e));
            }
        },
    }
    s
}

/// A handler for deployment events; implemented by callers, invoked
/// once per decoded event.
pub trait EventHandler {
    fn handle_event(&self, event: DeploymentEvent);
}

/// An event handler that prints each event's line to standard output.
pub struct PrintEventHandler;

impl PrintEventHandler {
    pub fn new() -> Self {
        PrintEventHandler
    }
}

impl EventHandler for PrintEventHandler {
    fn handle_event(&self, event: DeploymentEvent) {
        let line = render_event(&event);
        print_line(line.as_str());
    }
}

} // verus!
