//! A stack and the per-operation builders.
//!
//! Builders only accumulate state; the single side-effecting step of an
//! operation is the boundary call, which happens outside the library:
//! a builder hands out the assembled request, and the response comes
//! back through the response-interpretation functions.

use vstd::prelude::*;
use crate::dynamic::{DynamicResource, StackRequest, ImportRequest, PulumiDynamic};
use crate::error::PulumistError;
use crate::value::StructuredValue;

verus! {

broadcast use vstd::std_specs::vec::group_vec_axioms, vstd::seq::group_seq_axioms;

/// A named, project-scoped unit of resources and configuration.
pub struct Stack {
    pub name: String,
    pub project: String,
    pub backend: Option<String>,
    pub config: Vec<(String, StructuredValue)>,
    pub dynamic: PulumiDynamic,
}

impl Stack {
    pub(crate) fn new(
        name: String,
        project: String,
        backend: Option<String>,
        config: Vec<(String, StructuredValue)>,
        dynamic: PulumiDynamic,
    ) -> (r: core::result::Result<Self, PulumistError>)
        ensures
            r matches Ok(s) && s.name == name && s.project == project && s.backend == backend
                && s.config == config,
    {
        Ok(Self { name, project, backend, config, dynamic })
    }

    /// Starts a deployment.
    pub fn deploy(&self) -> (b: DeploymentBuilder<'_>)
        ensures
            b.stack == self,
            b.resources@.len() == 0,
    {
        DeploymentBuilder { stack: self, resources: Vec::new() }
    }

    /// Starts a preview (dry run).
    pub fn preview(&self) -> (b: PreviewBuilder<'_>)
        ensures
            b.stack == self,
            b.resources@.len() == 0,
    {
        PreviewBuilder { stack: self, resources: Vec::new() }
    }

    /// Starts a refresh.
    pub fn refresh(&self) -> (b: RefreshBuilder<'_>)
        ensures
            b.stack == self,
    {
        RefreshBuilder { stack: self }
    }

    /// Starts an import.
    pub fn import(&self) -> (b: ImportBuilder<'_>)
        ensures
            b.stack == self,
            b.resource_type is None,
            b.resource_name is None,
            b.resource_id is None,
            b.resources@.len() == 0,
    {
        ImportBuilder {
            stack: self,
            resource_type: None,
            resource_name: None,
            resource_id: None,
            resources: Vec::new(),
        }
    }

    /// The request submitted by the immediate operations (destroy,
    /// export, outputs): this stack's identity and configuration with
    /// an empty resource list.
    pub fn empty_request(&self) -> (r: StackRequest)
        ensures
            r.project@ == self.project@,
            r.stack@ == self.name@,
            self.backend is Some ==> (r.backend matches Some(b) && b@
                == self.backend->Some_0@),
            self.backend is None ==> r.backend is None,
            crate::value::entries_view(r.config@) == crate::value::entries_view(self.config@),
            r.resources@.len() == 0,
    {
        let backend = match &self.backend {
            Some(b) => Some(b.clone()),
            None => None,
        };
        StackRequest {
            project: self.project.clone(),
            stack: self.name.clone(),
            backend,
            config: crate::wire::clone_entries(&self.config),
            resources: Vec::new(),
        }
    }

    /// The request for an operation over accumulated resources.
    pub fn request_with_resources(&self, resources: Vec<DynamicResource>) -> (r: StackRequest)
        ensures
            r.project@ == self.project@,
            r.stack@ == self.name@,
            self.backend is Some ==> (r.backend matches Some(b) && b@
                == self.backend->Some_0@),
            self.backend is None ==> r.backend is None,
            crate::value::entries_view(r.config@) == crate::value::entries_view(self.config@),
            r.resources == resources,
    {
        let backend = match &self.backend {
            Some(b) => Some(b.clone()),
            None => None,
        };
        StackRequest {
            project: self.project.clone(),
            stack: self.name.clone(),
            backend,
            config: crate::wire::clone_entries(&self.config),
            resources,
        }
    }
}

/// Accumulates resources for one deployment, then hands out the
/// request.
pub struct DeploymentBuilder<'a> {
    pub stack: &'a Stack,
    pub resources: Vec<DynamicResource>,
}

impl<'a> DeploymentBuilder<'a> {
    /// Adds one resource.
    pub fn with_resource(self, resource: DynamicResource) -> (r: Self)
        ensures
            r.stack == self.stack,
            r.resources@ == self.resources@.push(resource),
    {
        let mut b = self;
        b.resources.push(resource);
        b
    }

    /// The request this deployment submits.
    pub fn request(self) -> (r: StackRequest)
        ensures
            r.project@ == self.stack.project@,
            r.stack@ == self.stack.name@,
            self.stack.backend is Some ==> (r.backend matches Some(b) && b@
                == self.stack.backend->Some_0@),
            self.stack.backend is None ==> r.backend is None,
            crate::value::entries_view(r.config@) == crate::value::entries_view(
                self.stack.config@,
            ),
            r.resources == self.resources,
    {
        let resources = self.resources;
        self.stack.request_with_resources(resources)
    }
}

/// Accumulates resources for one preview, then hands out the request.
pub struct PreviewBuilder<'a> {
    pub stack: &'a Stack,
    pub resources: Vec<DynamicResource>,
}

impl<'a> PreviewBuilder<'a> {
    /// Adds one resource.
    pub fn with_resource(self, resource: DynamicResource) -> (r: Self)
        ensures
            r.stack == self.stack,
            r.resources@ == self.resources@.push(resource),
    {
        let mut b = self;
        b.resources.push(resource);
        b
    }

    /// The request this preview submits.
    pub fn request(self) -> (r: StackRequest)
        ensures
            r.project@ == self.stack.project@,
            r.stack@ == self.stack.name@,
            self.stack.backend is Some ==> (r.backend matches Some(b) && b@
                == self.stack.backend->Some_0@),
            self.stack.backend is None ==> r.backend is None,
            crate::value::entries_view(r.config@) == crate::value::entries_view(
                self.stack.config@,
            ),
            r.resources == self.resources,
    {
        let resources = self.resources;
        self.stack.request_with_resources(resources)
    }
}

/// A refresh submits no resources of its own.
pub struct RefreshBuilder<'a> {
    pub stack: &'a Stack,
}

impl<'a> RefreshBuilder<'a> {
    /// The request this refresh submits.
    pub fn request(self) -> (r: StackRequest)
        ensures
            r.project@ == self.stack.project@,
            r.stack@ == self.stack.name@,
            self.stack.backend is Some ==> (r.backend matches Some(b) && b@
                == self.stack.backend->Some_0@),
            self.stack.backend is None ==> r.backend is None,
            crate::value::entries_view(r.config@) == crate::value::entries_view(
                self.stack.config@,
            ),
            r.resources@.len() == 0,
    {
        self.stack.empty_request()
    }
}

/// Accumulates the identity of an existing resource to import.  The
/// resource type, name and id are mandatory: the request is refused
/// with a configuration error before any boundary call when one is
/// missing.
pub struct ImportBuilder<'a> {
    pub stack: &'a Stack,
    pub resource_type: Option<String>,
    pub resource_name: Option<String>,
    pub resource_id: Option<String>,
    pub resources: Vec<DynamicResource>,
}

impl<'a> ImportBuilder<'a> {
    pub fn with_resource_type(self, resource_type: String) -> (r: Self)
        ensures
            r.stack == self.stack,
            r.resource_type == Some(resource_type),
            r.resource_name == self.resource_name,
            r.resource_id == self.resource_id,
            r.resources == self.resources,
    {
        let mut b = self;
        b.resource_type = Some(resource_type);
        b
    }

    pub fn with_resource_name(self, resource_name: String) -> (r: Self)
        ensures
            r.stack == self.stack,
            r.resource_type == self.resource_type,
            r.resource_name == Some(resource_name),
            r.resource_id == self.resource_id,
            r.resources == self.resources,
    {
        let mut b = self;
        b.resource_name = Some(resource_name);
        b
    }

    pub fn with_resource_id(self, resource_id: String) -> (r: Self)
        ensures
            r.stack == self.stack,
            r.resource_type == self.resource_type,
            r.resource_name == self.resource_name,
            r.resource_id == Some(resource_id),
            r.resources == self.resources,
    {
        let mut b = self;
        b.resource_id = Some(resource_id);
        b
    }

    pub fn with_resources(self, resources: Vec<DynamicResource>) -> (r: Self)
        ensures
            r.stack == self.stack,
            r.resource_type == self.resource_type,
            r.resource_name == self.resource_name,
            r.resource_id == self.resource_id,
            r.resources == resources,
    {
        let mut b = self;
        b.resources = resources;
        b
    }

    /// Law (import precondition): the import request exists exactly
    /// when resource type, name and id have all been set; a missing
    /// field is refused with a configuration error naming it, checked
    /// before any boundary call is made.
    pub fn request(self) -> (r: core::result::Result<ImportRequest, PulumistError>)
        ensures
            self.resource_type is None ==> (r matches Err(e)
                && e matches PulumistError::ConfigError(m) && m@
                == "resource_type is required for import"@),
            self.resource_type is Some && self.resource_name is None ==> (r matches Err(e)
                && e matches PulumistError::ConfigError(m) && m@
                == "resource_name is required for import"@),
            self.resource_type is Some && self.resource_name is Some && self.resource_id is None
                ==> (r matches Err(e) && e matches PulumistError::ConfigError(m) && m@
                == "resource_id is required for import"@),
            self.resource_type is Some && self.resource_name is Some && self.resource_id is Some
                ==> (r matches Ok(q) && {
                &&& q.project@ == self.stack.project@
                &&& q.stack@ == self.stack.name@
                &&& q.resource_type == self.resource_type->0
                &&& q.resource_name == self.resource_name->0
                &&& q.resource_id == self.resource_id->0
                &&& q.resources == self.resources
                &&& crate::value::entries_view(q.config@) == crate::value::entries_view(
                    self.stack.config@,
                )
                &&& q.outputs@.len() == 0
            }),
    {
        let resource_type = match self.resource_type {
            Some(t) => t,
            None => {
                return Err(
                    PulumistError::ConfigError(
                        String::from_str("resource_type is required for import"),
                    ),
                );
            },
        };
        let resource_name = match self.resource_name {
            Some(n) => n,
            None => {
                return Err(
                    PulumistError::ConfigError(
                        String::from_str("resource_name is required for import"),
                    ),
                );
            },
        };
        let resource_id = match self.resource_id {
            Some(i) => i,
            None => {
                return Err(
                    PulumistError::ConfigError(
                        String::from_str("resource_id is required for import"),
                    ),
                );
            },
        };
        let backend = match &self.stack.backend {
            Some(b) => Some(b.clone()),
            None => None,
        };
        Ok(
            ImportRequest {
                project: self.stack.project.clone(),
                stack: self.stack.name.clone(),
                backend,
                resource_type,
                resource_name,
                resource_id,
                resources: self.resources,
                config: crate::wire::clone_entries(&self.stack.config),
                outputs: Vec::new(),
            },
        )
    }
}

} // verus!
