//! The entry point: an engine hands out stack builders.

use vstd::prelude::*;
use crate::dynamic::PulumiDynamic;
use crate::error::PulumistError;
use crate::stack::Stack;
use crate::value::StructuredValue;

verus! {

broadcast use vstd::std_specs::vec::group_vec_axioms, vstd::seq::group_seq_axioms;

pub struct PulumiEngine {
    pub dynamic: PulumiDynamic,
}

impl PulumiEngine {
    pub fn new() -> (r: core::result::Result<Self, PulumistError>)
        ensures
            r is Ok,
    {
        Ok(Self { dynamic: PulumiDynamic::new() })
    }

    /// Starts building a stack with the given name.
    pub fn create_stack(&self, name: &str) -> (b: StackBuilder<'_>)
        ensures
            b.name@ == name@,
            b.project is None,
            b.backend is None,
            b.config@.len() == 0,
    {
        StackBuilder {
            name: name.to_owned(),
            project: None,
            backend: None,
            config: Vec::new(),
            dynamic: &self.dynamic,
        }
    }
}

/// Accumulates a stack's identity and configuration.
pub struct StackBuilder<'a> {
    pub name: String,
    pub project: Option<String>,
    pub backend: Option<String>,
    pub config: Vec<(String, StructuredValue)>,
    pub dynamic: &'a PulumiDynamic,
}

impl<'a> StackBuilder<'a> {
    pub fn with_project(self, project: &str) -> (r: Self)
        ensures
            r.name == self.name,
            r.project matches Some(p) && p@ == project@,
            r.backend == self.backend,
            r.config == self.config,
    {
        let mut b = self;
        b.project = Some(project.to_owned());
        b
    }

    /// Selects the blob-store backend.
    pub fn with_azure_backend(self) -> (r: Self)
        ensures
            r.name == self.name,
            r.project == self.project,
            r.backend matches Some(x) && x@ == "azblob"@,
            r.config == self.config,
    {
        let mut b = self;
        b.backend = Some(String::from_str("azblob"));
        b
    }

    /// Adds one configuration entry.
    pub fn with_config(self, key: &str, value: StructuredValue) -> (r: Self)
        ensures
            r.name == self.name,
            r.project == self.project,
            r.backend == self.backend,
            r.config@.len() == self.config@.len() + 1,
            crate::value::entries_view(r.config@) == crate::value::entries_view(
                self.config@,
            ).push((key@, value@)),
    {
        let mut b = self;
        let ghost pre = b.config@;
        b.config.push((key.to_owned(), value));
        proof {
            assert(crate::value::entries_view(b.config@) =~= crate::value::entries_view(pre).push(
                (key@, value@),
            ));
        }
        b
    }

    /// Finishes the stack: a missing project falls back to the default
    /// project name.
    pub fn build(self) -> (r: core::result::Result<Stack, PulumistError>)
        ensures
            r matches Ok(s) && {
                &&& s.name == self.name
                &&& (self.project matches Some(p) ==> s.project == p)
                &&& (self.project is None ==> s.project@ == "pulumist-project"@)
                &&& s.backend == self.backend
                &&& s.config == self.config
            },
    {
        let project = match self.project {
            Some(p) => p,
            None => String::from_str("pulumist-project"),
        };
        Stack::new(self.name, project, self.backend, self.config, self.dynamic.clone())
    }
}

} // verus!
