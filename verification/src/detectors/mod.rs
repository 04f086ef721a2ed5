//! The detectors and the table they are found in by name.

pub mod inline_assembly_usage;
pub mod unprotected_storage_variables;
pub mod unprotected_storage_variables_laws;

use vstd::prelude::*;
use crate::ast::Module;
use crate::detectors::inline_assembly_usage::InlineAssemblyUsageVisitor;
use crate::detectors::unprotected_storage_variables::UnprotectedStorageVariablesVisitor;
use crate::report::{Error, Project};
use crate::visitor::{analysis, follows, visit_module_with};

verus! {

/// A detector, made fresh by [`create_detector`] and holding state of its own.
#[derive(Debug)]
pub enum Detector {
    InlineAssemblyUsage(InlineAssemblyUsageVisitor),
    UnprotectedStorageVariables(UnprotectedStorageVariablesVisitor),
}

/// The names of the detectors, in the order of the table.
pub open spec fn detector_names_spec() -> Seq<&'static str> {
    seq!["inline_assembly_usage", "unprotected_storage_variables"]
}

/// The names of the detectors.
pub fn detector_names() -> (names: Vec<&'static str>)
    ensures
        names@ == detector_names_spec(),
{
    let mut names: Vec<&'static str> = Vec::new();
    names.push("inline_assembly_usage");
    names.push("unprotected_storage_variables");
    assert(names@ =~= detector_names_spec());
    names
}

/// A fresh detector of the given name, if there is one of that name.
pub fn create_detector(name: &str) -> (detector: Option<Detector>)
    ensures
        match detector {
            Some(Detector::InlineAssemblyUsage(_)) => name@ == "inline_assembly_usage"@,
            Some(Detector::UnprotectedStorageVariables(visitor)) => name@
                == "unprotected_storage_variables"@ && visitor.wf() && visitor.state().len() == 0,
            None => name@ != "inline_assembly_usage"@ && name@ != "unprotected_storage_variables"@,
        },
{
    if *name == *"inline_assembly_usage" {
        Some(Detector::InlineAssemblyUsage(InlineAssemblyUsageVisitor))
    } else if *name == *"unprotected_storage_variables" {
        let visitor = UnprotectedStorageVariablesVisitor { module_states: Vec::new() };
        assert(visitor.state().len() == 0);
        Some(Detector::UnprotectedStorageVariables(visitor))
    } else {
        None
    }
}

impl Detector {
    /// The detector's data is in order.
    pub open spec fn wf(&self) -> bool {
        match self {
            Detector::InlineAssemblyUsage(_) => true,
            Detector::UnprotectedStorageVariables(visitor) => visitor.wf(),
        }
    }

    /// The name the detector is found by.
    pub fn name(&self) -> (name: &'static str)
        ensures
            name@ == (match self {
                Detector::InlineAssemblyUsage(_) => "inline_assembly_usage"@,
                Detector::UnprotectedStorageVariables(_) => "unprotected_storage_variables"@,
            }),
    {
        match self {
            Detector::InlineAssemblyUsage(_) => "inline_assembly_usage",
            Detector::UnprotectedStorageVariables(_) => "unprotected_storage_variables",
        }
    }

    /// Runs the detector over one module and adds its findings to the report
    /// of `project`.  Stops at the first error.
    pub fn run(&mut self, module: &Module, project: &mut Project) -> (result: Result<(), Error>)
        requires
            old(self).wf(),
        ensures
            final(self).wf(),
            match *old(self) {
                Detector::InlineAssemblyUsage(_) => (*final(self)) is InlineAssemblyUsage && follows(
                    analysis::<InlineAssemblyUsageVisitor>((), old(project).files@, module),
                    (),
                    *old(project),
                    *final(project),
                    result,
                ),
                Detector::UnprotectedStorageVariables(before) => (*final(self))
                    matches Detector::UnprotectedStorageVariables(after) && follows(
                    analysis::<UnprotectedStorageVariablesVisitor>(
                        before.state(),
                        old(project).files@,
                        module,
                    ),
                    after.state(),
                    *old(project),
                    *final(project),
                    result,
                ),
            },
    {
        match self {
            Detector::InlineAssemblyUsage(visitor) => visit_module_with(visitor, module, project),
            Detector::UnprotectedStorageVariables(visitor) => visit_module_with(
                visitor,
                module,
                project,
            ),
        }
    }
}

} // verus!
