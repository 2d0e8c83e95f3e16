//! Module resolution results.
use vstd::prelude::*;

pub mod classify;
pub mod module_map;

verus! {

/// How an import specifier resolved.
#[derive(Debug, Clone, PartialEq, Eq)]
pub enum ResolvedImport {
    /// Resolves to a file within project boundaries.
    FirstParty { resolved_path: String, module_id: Option<String> },
    /// Resolves to a third-party package or builtin.
    ThirdParty { package_name: String },
    /// Could not be resolved.
    Unresolvable { specifier: String, reason: String },
}

/// A resolution together with the steps that led to it.
#[derive(Debug, Clone, PartialEq, Eq)]
pub struct ResolutionExplanation {
    pub specifier: String,
    pub from_file: String,
    pub result: ResolvedImport,
    pub steps: Vec<String>,
}

/// Module-map diagnostic emitted when a file matches multiple module globs.
#[derive(Debug, Clone, PartialEq, Eq)]
pub struct ModuleMapOverlap {
    pub file: String,
    pub selected_module: String,
    pub matched_modules: Vec<String>,
}

} // verus!
