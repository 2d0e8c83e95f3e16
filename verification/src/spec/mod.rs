//! Spec language types, project configuration and validation reports.
pub mod config;
pub mod discovery;
pub mod ownership;
pub mod types;
pub mod validation;
pub mod workspace_discovery;

pub use types::{
    Boundaries, BoundaryContract, Constraint, ContractDirection, ContractMatch,
    EnvelopeRequirement, Severity, SpecFile, Visibility,
};
