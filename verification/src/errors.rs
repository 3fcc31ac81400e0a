//! Failures of blockstate building and model resolution.
//!
//! All of them are local to one block: a build pass over many blocks skips
//! the failing block and continues.

use vstd::prelude::*;

verus! {

/// Why building a blockstate or resolving a model failed.
#[derive(Clone, Debug, PartialEq, Eq)]
pub enum BuildError {
    /// A referenced blockstate, model or texture record is missing.
    NotFound(String),
    /// A texture indirection chain never reaches a literal texture name.
    UnresolvedTexture(String),
    /// More distinct condition atoms than the mask width supports.
    CapacityExceeded,
    /// A variant condition mask was installed twice.
    DuplicateRule,
    /// A condition atom lacks the `name=value` shape.
    MalformedCondition(String),
}

impl BuildError {
    /// A short description of the failure, for logs.
    pub fn describe(&self) -> String {
        match self {
            BuildError::NotFound(name) => String::from_str("record not found: ").concat(
                name.as_str(),
            ),
            BuildError::UnresolvedTexture(name) => String::from_str(
                "texture reference never resolves: ",
            ).concat(name.as_str()),
            BuildError::CapacityExceeded => String::from_str("too many distinct condition atoms"),
            BuildError::DuplicateRule => String::from_str("condition mask installed twice"),
            BuildError::MalformedCondition(s) => String::from_str(
                "condition atom is not name=value: ",
            ).concat(s.as_str()),
        }
    }
}

} // verus!
