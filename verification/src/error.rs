//! Why a link or a group could not be resolved.

use vstd::prelude::*;

verus! {

/// The reason for a failed resolution.
#[derive(Clone, Copy, Debug, PartialEq, Eq, Structural)]
pub enum ResolveError {
    /// A path segment does not name a nested module.
    UnknownModule,
    /// The head of the link leads to nothing that has a category.
    NoCategory,
    /// The link has no head, or its head names modules only, so that no
    /// segment is left to name a definition.
    EmptyLinkHead,
    /// A segment names neither a definition, nor a field, nor a parameter.
    UnknownField,
    /// The group definitions could not be read.
    RegistryLoad,
}

impl ResolveError {
    /// A short description of the failure.
    pub fn message(&self) -> (res: &'static str)
        ensures
            res@ == match self {
                ResolveError::UnknownModule => "module doesn't contain the module"@,
                ResolveError::NoCategory => "link has no category"@,
                ResolveError::EmptyLinkHead => "link is missing first part"@,
                ResolveError::UnknownField => "field not found"@,
                ResolveError::RegistryLoad => "group definitions are malformed"@,
            },
    {
        match self {
            ResolveError::UnknownModule => "module doesn't contain the module",
            ResolveError::NoCategory => "link has no category",
            ResolveError::EmptyLinkHead => "link is missing first part",
            ResolveError::UnknownField => "field not found",
            ResolveError::RegistryLoad => "group definitions are malformed",
        }
    }
}

} // verus!
