use vstd::prelude::*;

verus! {

/// Why a registry operation was refused.
#[derive(Clone, Copy, Debug, PartialEq, Eq)]
pub enum RegistryError {
    /// The product type or the callback URL failed validation.
    InvalidInput,
    /// The (product type, URL) pair is not registered.
    NotFound,
}

} // verus!
