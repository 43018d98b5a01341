use vstd::prelude::*;

verus! {

/// The errors that can arise when building a user interface primitive.
#[derive(Debug, Clone, PartialEq, Eq)]
pub enum UiPrimitiveError {
    /// The geometry of the primitive could not be created; holds the underlying message.
    FactoryError(String),
    /// The mesh of the primitive could not be created; holds the underlying message.
    MeshError(String),
}

} // verus!
