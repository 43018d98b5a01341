use vstd::prelude::*;

verus! {

/// Determines the type of buffer used by a mesh.
#[derive(Debug, Clone, Copy, PartialEq, Eq, Hash, Structural)]
pub enum BufferType {
    Static,
    Dynamic,
    Persistent,
    Immutable,
}

} // verus!
