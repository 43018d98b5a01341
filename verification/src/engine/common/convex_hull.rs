use vstd::prelude::*;
use crate::engine::common::half_edge_mesh::Error as MError;

verus! {

/// The errors that can arise when building the convex hull of a point cloud.
#[derive(Debug, Clone, Copy, PartialEq, Eq, Structural)]
pub enum Error {
    /// The supplied point cloud contains less than four points.
    TooFewPoints,
    /// The supplied point cloud is degenerate.
    DegenerateMesh,
    /// The supplied point cloud is collinear.
    CollinearMesh,
    /// The supplied point cloud is coplanar.
    CoplanarMesh,
    /// The triangle is degenerate.
    DegenerateTriangle,
    /// The half-edge mesh of the hull could not be built or verified.
    MeshError(MError),
}

impl From<MError> for Error {
    fn from(value: MError) -> (r: Error) {
        Error::MeshError(value)
    }
}

impl vstd::std_specs::convert::FromSpecImpl<MError> for Error {
    open spec fn obeys_from_spec() -> bool {
        true
    }

    open spec fn from_spec(value: MError) -> Error {
        Error::MeshError(value)
    }
}

} // verus!
