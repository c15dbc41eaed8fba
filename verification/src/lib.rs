//! Mesh-topology core of a Nedelec finite-element electromagnetic solver.
//!
//! The numerical kernels of the solver (element matrices, sparse
//! eigensolvers, driven solves) work on floating-point data; the
//! combinatorial skeleton they stand on lives here and is verified:
//! global edge numbering of a tetrahedral mesh, face incidence and the
//! exterior-face table, PEC edge elimination and the interior-DoF lift
//! map, the scatter plans of the global and driven assemblies, the
//! integer lattice of the PML mesh extension, and the small decision
//! procedures around them (driving-mode selection, material-tag lookup).

#![allow(unused_imports)]

pub mod assembly;
pub mod boundary;
pub mod edges;
pub mod exterior;
pub mod faces;
pub mod material;
pub mod mesh;
pub mod pml;

pub use assembly::{
    block_scatter_plan, check_material_lengths, driven_dof_of_edge, edges_where, lift_map,
    lift_map_excluding, lift_map_from_boundary, rhs_scatter_plan, AssemblyError, AssemblyPlan,
    LiftMap, RhsEntry, ScatterEntry,
};
pub use boundary::{
    select_driving_mode, BoundaryError, BoundaryTopology, DrivenPlan, DrivingModeError, FaceKind,
    PortId,
};
pub use edges::{number_edges, TetEdgeConnectivity, TetEdgeTable};
pub use exterior::{exterior_face_count, ExteriorFace, ExteriorFaceTable};
pub use material::MaterialRegistry;
pub use mesh::{EdgeKey, MaterialTag, MeshError, TetMesh, LOCAL_EDGES, TET_FACES};
pub use pml::{
    pml_plan, FaceIndexMap, PmlAxis, PmlError, PmlExtension, PmlLattice, PmlPlan, PmlShell,
};
