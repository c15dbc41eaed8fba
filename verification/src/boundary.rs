//! Exterior-face tagging of the open-boundary driven problem: validation
//! of the per-face tags, the PEC (Dirichlet-eliminated) global-edge set,
//! and the selection of a port's driving mode.

use std::collections::HashSet;
use vstd::prelude::*;
use vstd::std_specs::hash::*;

use crate::assembly::{
    block_plan_ok, block_scatter_plan, driven_dof_of_edge, driven_table_len, flags_of_set,
    lemma_all_pec_matches_closed_cavity, lemma_max_or_zero_below, rhs_plan_ok, rhs_scatter_plan, AssemblyPlan,
    RhsEntry, ScatterEntry,
};
use crate::edges::{mesh_edges, TetEdgeTable};
use crate::exterior::{exterior_face_positions, face_matches, lemma_boundary_edges_are_face_edges, ExteriorFace, ExteriorFaceTable};
use crate::mesh::TetMesh;

verus! {

broadcast use vstd::std_specs::hash::group_hash_axioms;

/// Index of a wave-port descriptor.
pub type PortId = usize;

/// Classification of an exterior mesh face.
#[derive(Clone, Copy, Debug, PartialEq, Eq, Hash, Structural)]
pub enum FaceKind {
    /// Perfect electric conductor: every edge of the face is eliminated.
    Pec,
    /// Absorbing boundary face.
    Abc,
    /// Face of the wave port with the given index.
    WavePort(PortId),
}

/// Why a face tagging is refused.
#[derive(Clone, Copy, Debug, PartialEq, Eq, Structural)]
pub enum BoundaryError {
    /// The mesh has no tetrahedra.
    EmptyMesh,
    /// The number of tags differs from the number of exterior faces.
    FaceKindCount {
        /// Number of exterior faces.
        expected: usize,
        /// Number of tags supplied.
        got: usize,
    },
    /// A wave-port tag names a port that is not defined.
    PortOutOfRange {
        /// Index of the offending face.
        face: usize,
        /// Port index named by the tag.
        port: PortId,
        /// Number of defined ports.
        n_ports: usize,
    },
}

/// Tag `kind` names a port index outside `0..n_ports`.
pub open spec fn bad_port(kind: FaceKind, n_ports: usize) -> bool {
    match kind {
        FaceKind::WavePort(p) => p >= n_ports,
        _ => false,
    }
}

/// Global edges lying on a face tagged PEC.
pub open spec fn pec_face_edges(faces: Seq<ExteriorFace>, kinds: Seq<FaceKind>) -> Set<usize> {
    Set::new(
        |g: usize|
            exists|i: int|
                0 <= i < faces.len() && i < kinds.len() && kinds[i] == FaceKind::Pec && (g
                    == faces[i].global_edges[0] || g == faces[i].global_edges[1] || g
                    == faces[i].global_edges[2]),
    )
}

/// Largest global edge index over the first `n` faces, `0` if none.
pub open spec fn max_face_edge(faces: Seq<ExteriorFace>, n: nat) -> usize
    decreases n,
{
    if n == 0 {
        0
    } else {
        let m = max_face_edge(faces, (n - 1) as nat);
        let g = faces[n - 1].global_edges;
        let a = if g[0] > m {
            g[0]
        } else {
            m
        };
        let b = if g[1] > a {
            g[1]
        } else {
            a
        };
        if g[2] > b {
            g[2]
        } else {
            b
        }
    }
}

/// Validated face tagging of a mesh's exterior with its PEC edge set.
pub struct BoundaryTopology {
    edge_table: TetEdgeTable,
    exterior_faces: ExteriorFaceTable,
    face_kinds: Vec<FaceKind>,
    n_ports: usize,
    pec_global_edges: HashSet<usize>,
    mesh_tets: Ghost<Seq<[usize; 4]>>,
    swaps: Ghost<Seq<bool>>,
}

impl BoundaryTopology {
    /// The tetrahedra of the mesh the topology was built from.
    pub closed spec fn tets(&self) -> Seq<[usize; 4]> {
        self.mesh_tets@
    }

    /// Which exterior faces had their two last vertices swapped to point
    /// their normal outward.
    pub closed spec fn swapped(&self) -> Seq<bool> {
        self.swaps@
    }

    /// The edge table.
    pub closed spec fn table(&self) -> TetEdgeTable {
        self.edge_table
    }

    /// The exterior-face table.
    pub closed spec fn exterior(&self) -> ExteriorFaceTable {
        self.exterior_faces
    }

    /// The tags of the exterior faces.
    pub closed spec fn kinds(&self) -> Seq<FaceKind> {
        self.face_kinds@
    }

    /// Number of defined ports.
    pub closed spec fn port_count(&self) -> usize {
        self.n_ports
    }

    /// The PEC global-edge set.
    pub closed spec fn pec_set(&self) -> Set<usize> {
        self.pec_global_edges@
    }

    /// The topology belongs to `tets`: its tables are those of the mesh
    /// (faces oriented by `swapped()`), it has one valid tag per exterior
    /// face, and every edge of a PEC face is in the PEC set.
    pub open spec fn wf(&self) -> bool {
        let tets = self.tets();
        &&& tets.len() > 0
        &&& self.table().built_from(tets)
        &&& self.exterior().oriented(tets, self.swapped())
        &&& self.kinds().len() == self.exterior().faces.len()
        &&& forall|i: int| 0 <= i < self.kinds().len() ==> !bad_port(#[trigger] self.kinds()[i], self.port_count())
        &&& pec_face_edges(self.exterior().faces@, self.kinds()).subset_of(self.pec_set())
    }

    /// Validate `face_kinds` (one tag per exterior face of `mesh`, each
    /// wave-port tag naming one of `n_ports` ports) and collect the global
    /// edges of every PEC face. Exterior face `i` has its two last vertices
    /// swapped iff `outward_swap[i]` (the flags that turn every face normal
    /// outward, found from the vertex coordinates).
    pub fn new(mesh: &TetMesh, outward_swap: &Vec<bool>, face_kinds: Vec<FaceKind>, n_ports: usize) -> (res: Result<BoundaryTopology, BoundaryError>)
        requires
            outward_swap.len() == exterior_face_positions(mesh.tetrahedra@).len(),
        ensures
            mesh.tetrahedra.len() == 0 ==> res == Err::<BoundaryTopology, BoundaryError>(BoundaryError::EmptyMesh),
            mesh.tetrahedra.len() > 0 && face_kinds.len() != exterior_face_positions(mesh.tetrahedra@).len()
                ==> res == Err::<BoundaryTopology, BoundaryError>(
                BoundaryError::FaceKindCount {
                    expected: exterior_face_positions(mesh.tetrahedra@).len() as usize,
                    got: face_kinds.len(),
                },
            ),
            mesh.tetrahedra.len() > 0 && face_kinds.len() == exterior_face_positions(mesh.tetrahedra@).len()
                ==> match res {
                Ok(topo) => {
                    &&& forall|i: int| 0 <= i < face_kinds.len() ==> !bad_port(#[trigger] face_kinds[i], n_ports)
                    &&& topo.wf()
                    &&& topo.tets() == mesh.tetrahedra@
                    &&& topo.swapped() == outward_swap@
                    &&& topo.kinds() == face_kinds@
                    &&& topo.port_count() == n_ports
                    &&& topo.pec_set() == pec_face_edges(topo.exterior().faces@, face_kinds@)
                },
                Err(e) => exists|i: int|
                    0 <= i < face_kinds.len() && bad_port(face_kinds[i], n_ports) && (forall|j: int|
                        0 <= j < i ==> !bad_port(#[trigger] face_kinds[j], n_ports)) && e == (
                    BoundaryError::PortOutOfRange {
                        face: i as usize,
                        port: face_kinds[i]->WavePort_0,
                        n_ports,
                    }),
            },
            match res {
                Ok(topo) => forall|i: int|
                    0 <= i < face_kinds.len() ==> match #[trigger] face_kinds[i] {
                        FaceKind::WavePort(p) => p < n_ports && topo.kinds()[i] == FaceKind::WavePort(p),
                        _ => true,
                    },
                Err(BoundaryError::PortOutOfRange { face, port, n_ports: n }) => {
                    &&& n == n_ports
                    &&& port >= n_ports
                    &&& face < face_kinds.len()
                    &&& face_kinds[face as int] == FaceKind::WavePort(port)
                    &&& forall|j: int|
                        0 <= j < face ==> match #[trigger] face_kinds[j] {
                            FaceKind::WavePort(p) => p < n_ports,
                            _ => true,
                        }
                },
                Err(_) => true,
            },
    {
        if mesh.tetrahedra.len() == 0 {
            return Err(BoundaryError::EmptyMesh);
        }
        let edge_table = TetEdgeTable::build(mesh);
        let exterior_faces = ExteriorFaceTable::build(mesh, &edge_table).with_orientation(
            mesh,
            &edge_table,
            outward_swap,
        );
        let n_faces = exterior_faces.faces.len();
        if face_kinds.len() != n_faces {
            return Err(BoundaryError::FaceKindCount { expected: n_faces, got: face_kinds.len() });
        }
        let mut i: usize = 0;
        while i < n_faces
            invariant
                n_faces == face_kinds.len(),
                mesh.tetrahedra.len() > 0,
                n_faces == exterior_face_positions(mesh.tetrahedra@).len(),
                i <= n_faces,
                forall|j: int| 0 <= j < i ==> !bad_port(#[trigger] face_kinds[j], n_ports),
            decreases n_faces - i,
        {
            if let FaceKind::WavePort(p) = face_kinds[i] {
                if p >= n_ports {
                    return Err(BoundaryError::PortOutOfRange { face: i, port: p, n_ports });
                }
            }
            i += 1;
        }
        let mut pec: HashSet<usize> = HashSet::new();
        let ghost faces = exterior_faces.faces@;
        let mut k: usize = 0;
        while k < n_faces
            invariant
                n_faces == face_kinds.len(),
                n_faces == faces.len(),
                faces == exterior_faces.faces@,
                k <= n_faces,
                pec@ == pec_face_edges(faces.take(k as int), face_kinds@.take(k as int)),
            decreases n_faces - k,
        {
            let ghost before = pec@;
            if face_kinds[k] == FaceKind::Pec {
                let g = exterior_faces.faces[k].global_edges;
                pec.insert(g[0]);
                pec.insert(g[1]);
                pec.insert(g[2]);
            }
            k += 1;
            proof {
                let fs = faces.take(k as int);
                let ks = face_kinds@.take(k as int);
                let fs0 = faces.take(k - 1);
                let ks0 = face_kinds@.take(k - 1);
                assert forall|g: usize| pec@.contains(g) == pec_face_edges(fs, ks).contains(g) by {
                    if pec_face_edges(fs0, ks0).contains(g) {
                        let j = choose|j: int|
                            0 <= j < fs0.len() && j < ks0.len() && ks0[j] == FaceKind::Pec && (g
                                == fs0[j].global_edges[0] || g == fs0[j].global_edges[1] || g
                                == fs0[j].global_edges[2]);
                        assert(fs[j] == fs0[j] && ks[j] == ks0[j]);
                    }
                    if pec_face_edges(fs, ks).contains(g) {
                        let j = choose|j: int|
                            0 <= j < fs.len() && j < ks.len() && ks[j] == FaceKind::Pec && (g
                                == fs[j].global_edges[0] || g == fs[j].global_edges[1] || g
                                == fs[j].global_edges[2]);
                        if j < k - 1 {
                            assert(fs[j] == fs0[j] && ks[j] == ks0[j]);
                        }
                    }
                    let last = (k - 1) as int;
                    if face_kinds[last] == FaceKind::Pec && (g == faces[last].global_edges[0]
                        || g == faces[last].global_edges[1] || g == faces[last].global_edges[2]) {
                        assert(fs[last] == faces[last] && ks[last] == face_kinds[last]);
                    }
                }
                assert(pec@ =~= pec_face_edges(fs, ks));
            }
        }
        proof {
            assert(faces.take(n_faces as int) =~= faces);
            assert(face_kinds@.take(n_faces as int) =~= face_kinds@);
        }
        Ok(
            BoundaryTopology {
                edge_table,
                exterior_faces,
                face_kinds,
                n_ports,
                pec_global_edges: pec,
                mesh_tets: Ghost(mesh.tetrahedra@),
                swaps: Ghost(outward_swap@),
            },
        )
    }

    /// Union caller-supplied global edges into the PEC set (for example
    /// the edges of an interior conductor). Re-adding an edge that is
    /// already PEC changes nothing.
    pub fn with_interior_pec_edges(self, edges: Vec<usize>) -> (res: BoundaryTopology)
        requires
            self.wf(),
        ensures
            res.wf(),
            res.tets() == self.tets(),
            res.swapped() == self.swapped(),
            res.kinds() == self.kinds(),
            res.port_count() == self.port_count(),
            res.table() == self.table(),
            res.exterior() == self.exterior(),
            res.pec_set() == self.pec_set().union(edges@.to_set()),
    {
        let BoundaryTopology { edge_table, exterior_faces, face_kinds, n_ports, pec_global_edges, mesh_tets, swaps } =
            self;
        let mut pec = pec_global_edges;
        let ghost start = pec@;
        let n = edges.len();
        let mut i: usize = 0;
        while i < n
            invariant
                n == edges.len(),
                i <= n,
                pec@ == start.union(edges@.take(i as int).to_set()),
            decreases n - i,
        {
            pec.insert(edges[i]);
            i += 1;
            proof {
                let s0 = edges@.take(i - 1);
                let s1 = edges@.take(i as int);
                assert(s1 =~= s0.push(edges[i - 1]));
                assert forall|g: usize| pec@.contains(g) == start.union(s1.to_set()).contains(g) by {
                    if s0.contains(g) {
                        let j = choose|j: int| 0 <= j < s0.len() && #[trigger] s0[j] == g;
                        assert(s1[j] == g);
                    }
                    if s1.contains(g) && g != edges[i - 1] {
                        let j = choose|j: int| 0 <= j < s1.len() && #[trigger] s1[j] == g;
                        assert(s0[j] == g);
                    }
                    if g == edges[i - 1] {
                        assert(s1[i - 1] == g);
                    }
                }
                assert(pec@ =~= start.union(s1.to_set()));
            }
        }
        proof {
            assert(edges@.take(n as int) =~= edges@);
        }
        BoundaryTopology { edge_table, exterior_faces, face_kinds, n_ports, pec_global_edges: pec, mesh_tets, swaps }
    }

    /// The edge table of the mesh.
    pub fn edge_table(&self) -> (t: &TetEdgeTable)
        ensures
            *t == self.table(),
    {
        &self.edge_table
    }

    /// The exterior faces, in walk order.
    pub fn exterior_faces(&self) -> (t: &ExteriorFaceTable)
        ensures
            *t == self.exterior(),
    {
        &self.exterior_faces
    }

    /// Number of exterior faces.
    pub fn n_exterior_faces(&self) -> (n: usize)
        ensures
            n == self.kinds().len(),
    {
        self.face_kinds.len()
    }

    /// The per-exterior-face tags.
    pub fn face_kinds(&self) -> (k: &Vec<FaceKind>)
        ensures
            k@ == self.kinds(),
    {
        &self.face_kinds
    }

    /// Number of defined ports.
    pub fn n_ports(&self) -> (n: usize)
        ensures
            n == self.port_count(),
    {
        self.n_ports
    }

    /// The PEC global-edge set.
    pub fn pec_global_edges(&self) -> (s: &HashSet<usize>)
        ensures
            s@ == self.pec_set(),
    {
        &self.pec_global_edges
    }

    /// One past the largest global edge index on any exterior face.
    pub fn total_global_edge_count(&self) -> (n: usize)
        requires
            max_face_edge(self.exterior().faces@, self.exterior().faces.len() as nat) < usize::MAX,
        ensures
            n == max_face_edge(self.exterior().faces@, self.exterior().faces.len() as nat) + 1,
    {
        let faces = &self.exterior_faces.faces;
        let mut max_idx: usize = 0;
        let mut i: usize = 0;
        while i < faces.len()
            invariant
                i <= faces.len(),
                max_idx == max_face_edge(faces@, i as nat),
            decreases faces.len() - i,
        {
            let g = faces[i].global_edges;
            if g[0] > max_idx {
                max_idx = g[0];
            }
            if g[1] > max_idx {
                max_idx = g[1];
            }
            if g[2] > max_idx {
                max_idx = g[2];
            }
            i += 1;
        }
        max_idx + 1
    }
}

/// With every exterior face tagged PEC, the PEC set is exactly the set of
/// geometric boundary edges, so the open-boundary system keeps the same
/// degrees of freedom as the closed cavity.
pub proof fn lemma_all_pec_is_closed_cavity(topo: BoundaryTopology)
    requires
        topo.wf(),
        topo.pec_set() == pec_face_edges(topo.exterior().faces@, topo.kinds()),
        forall|i: int| 0 <= i < topo.kinds().len() ==> #[trigger] topo.kinds()[i] == FaceKind::Pec,
    ensures
        forall|g: usize|
            #[trigger] topo.pec_set().contains(g) <==> (g < topo.table().edges.len() && topo.table().is_boundary[g as int]),
{
    let tets = topo.tets();
    let table = topo.table();
    let ext = topo.exterior();
    let sw = topo.swapped();
    assert forall|g: usize|
        #[trigger] topo.pec_set().contains(g) <==> (g < table.edges.len() && table.is_boundary[g as int]) by {
        if topo.pec_set().contains(g) {
            let i = choose|i: int|
                0 <= i < ext.faces.len() && i < topo.kinds().len() && topo.kinds()[i] == FaceKind::Pec && (g
                    == ext.faces[i].global_edges[0] || g == ext.faces[i].global_edges[1] || g
                    == ext.faces[i].global_edges[2]);
            assert(face_matches(ext.faces[i], tets, table.edges@, sw[i]));
            lemma_boundary_edges_are_face_edges(tets, table, ext, sw, g as int);
        }
        if g < table.edges.len() && table.is_boundary[g as int] {
            lemma_boundary_edges_are_face_edges(tets, table, ext, sw, g as int);
            let i = choose|i: int|
                0 <= i < ext.faces.len() && (g as int == (#[trigger] ext.faces[i]).global_edges[0] as int || g as int
                    == ext.faces[i].global_edges[1] as int || g as int == ext.faces[i].global_edges[2] as int);
            assert(topo.kinds()[i] == FaceKind::Pec);
        }
    }
}

/// Every wave-port tag of a valid topology names a defined port: its port
/// index is below the number of ports, so a topology without ports has no
/// wave-port face.
pub proof fn lemma_wave_ports_are_defined(topo: BoundaryTopology, i: int)
    requires
        topo.wf(),
        0 <= i < topo.kinds().len(),
    ensures
        match topo.kinds()[i] {
            FaceKind::WavePort(p) => p < topo.port_count(),
            _ => true,
        },
        topo.port_count() == 0 ==> !(topo.kinds()[i] is WavePort),
{
    assert(!bad_port(topo.kinds()[i], topo.port_count()));
}

/// Adding edges to a PEC set twice is the same as adding them once.
pub proof fn lemma_pec_union_idempotent(pec: Set<usize>, edges: Seq<usize>)
    ensures
        pec.union(edges.to_set()).union(edges.to_set()) == pec.union(edges.to_set()),
{
    assert(pec.union(edges.to_set()).union(edges.to_set()) =~= pec.union(edges.to_set()));
}

/// Every global-edge index of the first `n` faces is at most
/// `max_face_edge(faces, n)`.
proof fn lemma_face_edges_below_max(faces: Seq<ExteriorFace>, n: nat)
    requires
        n <= faces.len(),
    ensures
        forall|i: int, k: int|
            0 <= i < n && 0 <= k < 3 ==> (#[trigger] faces[i].global_edges[k]) <= max_face_edge(faces, n),
    decreases n,
{
    if n > 0 {
        lemma_face_edges_below_max(faces, (n - 1) as nat);
    }
}

/// A bound on every face edge bounds their maximum.
proof fn lemma_max_face_edge_below(faces: Seq<ExteriorFace>, n: nat, b: int)
    requires
        n <= faces.len(),
        b > 0,
        forall|i: int, k: int| 0 <= i < n && 0 <= k < 3 ==> (#[trigger] faces[i].global_edges[k]) < b,
    ensures
        max_face_edge(faces, n) < b,
    decreases n,
{
    if n > 0 {
        lemma_max_face_edge_below(faces, (n - 1) as nat, b);
        assert(faces[n - 1].global_edges[0] < b);
        assert(faces[n - 1].global_edges[1] < b);
        assert(faces[n - 1].global_edges[2] < b);
    }
}

fn array3_to_vec<T: Copy>(a: &[T; 3]) -> (v: Vec<T>)
    ensures
        v@ == a@,
{
    let mut v: Vec<T> = Vec::new();
    v.push(a[0]);
    v.push(a[1]);
    v.push(a[2]);
    proof {
        assert(v@ =~= a@);
    }
    v
}

/// Where the boundary terms of exterior face `face`, tagged `kind`, land
/// in the driven system with edge-to-DoF table `dof`: a PEC face
/// contributes nothing, an absorbing face its 3x3 block, a wave-port face
/// its 3x3 block and its modal source vector.
pub open spec fn face_plan_ok(
    kind: FaceKind,
    face: ExteriorFace,
    block: Seq<ScatterEntry>,
    rhs: Seq<RhsEntry>,
    dof: Seq<Option<usize>>,
) -> bool {
    match kind {
        FaceKind::Pec => block.len() == 0 && rhs.len() == 0,
        FaceKind::Abc => block_plan_ok(block, face.global_edges@, face.signs@, dof) && rhs.len() == 0,
        FaceKind::WavePort(_) => {
            &&& block_plan_ok(block, face.global_edges@, face.signs@, dof)
            &&& rhs_plan_ok(rhs, face.global_edges@, face.signs@, dof)
        },
    }
}

/// Integer plan of the driven open-boundary system: the volume assembly
/// with the PEC edges eliminated, the edge-to-DoF table of the driven
/// system, and where each exterior face's boundary terms land.
pub struct DrivenPlan {
    /// Volume assembly plan with the PEC edges eliminated.
    pub assembly: AssemblyPlan,
    /// `dof_of_edge[e]` is the interior DoF of global edge `e`, `None` if
    /// the edge is eliminated.
    pub dof_of_edge: Vec<Option<usize>>,
    /// Per exterior face: scatter plan of its 3x3 boundary block.
    pub face_blocks: Vec<Vec<ScatterEntry>>,
    /// Per exterior face: scatter plan of its modal source vector.
    pub face_rhs: Vec<Vec<RhsEntry>>,
}

/// `plan` is the driven-system plan of `topo`: the volume assembly with
/// exactly the PEC set eliminated, the edge-to-DoF table sized by the
/// interior edges and the exterior-face edges (no PEC edge gets a DoF),
/// and the boundary terms of every exterior face placed by its tag.
pub open spec fn driven_plan_ok(topo: BoundaryTopology, plan: DrivenPlan) -> bool {
    &&& plan.assembly.plans(topo.tets(), flags_of_set(topo.pec_set(), plan.assembly.table.edges.len() as nat))
    &&& plan.assembly.table.edges@ == topo.table().edges@
    &&& plan.dof_of_edge.len() == driven_table_len(
        plan.assembly.lift.interior_edges@,
        (max_face_edge(topo.exterior().faces@, topo.exterior().faces.len() as nat) + 1) as usize,
    )
    &&& forall|d: int|
        0 <= d < plan.assembly.lift.interior_edges.len() ==> plan.dof_of_edge[#[trigger] plan.assembly.lift.interior_edges[d] as int]
            == Some(d as usize)
    &&& forall|e: int|
        0 <= e < plan.dof_of_edge.len() ==> match #[trigger] plan.dof_of_edge[e] {
            Some(d) => {
                &&& d < plan.assembly.lift.interior_edges.len()
                &&& plan.assembly.lift.interior_edges[d as int] == e
                &&& !topo.pec_set().contains(e as usize)
            },
            None => forall|d: int|
                0 <= d < plan.assembly.lift.interior_edges.len() ==> plan.assembly.lift.interior_edges[d] != e,
        }
    &&& plan.face_blocks.len() == topo.kinds().len()
    &&& plan.face_rhs.len() == topo.kinds().len()
    &&& forall|i: int|
        0 <= i < topo.kinds().len() ==> face_plan_ok(
            #[trigger] topo.kinds()[i],
            topo.exterior().faces[i],
            plan.face_blocks[i]@,
            plan.face_rhs[i]@,
            plan.dof_of_edge@,
        )
}

impl BoundaryTopology {
    /// Plan the driven system on `mesh` (the mesh the topology was built
    /// from): assemble with exactly the PEC set eliminated, size the
    /// edge-to-DoF table by the interior edges and the exterior-face edges,
    /// and scatter the boundary terms of every non-PEC face. No planned
    /// entry touches a PEC edge.
    pub fn driven_plan(&self, mesh: &TetMesh) -> (r: DrivenPlan)
        requires
            self.wf(),
            mesh.tetrahedra@ == self.tets(),
        ensures
            driven_plan_ok(*self, r),
    {
        let ghost tets = self.tets();
        let assembly = AssemblyPlan::build_with_pec_edges(mesh, &self.pec_global_edges);
        let ghost n_edges = assembly.table.edges.len() as int;
        let ghost elim = flags_of_set(self.pec_set(), n_edges as nat);
        let faces = &self.exterior_faces.faces;
        let n_faces = faces.len();
        proof {
            assert(forall|i: int, k: int|
                0 <= i < n_faces && 0 <= k < 3 ==> (#[trigger] faces[i].global_edges[k]) < n_edges) by {
                assert forall|i: int, k: int| 0 <= i < n_faces && 0 <= k < 3 implies (#[trigger] faces[i].global_edges[k])
                    < n_edges by {
                    assert(face_matches(faces[i], tets, mesh_edges(tets), self.swapped()[i]));
                }
            }
            lemma_face_edges_below_max(faces@, n_faces as nat);
            if n_faces > 0 {
                assert(faces[0].global_edges[0] < n_edges);
                lemma_max_face_edge_below(faces@, n_faces as nat, n_edges);
            }
            let ie = assembly.lift.interior_edges@;
            if ie.len() > 0 {
                assert(ie[0] < n_edges);
                lemma_max_or_zero_below(ie, n_edges);
            }
        }
        let total = self.total_global_edge_count();
        let dof = driven_dof_of_edge(&assembly.lift.interior_edges, total);
        let mut face_blocks: Vec<Vec<ScatterEntry>> = Vec::new();
        let mut face_rhs: Vec<Vec<RhsEntry>> = Vec::new();
        let mut i: usize = 0;
        while i < n_faces
            invariant
                self.wf(),
                tets == self.tets(),
                faces == &self.exterior_faces.faces,
                n_faces == faces.len(),
                n_faces == self.kinds().len(),
                total == max_face_edge(faces@, n_faces as nat) + 1,
                dof.len() == driven_table_len(assembly.lift.interior_edges@, total),
                forall|j: int, k: int|
                    0 <= j < n_faces && 0 <= k < 3 ==> (#[trigger] faces[j].global_edges[k]) <= max_face_edge(
                        faces@,
                        n_faces as nat,
                    ),
                i <= n_faces,
                face_blocks.len() == i,
                face_rhs.len() == i,
                forall|j: int|
                    0 <= j < i ==> face_plan_ok(
                        #[trigger] self.kinds()[j],
                        faces[j],
                        face_blocks[j]@,
                        face_rhs[j]@,
                        dof@,
                    ),
            decreases n_faces - i,
        {
            let face = faces[i];
            proof {
                assert(face_matches(face, tets, mesh_edges(tets), self.swapped()[i as int]));
            }
            let global = array3_to_vec(&face.global_edges);
            let signs = array3_to_vec(&face.signs);
            proof {
                assert forall|k: int| 0 <= k < global.len() implies (#[trigger] global[k]) < dof.len() by {
                    assert(faces[i as int].global_edges[k] <= max_face_edge(faces@, n_faces as nat));
                }
            }
            match self.face_kinds[i] {
                FaceKind::Pec => {
                    face_blocks.push(Vec::new());
                    face_rhs.push(Vec::new());
                },
                FaceKind::Abc => {
                    let block = block_scatter_plan(&global, &signs, &dof);
                    face_blocks.push(block);
                    face_rhs.push(Vec::new());
                },
                FaceKind::WavePort(_) => {
                    let block = block_scatter_plan(&global, &signs, &dof);
                    let rhs = rhs_scatter_plan(&global, &signs, &dof);
                    face_blocks.push(block);
                    face_rhs.push(rhs);
                },
            }
            i += 1;
        }
        proof {
            let ie = assembly.lift.interior_edges@;
            assert forall|e: int| 0 <= e < dof.len() && (#[trigger] dof[e]) is Some implies !self.pec_set().contains(
                e as usize,
            ) by {
                let d = dof[e]->0;
                assert(ie[d as int] == e);
                assert(assembly.lift.interior_dof_of_edge[ie[d as int] as int] == Some(d));
                assert(elim[e] == self.pec_set().contains(e as usize));
            }
        }
        DrivenPlan { assembly, dof_of_edge: dof, face_blocks, face_rhs }
    }
}

/// PEC takes precedence: no boundary block or source entry of any
/// exterior face lands on a PEC edge, even where an absorbing or wave-port
/// face shares that edge with a PEC face.
pub proof fn lemma_driven_plan_skips_pec(topo: BoundaryTopology, plan: DrivenPlan, f: int, q: int)
    requires
        topo.wf(),
        driven_plan_ok(topo, plan),
        0 <= f < topo.kinds().len(),
    ensures
        0 <= q < plan.face_blocks[f].len() ==> {
            let en = plan.face_blocks[f][q];
            let g = topo.exterior().faces[f].global_edges;
            &&& !topo.pec_set().contains(g[en.i as int])
            &&& !topo.pec_set().contains(g[en.j as int])
        },
        0 <= q < plan.face_rhs[f].len() ==> !topo.pec_set().contains(
            topo.exterior().faces[f].global_edges[plan.face_rhs[f][q].i as int],
        ),
{
    let face = topo.exterior().faces[f];
    let faces = topo.exterior().faces@;
    let dof = plan.dof_of_edge@;
    assert(face_plan_ok(topo.kinds()[f], face, plan.face_blocks[f]@, plan.face_rhs[f]@, dof));
    lemma_face_edges_below_max(faces, faces.len());
    let tets = topo.tets();
    let n_edges = topo.table().edges.len() as int;
    assert forall|i: int, k: int| 0 <= i < faces.len() && 0 <= k < 3 implies (#[trigger] faces[i].global_edges[k]) < n_edges by {
        assert(face_matches(faces[i], tets, mesh_edges(tets), topo.swapped()[i]));
    }
    assert(faces[0].global_edges[0] < n_edges);
    lemma_max_face_edge_below(faces, faces.len(), n_edges);
    assert(face.global_edges[0] < dof.len() && face.global_edges[1] < dof.len() && face.global_edges[2] < dof.len()) by {
        assert(faces[f].global_edges[0] <= max_face_edge(faces, faces.len()));
        assert(faces[f].global_edges[1] <= max_face_edge(faces, faces.len()));
        assert(faces[f].global_edges[2] <= max_face_edge(faces, faces.len()));
    }
    if 0 <= q < plan.face_blocks[f].len() {
        let en = plan.face_blocks[f][q];
        assert(plan.face_blocks[f]@[q] == en);
        let gi = face.global_edges[en.i as int];
        let gj = face.global_edges[en.j as int];
        assert(dof[gi as int] == Some(en.row));
        assert(dof[gj as int] == Some(en.col));
        assert(plan.dof_of_edge[gi as int] is Some);
        assert(plan.dof_of_edge[gj as int] is Some);
    }
    if 0 <= q < plan.face_rhs[f].len() {
        let en = plan.face_rhs[f][q];
        assert(plan.face_rhs[f]@[q] == en);
        let gi = face.global_edges[en.i as int];
        assert(dof[gi as int] == Some(en.row));
        assert(plan.dof_of_edge[gi as int] is Some);
    }
}

/// A fully-PEC tagging reproduces the closed cavity: the driven plan keeps
/// the closed-cavity degrees of freedom in the same order, scatters every
/// tetrahedron block to the same places, and no exterior face adds a
/// boundary term.
pub proof fn lemma_all_pec_driven_is_closed_cavity(topo: BoundaryTopology, plan: DrivenPlan, cavity: AssemblyPlan)
    requires
        topo.wf(),
        topo.pec_set() == pec_face_edges(topo.exterior().faces@, topo.kinds()),
        forall|i: int| 0 <= i < topo.kinds().len() ==> #[trigger] topo.kinds()[i] == FaceKind::Pec,
        driven_plan_ok(topo, plan),
        cavity.plans(topo.tets(), cavity.table.is_boundary@),
    ensures
        plan.assembly.lift.interior_edges@ == cavity.lift.interior_edges@,
        plan.assembly.lift.interior_dof_of_edge@ == cavity.lift.interior_dof_of_edge@,
        plan.assembly.tet_plans.len() == cavity.tet_plans.len(),
        forall|t: int| 0 <= t < cavity.tet_plans.len() ==> (#[trigger] cavity.tet_plans[t])@ == plan.assembly.tet_plans[t]@,
        forall|i: int| 0 <= i < plan.face_blocks.len() ==> (#[trigger] plan.face_blocks[i]).len() == 0,
        forall|i: int| 0 <= i < plan.face_rhs.len() ==> (#[trigger] plan.face_rhs[i]).len() == 0,
{
    let tets = topo.tets();
    lemma_all_pec_is_closed_cavity(topo);
    assert forall|e: usize| topo.pec_set().contains(e) <==> (e < cavity.table.edges.len() && cavity.table.is_boundary[e as int]) by {
        if e < cavity.table.edges.len() {
            assert(cavity.table.is_boundary[e as int] == topo.table().is_boundary[e as int]);
        }
    }
    lemma_all_pec_matches_closed_cavity(cavity, plan.assembly, tets, topo.pec_set());
    assert forall|i: int| 0 <= i < plan.face_blocks.len() implies (#[trigger] plan.face_blocks[i]).len() == 0 by {
        assert(face_plan_ok(topo.kinds()[i], topo.exterior().faces[i], plan.face_blocks[i]@, plan.face_rhs[i]@, plan.dof_of_edge@));
    }
    assert forall|i: int| 0 <= i < plan.face_rhs.len() implies (#[trigger] plan.face_rhs[i]).len() == 0 by {
        assert(face_plan_ok(topo.kinds()[i], topo.exterior().faces[i], plan.face_blocks[i]@, plan.face_rhs[i]@, plan.dof_of_edge@));
    }
}

/// Why a port's driving mode cannot be chosen.
#[derive(Clone, Copy, Debug, PartialEq, Eq, Structural)]
pub enum DrivingModeError {
    /// More than one mode of the port has a non-zero incident amplitude.
    MultipleDrivingModes {
        /// The port.
        port: PortId,
    },
    /// No mode of the port has a non-zero incident amplitude.
    NoDrivingMode {
        /// The port.
        port: PortId,
    },
}

/// Number of `true` entries among the first `n` of `s`.
pub open spec fn count_true(s: Seq<bool>, n: nat) -> nat
    decreases n,
{
    if n == 0 {
        0
    } else {
        count_true(s, (n - 1) as nat) + if s[n - 1] {
            1nat
        } else {
            0nat
        }
    }
}

/// Pick the unique driving mode of port `port_id`, where `driving[m]`
/// tells whether mode `m` carries a non-zero incident amplitude.
pub fn select_driving_mode(driving: &Vec<bool>, port_id: PortId) -> (res: Result<usize, DrivingModeError>)
    ensures
        count_true(driving@, driving.len() as nat) == 0 ==> res == Err::<usize, DrivingModeError>(
            DrivingModeError::NoDrivingMode { port: port_id },
        ),
        count_true(driving@, driving.len() as nat) > 1 ==> res == Err::<usize, DrivingModeError>(
            DrivingModeError::MultipleDrivingModes { port: port_id },
        ),
        count_true(driving@, driving.len() as nat) == 1 ==> match res {
            Ok(m) => m < driving.len() && driving[m as int],
            Err(_) => false,
        },
        match res {
            Ok(m) => m < driving.len() && driving[m as int] && forall|i: int|
                0 <= i < driving.len() && i != m ==> !driving[i],
            Err(DrivingModeError::NoDrivingMode { port }) => port == port_id && forall|i: int|
                0 <= i < driving.len() ==> !driving[i],
            Err(DrivingModeError::MultipleDrivingModes { port }) => port == port_id && exists|i: int, j: int|
                0 <= i < j < driving.len() && driving[i] && driving[j],
        },
{
    let mut found: Option<usize> = None;
    let n = driving.len();
    let mut i: usize = 0;
    while i < n
        invariant
            n == driving.len(),
            i <= n,
            count_true(driving@, i as nat) <= 1,
            match found {
                None => count_true(driving@, i as nat) == 0,
                Some(m) => count_true(driving@, i as nat) == 1 && m < i && driving[m as int],
            },
        decreases n - i,
    {
        if driving[i] {
            if found.is_some() {
                proof {
                    lemma_count_true_mono(driving@, (i + 1) as nat, n as nat);
                }
                return Err(DrivingModeError::MultipleDrivingModes { port: port_id });
            }
            found = Some(i);
        }
        i += 1;
    }
    match found {
        Some(m) => {
            proof {
                assert forall|i: int| 0 <= i < driving.len() && i != m implies !driving[i] by {
                    if driving[i] {
                        lemma_count_two(driving@, n as nat, i, m as int);
                    }
                }
            }
            Ok(m)
        },
        None => {
            proof {
                assert forall|i: int| 0 <= i < driving.len() implies !driving[i] by {
                    if driving[i] {
                        lemma_count_one(driving@, n as nat, i);
                    }
                }
            }
            Err(DrivingModeError::NoDrivingMode { port: port_id })
        },
    }
}

/// Counting `true` entries is filtering them out.
proof fn lemma_count_true_filter(s: Seq<bool>, n: nat)
    requires
        n <= s.len(),
    ensures
        count_true(s, n) == s.take(n as int).filter(|b: bool| b).len(),
    decreases n,
{
    if n > 0 {
        lemma_count_true_filter(s, (n - 1) as nat);
        assert(s.take(n as int) =~= s.take(n - 1).push(s[n - 1]));
        s.take(n - 1).lemma_filter_len_push(|b: bool| b, s[n - 1]);
    } else {
        assert(s.take(0).len() == 0);
        reveal(Seq::filter);
    }
}

/// A `true` entry below `n` is counted.
proof fn lemma_count_one(s: Seq<bool>, n: nat, i: int)
    requires
        0 <= i < n <= s.len(),
        s[i],
    ensures
        count_true(s, n) >= 1,
    decreases n,
{
    if i < n - 1 {
        lemma_count_one(s, (n - 1) as nat, i);
    } else {
        lemma_count_true_mono(s, 0, (n - 1) as nat);
    }
}

/// Two distinct `true` entries below `n` are both counted.
proof fn lemma_count_two(s: Seq<bool>, n: nat, i: int, j: int)
    requires
        0 <= i < n <= s.len(),
        0 <= j < n,
        i != j,
        s[i],
        s[j],
    ensures
        count_true(s, n) >= 2,
    decreases n,
{
    if i < n - 1 && j < n - 1 {
        lemma_count_two(s, (n - 1) as nat, i, j);
    } else if i == n - 1 {
        lemma_count_one(s, (n - 1) as nat, j);
    } else {
        lemma_count_one(s, (n - 1) as nat, i);
    }
}

/// Counting is per entry: turning one `false` entry below `n` to `true`
/// raises the count by one, whatever its neighbours hold; with no `true`
/// entry the count is zero.
pub proof fn lemma_count_true_per_entry(s: Seq<bool>, n: nat, i: int)
    requires
        n <= s.len(),
    ensures
        0 <= i < n && !s[i] ==> count_true(s.update(i, true), n) == count_true(s, n) + 1,
        (forall|q: int| 0 <= q < n ==> !s[q]) ==> count_true(s, n) == 0,
        count_true(s, n) == s.take(n as int).filter(|b: bool| b).len(),
    decreases n,
{
    lemma_count_true_filter(s, n);
    if n > 0 {
        lemma_count_true_per_entry(s, (n - 1) as nat, i);
        let u = s.update(i, true);
        if 0 <= i < n && !s[i] {
            if i < n - 1 {
                assert(u[n - 1] == s[n - 1]);
            } else {
                assert(count_true(u, (n - 1) as nat) == count_true(s, (n - 1) as nat)) by {
                    lemma_count_true_prefix_eq(s, u, (n - 1) as nat);
                }
            }
        }
    }
}

/// Counts over equal prefixes agree.
proof fn lemma_count_true_prefix_eq(s: Seq<bool>, u: Seq<bool>, n: nat)
    requires
        n <= s.len(),
        n <= u.len(),
        forall|q: int| 0 <= q < n ==> s[q] == u[q],
    ensures
        count_true(s, n) == count_true(u, n),
    decreases n,
{
    if n > 0 {
        lemma_count_true_prefix_eq(s, u, (n - 1) as nat);
    }
}

/// Counting over a longer prefix counts no fewer.
proof fn lemma_count_true_mono(s: Seq<bool>, a: nat, b: nat)
    requires
        a <= b,
    ensures
        count_true(s, a) <= count_true(s, b),
    decreases b - a,
{
    if a < b {
        lemma_count_true_mono(s, a, (b - 1) as nat);
    }
}

} // verus!
