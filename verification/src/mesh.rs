//! The tetrahedral mesh model and its canonical local numbering.

use vstd::prelude::*;

verus! {

/// Material tag attached to each tetrahedron.
pub type MaterialTag = u32;

/// The six local edges of a tetrahedron as `(i, j)` pairs of local
/// vertex indices, lower index first.
pub const LOCAL_EDGES: [(usize, usize); 6] = [(0, 1), (0, 2), (0, 3), (1, 2), (1, 3), (2, 3)];

/// The four local faces of a tetrahedron: face `f` holds the three local
/// vertices other than vertex `f`.
pub const TET_FACES: [[usize; 3]; 4] = [[1, 2, 3], [0, 2, 3], [0, 1, 3], [0, 1, 2]];

/// Endpoints of local edge `alpha` (see [`LOCAL_EDGES`]).
pub open spec fn local_edge(alpha: int) -> (int, int) {
    if alpha == 0 {
        (0, 1)
    } else if alpha == 1 {
        (0, 2)
    } else if alpha == 2 {
        (0, 3)
    } else if alpha == 3 {
        (1, 2)
    } else if alpha == 4 {
        (1, 3)
    } else {
        (2, 3)
    }
}

/// Canonical edge key: the vertex pair with the lower index first.
#[derive(Clone, Copy, Debug, PartialEq, Eq, Hash, Structural)]
pub struct EdgeKey {
    /// Lower vertex index.
    pub from: usize,
    /// Higher (or equal) vertex index.
    pub to: usize,
}

/// The canonical key of the undirected edge `{a, b}`.
pub open spec fn canon(a: usize, b: usize) -> EdgeKey {
    if a < b {
        EdgeKey { from: a, to: b }
    } else {
        EdgeKey { from: b, to: a }
    }
}

impl EdgeKey {
    /// Canonical key of the edge between vertices `a` and `b`.
    pub fn new(a: usize, b: usize) -> (k: EdgeKey)
        ensures
            k == canon(a, b),
            k.from <= k.to,
            (k.from == a && k.to == b) || (k.from == b && k.to == a),
    {
        if a < b {
            EdgeKey { from: a, to: b }
        } else {
            EdgeKey { from: b, to: a }
        }
    }
}

/// Tetrahedral mesh topology: the vertex count, the four vertex indices
/// of every tetrahedron and one material tag per tetrahedron. Vertex
/// coordinates are held by the caller.
pub struct TetMesh {
    /// Number of vertices.
    pub n_vertices: usize,
    /// Vertex indices of each tetrahedron.
    pub tetrahedra: Vec<[usize; 4]>,
    /// Material tag of each tetrahedron.
    pub tetrahedron_material: Vec<MaterialTag>,
}

/// Why a mesh topology is refused.
#[derive(Clone, Copy, Debug, PartialEq, Eq, Structural)]
pub enum MeshError {
    /// The material list does not have one tag per tetrahedron.
    MaterialCount {
        /// Number of tetrahedra.
        expected: usize,
        /// Number of tags supplied.
        got: usize,
    },
    /// A tetrahedron names a vertex index `>= n_vertices`.
    VertexOutOfRange {
        /// Index of the offending tetrahedron.
        tet: usize,
    },
}

/// Every vertex index of `tet` is below `n`.
pub open spec fn tet_in_range(tet: [usize; 4], n: usize) -> bool {
    tet[0] < n && tet[1] < n && tet[2] < n && tet[3] < n
}

impl TetMesh {
    /// Every tetrahedron names existing vertices and carries one material
    /// tag.
    pub open spec fn wf(&self) -> bool {
        &&& self.tetrahedron_material.len() == self.tetrahedra.len()
        &&& forall|t: int| 0 <= t < self.tetrahedra.len() ==> tet_in_range(#[trigger] self.tetrahedra[t], self.n_vertices)
    }

    /// Build a mesh topology, checking that there is one material tag per
    /// tetrahedron (all tags `0` when `materials` is `None`) and that every
    /// vertex index is below `n_vertices`.
    pub fn new(n_vertices: usize, tetrahedra: Vec<[usize; 4]>, materials: Option<Vec<MaterialTag>>) -> (r: Result<TetMesh, MeshError>)
        ensures
            match materials {
                Some(m) => m.len() != tetrahedra.len() ==> r == Err::<TetMesh, MeshError>(
                    MeshError::MaterialCount { expected: tetrahedra.len(), got: m.len() },
                ),
                None => true,
            },
            (materials is None || materials->0.len() == tetrahedra.len()) ==> match r {
                Ok(mesh) => {
                    &&& mesh.wf()
                    &&& mesh.n_vertices == n_vertices
                    &&& mesh.tetrahedra@ == tetrahedra@
                    &&& match materials {
                        Some(m) => mesh.tetrahedron_material@ == m@,
                        None => forall|t: int| 0 <= t < tetrahedra.len() ==> #[trigger] mesh.tetrahedron_material[t] == 0,
                    }
                },
                Err(e) => exists|t: int|
                    0 <= t < tetrahedra.len() && !tet_in_range(tetrahedra[t], n_vertices) && (forall|u: int|
                        0 <= u < t ==> tet_in_range(#[trigger] tetrahedra[u], n_vertices)) && e == (
                    MeshError::VertexOutOfRange { tet: t as usize }),
            },
    {
        let n = tetrahedra.len();
        let ghost mats = materials;
        let tags: Vec<MaterialTag> = match materials {
            Some(m) => {
                if m.len() != n {
                    return Err(MeshError::MaterialCount { expected: n, got: m.len() });
                }
                m
            },
            None => {
                let mut v: Vec<MaterialTag> = Vec::new();
                let mut i: usize = 0;
                while i < n
                    invariant
                        i <= n,
                        v.len() == i,
                        forall|t: int| 0 <= t < i ==> #[trigger] v[t] == 0,
                    decreases n - i,
                {
                    v.push(0);
                    i += 1;
                }
                v
            },
        };
        let mut t: usize = 0;
        while t < n
            invariant
                n == tetrahedra.len(),
                t <= n,
                tags.len() == n,
                mats == materials,
                match mats {
                    Some(m) => m.len() == n && tags@ == m@,
                    None => forall|u: int| 0 <= u < n ==> #[trigger] tags[u] == 0,
                },
                forall|u: int| 0 <= u < t ==> tet_in_range(#[trigger] tetrahedra[u], n_vertices),
            decreases n - t,
        {
            let tet = tetrahedra[t];
            if !(tet[0] < n_vertices && tet[1] < n_vertices && tet[2] < n_vertices && tet[3] < n_vertices) {
                return Err(MeshError::VertexOutOfRange { tet: t });
            }
            t += 1;
        }
        Ok(TetMesh { n_vertices, tetrahedra, tetrahedron_material: tags })
    }

    /// Number of tetrahedra.
    pub fn n_tets(&self) -> (n: usize)
        ensures
            n == self.tetrahedra.len(),
    {
        self.tetrahedra.len()
    }
}

} // verus!
