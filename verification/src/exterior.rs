//! The exterior-face table: every face shared by exactly one tetrahedron,
//! in walk order, with its three global edges and orientation signs.
//!
//! Orienting a face outward needs vertex coordinates; the caller decides,
//! face by face, whether the two last vertices of the face swap (see
//! [`ExteriorFaceTable::with_orientation`]).

use vstd::prelude::*;

use crate::edges::{conn_matches, mesh_edges, tet_edge_key, TetEdgeConnectivity, TetEdgeTable};
use crate::faces::{face_has_edge, is_exterior_edge, lemma_canon_symmetric};
use crate::faces::{
    face_key, face_multiplicity, lemma_face_pos, lemma_local_edge_index, local_edge_index,
    local_edge_index_exec, local_face, walk_face,
};
use crate::mesh::{canon, EdgeKey, TetMesh};

verus! {

/// Positions `(t, f)` of the exterior faces among the first `n` positions
/// of the face walk, in walk order.
pub open spec fn exterior_faces_upto(tets: Seq<[usize; 4]>, n: nat) -> Seq<(int, int)>
    decreases n,
{
    if n == 0 {
        Seq::empty()
    } else {
        let prev = exterior_faces_upto(tets, (n - 1) as nat);
        let p = n - 1;
        if face_multiplicity(tets, walk_face(tets, p)) == 1 {
            prev.push((p / 4, p % 4))
        } else {
            prev
        }
    }
}

/// Positions `(t, f)` of all exterior faces of the mesh, in walk order.
pub open spec fn exterior_face_positions(tets: Seq<[usize; 4]>) -> Seq<(int, int)> {
    exterior_faces_upto(tets, (4 * tets.len()) as nat)
}

/// Local vertex order of face `f`: `(a, b, c)` from the face table, or
/// `(a, c, b)` when the two last vertices are swapped.
pub open spec fn oriented_locals(f: int, swapped: bool) -> (int, int, int) {
    let (a, b, c) = local_face(f);
    if swapped {
        (a, c, b)
    } else {
        (a, b, c)
    }
}

/// Orientation sign of the directed edge `u -> v`.
pub open spec fn dir_sign(u: usize, v: usize) -> i8 {
    if u < v {
        1i8
    } else {
        -1i8
    }
}

/// One exterior face.
#[derive(Clone, Copy, Debug)]
pub struct ExteriorFace {
    /// Index of the (unique) tetrahedron holding the face.
    pub tet: usize,
    /// Local face index inside that tetrahedron.
    pub local_face: usize,
    /// The three vertex indices of the face.
    pub vertices: [usize; 3],
    /// Global edge indices of the face edges `v0 -> v1`, `v1 -> v2`,
    /// `v2 -> v0`.
    pub global_edges: [usize; 3],
    /// Orientation sign of each face edge against the canonical global
    /// (lower-vertex-first) orientation.
    pub signs: [i8; 3],
}

/// `face` is local face `face.local_face` of tetrahedron `face.tet`, with
/// its vertices in the order `oriented_locals(.., swapped)`, and edges and
/// signs resolved against `edges`.
pub open spec fn face_matches(
    face: ExteriorFace,
    tets: Seq<[usize; 4]>,
    edges: Seq<EdgeKey>,
    swapped: bool,
) -> bool {
    let tet = tets[face.tet as int];
    let (l0, l1, l2) = oriented_locals(face.local_face as int, swapped);
    let v = face.vertices;
    &&& face.tet < tets.len()
    &&& face.local_face < 4
    &&& v[0] == tet[l0] && v[1] == tet[l1] && v[2] == tet[l2]
    &&& face.global_edges[0] < edges.len() && face.global_edges[1] < edges.len()
        && face.global_edges[2] < edges.len()
    &&& edges[face.global_edges[0] as int] == canon(v[0], v[1])
    &&& edges[face.global_edges[1] as int] == canon(v[1], v[2])
    &&& edges[face.global_edges[2] as int] == canon(v[2], v[0])
    &&& face.signs[0] == dir_sign(v[0], v[1])
    &&& face.signs[1] == dir_sign(v[1], v[2])
    &&& face.signs[2] == dir_sign(v[2], v[0])
}

fn oriented_locals_exec(f: usize, swapped: bool) -> (r: (usize, usize, usize))
    requires
        f < 4,
    ensures
        r.0 as int == oriented_locals(f as int, swapped).0,
        r.1 as int == oriented_locals(f as int, swapped).1,
        r.2 as int == oriented_locals(f as int, swapped).2,
        r.0 < 4 && r.1 < 4 && r.2 < 4,
        r.0 != r.1 && r.1 != r.2 && r.0 != r.2,
{
    let (a, b, c): (usize, usize, usize) = if f == 0 {
        (1, 2, 3)
    } else if f == 1 {
        (0, 2, 3)
    } else if f == 2 {
        (0, 1, 3)
    } else {
        (0, 1, 2)
    };
    if swapped {
        (a, c, b)
    } else {
        (a, b, c)
    }
}

fn face_edge(tet: &[usize; 4], conn: &TetEdgeConnectivity, li: usize, lj: usize, Ghost(edges): Ghost<Seq<EdgeKey>>) -> (r: (usize, i8))
    requires
        li < 4,
        lj < 4,
        li != lj,
        conn_matches(*conn, *tet, edges),
    ensures
        r.0 < edges.len(),
        edges[r.0 as int] == canon(tet[li as int], tet[lj as int]),
        r.1 == dir_sign(tet[li as int], tet[lj as int]),
{
    let alpha = local_edge_index_exec(li, lj);
    proof {
        lemma_local_edge_index(*tet, li as int, lj as int);
    }
    let g = conn.global_edge[alpha];
    let s: i8 = if tet[li] < tet[lj] { 1 } else { -1 };
    (g, s)
}

fn make_face(
    tet: &[usize; 4],
    conn: &TetEdgeConnectivity,
    t: usize,
    f: usize,
    swapped: bool,
    Ghost(tets): Ghost<Seq<[usize; 4]>>,
    Ghost(edges): Ghost<Seq<EdgeKey>>,
) -> (face: ExteriorFace)
    requires
        f < 4,
        t < tets.len(),
        *tet == tets[t as int],
        conn_matches(*conn, *tet, edges),
    ensures
        face.tet == t,
        face.local_face == f,
        face_matches(face, tets, edges, swapped),
{
    let (l0, l1, l2) = oriented_locals_exec(f, swapped);
    let (e0, s0) = face_edge(tet, conn, l0, l1, Ghost(edges));
    let (e1, s1) = face_edge(tet, conn, l1, l2, Ghost(edges));
    let (e2, s2) = face_edge(tet, conn, l2, l0, Ghost(edges));
    ExteriorFace {
        tet: t,
        local_face: f,
        vertices: [tet[l0], tet[l1], tet[l2]],
        global_edges: [e0, e1, e2],
        signs: [s0, s1, s2],
    }
}

/// The exterior faces of a mesh.
#[derive(Clone, Debug)]
pub struct ExteriorFaceTable {
    /// Exterior faces, in walk order (tetrahedron by tetrahedron, local
    /// face by local face).
    pub faces: Vec<ExteriorFace>,
}

impl ExteriorFaceTable {
    /// The table lists the exterior faces of `tets` in walk order, face `i`
    /// with its two last vertices swapped iff `swapped[i]`.
    pub open spec fn oriented(&self, tets: Seq<[usize; 4]>, swapped: Seq<bool>) -> bool {
        let pos = exterior_face_positions(tets);
        &&& self.faces.len() == pos.len()
        &&& swapped.len() == pos.len()
        &&& forall|i: int|
            0 <= i < pos.len() ==> {
                &&& (#[trigger] self.faces[i]).tet as int == pos[i].0
                &&& self.faces[i].local_face as int == pos[i].1
                &&& face_matches(self.faces[i], tets, mesh_edges(tets), swapped[i])
            }
    }

    /// The table lists the exterior faces of `tets` in walk order, each with
    /// the vertex order of [`TET_FACES`](crate::mesh::TET_FACES).
    pub open spec fn canonical(&self, tets: Seq<[usize; 4]>) -> bool {
        self.oriented(tets, Seq::new(exterior_face_positions(tets).len(), |i: int| false))
    }

    /// Build the exterior-face table of `mesh` from its edge table.
    pub fn build(mesh: &TetMesh, table: &TetEdgeTable) -> (res: ExteriorFaceTable)
        requires
            table.built_from(mesh.tetrahedra@),
        ensures
            res.canonical(mesh.tetrahedra@),
    {
        let tets = &mesh.tetrahedra;
        let ghost edges = table.edges@;
        let n = tets.len();
        let mut faces: Vec<ExteriorFace> = Vec::new();
        let mut t: usize = 0;
        while t < n
            invariant
                n == tets.len(),
                t <= n,
                table.built_from(tets@),
                edges == table.edges@,
                faces.len() == exterior_faces_upto(tets@, (4 * t) as nat).len(),
                forall|i: int|
                    0 <= i < faces.len() ==> {
                        &&& (#[trigger] faces[i]).tet as int == exterior_faces_upto(tets@, (4 * t) as nat)[i].0
                        &&& faces[i].local_face as int == exterior_faces_upto(tets@, (4 * t) as nat)[i].1
                        &&& face_matches(faces[i], tets@, edges, false)
                    },
            decreases n - t,
        {
            let tet = tets[t];
            let conn = table.tet_edges[t];
            let row = table.face_counts[t];
            let mut f: usize = 0;
            while f < 4
                invariant
                    n == tets.len(),
                    t < n,
                    f <= 4,
                    table.built_from(tets@),
                    edges == table.edges@,
                    tet == tets[t as int],
                    conn == table.tet_edges[t as int],
                    row == table.face_counts[t as int],
                    faces.len() == exterior_faces_upto(tets@, (4 * t + f) as nat).len(),
                    forall|i: int|
                        0 <= i < faces.len() ==> {
                            &&& (#[trigger] faces[i]).tet as int == exterior_faces_upto(tets@, (4 * t + f) as nat)[i].0
                            &&& faces[i].local_face as int == exterior_faces_upto(tets@, (4 * t + f) as nat)[i].1
                            &&& face_matches(faces[i], tets@, edges, false)
                        },
                decreases 4 - f,
            {
                proof {
                    lemma_face_pos(t as int, f as int);
                    assert(row[f as int] as nat == face_multiplicity(tets@, face_key(tets[t as int], f as int)));
                }
                if row[f] == 1 {
                    let face = make_face(&tet, &conn, t, f, false, Ghost(tets@), Ghost(edges));
                    faces.push(face);
                }
                f += 1;
            }
            t += 1;
        }
        let res = ExteriorFaceTable { faces };
        proof {
            let sw = Seq::new(exterior_face_positions(tets@).len(), |i: int| false);
            assert forall|i: int| 0 <= i < exterior_face_positions(tets@).len() implies {
                &&& (#[trigger] res.faces[i]).tet as int == exterior_face_positions(tets@)[i].0
                &&& res.faces[i].local_face as int == exterior_face_positions(tets@)[i].1
                &&& face_matches(res.faces[i], tets@, mesh_edges(tets@), sw[i])
            } by {
            }
        }
        res
    }

    /// Re-order the vertices of every face: face `i` gets its two last
    /// vertices swapped iff `swap[i]`, with edges and signs recomputed.
    pub fn with_orientation(self, mesh: &TetMesh, table: &TetEdgeTable, swap: &Vec<bool>) -> (res: ExteriorFaceTable)
        requires
            table.built_from(mesh.tetrahedra@),
            self.canonical(mesh.tetrahedra@),
            swap.len() == self.faces.len(),
        ensures
            res.oriented(mesh.tetrahedra@, swap@),
    {
        let tets = &mesh.tetrahedra;
        let ghost edges = table.edges@;
        let ghost pos = exterior_face_positions(tets@);
        let n = self.faces.len();
        let mut faces: Vec<ExteriorFace> = Vec::new();
        let mut i: usize = 0;
        while i < n
            invariant
                n == self.faces.len(),
                n == swap.len(),
                i <= n,
                table.built_from(tets@),
                edges == table.edges@,
                self.canonical(tets@),
                pos == exterior_face_positions(tets@),
                faces.len() == i,
                forall|k: int|
                    0 <= k < i ==> {
                        &&& (#[trigger] faces[k]).tet as int == pos[k].0
                        &&& faces[k].local_face as int == pos[k].1
                        &&& face_matches(faces[k], tets@, edges, swap[k])
                    },
            decreases n - i,
        {
            let old_face = self.faces[i];
            let ghost sw = Seq::new(exterior_face_positions(tets@).len(), |i: int| false);
            assert(face_matches(old_face, tets@, edges, sw[i as int]));
            let t = old_face.tet;
            let tet = tets[t];
            let conn = table.tet_edges[t];
            let face = make_face(&tet, &conn, t, old_face.local_face, swap[i], Ghost(tets@), Ghost(edges));
            faces.push(face);
            i += 1;
        }
        ExteriorFaceTable { faces }
    }
}

/// Number of exterior faces of `mesh`: faces shared by exactly one
/// tetrahedron.
pub fn exterior_face_count(mesh: &TetMesh) -> (n: usize)
    ensures
        n == exterior_face_positions(mesh.tetrahedra@).len(),
{
    let table = TetEdgeTable::build(mesh);
    let faces = ExteriorFaceTable::build(mesh, &table);
    faces.faces.len()
}

/// A position with multiplicity one is listed among the exterior
/// positions, and every listed position has multiplicity one.
pub proof fn lemma_exterior_positions(tets: Seq<[usize; 4]>, n: nat)
    ensures
        forall|i: int|
            0 <= i < exterior_faces_upto(tets, n).len() ==> {
                let (t, f) = #[trigger] exterior_faces_upto(tets, n)[i];
                &&& 0 <= f < 4
                &&& 0 <= 4 * t + f < n
                &&& face_multiplicity(tets, walk_face(tets, 4 * t + f)) == 1
            },
        forall|t: int, f: int|
            0 <= f < 4 && 0 <= 4 * t + f < n && face_multiplicity(tets, #[trigger] walk_face(tets, 4 * t + f)) == 1
                ==> exterior_faces_upto(tets, n).contains((t, f)),
    decreases n,
{
    if n > 0 {
        lemma_exterior_positions(tets, (n - 1) as nat);
        let p = n - 1;
        let prev = exterior_faces_upto(tets, (n - 1) as nat);
        let cur = exterior_faces_upto(tets, n);
        assert(p == 4 * (p / 4) + p % 4 && 0 <= p % 4 < 4 && p / 4 >= 0) by (nonlinear_arith)
            requires
                p >= 0,
        ;
        assert forall|i: int| 0 <= i < cur.len() implies {
            let (t, f) = #[trigger] cur[i];
            &&& 0 <= f < 4
            &&& 0 <= 4 * t + f < n
            &&& face_multiplicity(tets, walk_face(tets, 4 * t + f)) == 1
        } by {
            if i < prev.len() {
                assert(cur[i] == prev[i]);
            }
        }
        assert forall|t: int, f: int|
            0 <= f < 4 && 0 <= 4 * t + f < n && face_multiplicity(tets, #[trigger] walk_face(tets, 4 * t + f)) == 1
            implies cur.contains((t, f)) by {
            if 4 * t + f < p {
                let j = choose|j: int| 0 <= j < prev.len() && prev[j] == (t, f);
                assert(cur[j] == (t, f));
            } else {
                assert(t == p / 4 && f == p % 4) by (nonlinear_arith)
                    requires
                        4 * t + f == p,
                        0 <= f < 4,
                        p == 4 * (p / 4) + p % 4,
                        0 <= p % 4 < 4,
                ;
                assert(cur[cur.len() - 1] == (t, f));
            }
        }
    }
}

/// Swapping the two last vertices of a face reverses its edge cycle: the
/// face edges come in reverse order and, for a face with three distinct
/// vertices, every orientation sign flips.
pub proof fn lemma_swap_reverses_face(a: ExteriorFace, b: ExteriorFace, tets: Seq<[usize; 4]>)
    requires
        face_matches(a, tets, mesh_edges(tets), false),
        face_matches(b, tets, mesh_edges(tets), true),
        a.tet == b.tet,
        a.local_face == b.local_face,
    ensures
        b.vertices[0] == a.vertices[0] && b.vertices[1] == a.vertices[2] && b.vertices[2] == a.vertices[1],
        b.global_edges[0] == a.global_edges[2],
        b.global_edges[1] == a.global_edges[1],
        b.global_edges[2] == a.global_edges[0],
        a.vertices[0] != a.vertices[1] && a.vertices[1] != a.vertices[2] && a.vertices[2] != a.vertices[0] ==> {
            &&& b.signs[0] == -a.signs[2]
            &&& b.signs[1] == -a.signs[1]
            &&& b.signs[2] == -a.signs[0]
        },
{
    let edges = mesh_edges(tets);
    crate::edges::lemma_first_seen_distinct(tets, (6 * tets.len()) as nat);
    let v = a.vertices;
    lemma_canon_symmetric(v[0], v[1]);
    lemma_canon_symmetric(v[1], v[2]);
    lemma_canon_symmetric(v[2], v[0]);
    let (ga, gb) = (a.global_edges, b.global_edges);
    if gb[0] != ga[2] {
        assert(edges[gb[0] as int] == edges[ga[2] as int]);
        assert(!edges.no_duplicates());
    }
    if gb[1] != ga[1] {
        assert(edges[gb[1] as int] == edges[ga[1] as int]);
        assert(!edges.no_duplicates());
    }
    if gb[2] != ga[0] {
        assert(edges[gb[2] as int] == edges[ga[0] as int]);
        assert(!edges.no_duplicates());
    }
}

/// The boundary edges of the edge table are exactly the edges of the
/// exterior faces.
pub proof fn lemma_boundary_edges_are_face_edges(
    tets: Seq<[usize; 4]>,
    table: TetEdgeTable,
    ext: ExteriorFaceTable,
    swapped: Seq<bool>,
    e: int,
)
    requires
        table.built_from(tets),
        ext.oriented(tets, swapped),
        0 <= e < table.edges.len(),
    ensures
        table.is_boundary[e] <==> exists|i: int|
            0 <= i < ext.faces.len() && (e == (#[trigger] ext.faces[i]).global_edges[0] as int || e
                == ext.faces[i].global_edges[1] as int || e == ext.faces[i].global_edges[2] as int),
{
    let edges = table.edges@;
    let pos = exterior_face_positions(tets);
    lemma_exterior_positions(tets, (4 * tets.len()) as nat);
    if table.is_boundary[e] {
        assert(is_exterior_edge(tets, edges[e]));
        let (t, f) = choose|t: int, f: int|
            0 <= t < tets.len() && 0 <= f < 4 && face_multiplicity(tets, #[trigger] face_key(tets[t], f)) == 1
                && #[trigger] face_has_edge(tets[t], f, edges[e]);
        crate::faces::lemma_face_pos(t, f);
        assert(walk_face(tets, 4 * t + f) == face_key(tets[t], f));
        assert(pos.contains((t, f)));
        let i = choose|i: int| 0 <= i < pos.len() && pos[i] == (t, f);
        let fc = ext.faces[i];
        assert(face_matches(fc, tets, edges, swapped[i]));
        let tet = tets[t];
        let v = fc.vertices;
        lemma_canon_symmetric(v[0], v[1]);
        lemma_canon_symmetric(v[1], v[2]);
        lemma_canon_symmetric(v[2], v[0]);
        lemma_canon_symmetric(tet[local_face(f).0], tet[local_face(f).1]);
        lemma_canon_symmetric(tet[local_face(f).0], tet[local_face(f).2]);
        lemma_canon_symmetric(tet[local_face(f).1], tet[local_face(f).2]);
        let g0 = fc.global_edges[0] as int;
        let g1 = fc.global_edges[1] as int;
        let g2 = fc.global_edges[2] as int;
        if edges[e] == edges[g0] {
            if e != g0 {
                assert(!edges.no_duplicates());
            }
        } else if edges[e] == edges[g1] {
            if e != g1 {
                assert(!edges.no_duplicates());
            }
        } else {
            assert(edges[e] == edges[g2]);
            if e != g2 {
                assert(!edges.no_duplicates());
            }
        }
        assert(e == ext.faces[i].global_edges[0] as int || e == ext.faces[i].global_edges[1] as int
            || e == ext.faces[i].global_edges[2] as int);
    }
    if exists|i: int|
        0 <= i < ext.faces.len() && (e == (#[trigger] ext.faces[i]).global_edges[0] as int || e
            == ext.faces[i].global_edges[1] as int || e == ext.faces[i].global_edges[2] as int) {
        let i = choose|i: int|
            0 <= i < ext.faces.len() && (e == (#[trigger] ext.faces[i]).global_edges[0] as int || e
                == ext.faces[i].global_edges[1] as int || e == ext.faces[i].global_edges[2] as int);
        let fc = ext.faces[i];
        assert(face_matches(fc, tets, edges, swapped[i]));
        let (t, f) = pos[i];
        assert(fc.tet as int == t && fc.local_face as int == f);
        assert(face_multiplicity(tets, walk_face(tets, 4 * t + f)) == 1);
        crate::faces::lemma_face_pos(t, f);
        let tet = tets[t];
        let v = fc.vertices;
        lemma_canon_symmetric(v[0], v[1]);
        lemma_canon_symmetric(v[1], v[2]);
        lemma_canon_symmetric(v[2], v[0]);
        assert(face_has_edge(tet, f, edges[e]));
        assert(face_multiplicity(tets, face_key(tets[t], f)) == 1);
        assert(is_exterior_edge(tets, edges[e]));
    }
}

} // verus!
