//! Global edge numbering of a tetrahedral mesh.
//!
//! Edges are numbered in first-seen order while walking the tetrahedra in
//! order and, inside each tetrahedron, its six local edges in
//! [`LOCAL_EDGES`](crate::mesh::LOCAL_EDGES) order. Every consumer of the
//! global edge space (assembly, exterior faces, PEC elimination) uses this
//! one numbering.

use std::collections::HashMap;
use vstd::prelude::*;
use vstd::std_specs::hash::*;

use crate::faces::{face_has_edge, face_key, face_multiplicities, face_multiplicity, is_exterior_edge, local_face};
use crate::mesh::{canon, local_edge, EdgeKey, TetMesh};

verus! {

broadcast use vstd::std_specs::hash::group_hash_axioms;

/// Key of local edge `alpha` of tetrahedron `tet`.
pub open spec fn tet_edge_key(tet: [usize; 4], alpha: int) -> EdgeKey {
    canon(tet[local_edge(alpha).0], tet[local_edge(alpha).1])
}

/// Orientation sign of local edge `alpha` of `tet` against the canonical
/// (lower-vertex-first) global orientation.
pub open spec fn tet_edge_sign(tet: [usize; 4], alpha: int) -> i8 {
    if tet[local_edge(alpha).0] < tet[local_edge(alpha).1] {
        1i8
    } else {
        -1i8
    }
}

/// Key of the edge at position `n` of the mesh walk: tetrahedron `n / 6`,
/// local edge `n % 6`.
pub open spec fn walk_edge(tets: Seq<[usize; 4]>, n: int) -> EdgeKey {
    tet_edge_key(tets[n / 6], n % 6)
}

/// Distinct edges among the first `n` walk positions, in first-seen order.
pub open spec fn first_seen_edges(tets: Seq<[usize; 4]>, n: nat) -> Seq<EdgeKey>
    decreases n,
{
    if n == 0 {
        Seq::empty()
    } else {
        let prev = first_seen_edges(tets, (n - 1) as nat);
        let k = walk_edge(tets, n - 1);
        if prev.contains(k) {
            prev
        } else {
            prev.push(k)
        }
    }
}

/// The global edge list of a mesh: every distinct edge, in first-seen order.
pub open spec fn mesh_edges(tets: Seq<[usize; 4]>) -> Seq<EdgeKey> {
    first_seen_edges(tets, (6 * tets.len()) as nat)
}

/// Radix of the integer code of an edge key.
pub open spec fn edge_radix() -> int {
    0x1_0000_0000_0000_0000
}

/// Integer code of an edge key, used as a hash-map key.
pub open spec fn key_code(k: EdgeKey) -> int {
    k.from as int * edge_radix() + k.to as int
}

/// Local-to-global edge map of one tetrahedron.
#[derive(Clone, Copy, Debug)]
pub struct TetEdgeConnectivity {
    /// `global_edge[alpha]` is the global index of local edge `alpha`.
    pub global_edge: [usize; 6],
    /// `sign[alpha]` is `1` if local edge `alpha` runs from the lower to
    /// the higher global vertex index and `-1` otherwise.
    pub sign: [i8; 6],
}

/// `conn` is the connectivity of tetrahedron `tet` against edge list `edges`.
pub open spec fn conn_matches(conn: TetEdgeConnectivity, tet: [usize; 4], edges: Seq<EdgeKey>) -> bool {
    forall|a: int|
        0 <= a < 6 ==> {
            &&& (#[trigger] conn.global_edge[a]) < edges.len()
            &&& edges[conn.global_edge[a] as int] == tet_edge_key(tet, a)
            &&& conn.sign[a] == tet_edge_sign(tet, a)
        }
}

/// Against a duplicate-free edge list a tetrahedron has one connectivity.
pub proof fn lemma_conn_unique(c1: TetEdgeConnectivity, c2: TetEdgeConnectivity, tet: [usize; 4], edges: Seq<EdgeKey>)
    requires
        conn_matches(c1, tet, edges),
        conn_matches(c2, tet, edges),
        edges.no_duplicates(),
    ensures
        c1.global_edge@ == c2.global_edge@,
        c1.sign@ == c2.sign@,
{
    assert forall|a: int| 0 <= a < 6 implies c1.global_edge[a] == c2.global_edge[a] by {
        assert(edges[c1.global_edge[a] as int] == edges[c2.global_edge[a] as int]);
    }
    assert(c1.global_edge@ =~= c2.global_edge@);
    assert forall|a: int| 0 <= a < 6 implies c1.sign[a] == c2.sign[a] by {
        assert(c1.global_edge[a] < edges.len() && c2.global_edge[a] < edges.len());
    }
    assert(c1.sign@ =~= c2.sign@);
}

/// Every `usize` is below the code radix.
pub proof fn lemma_bounds()
    ensures
        usize::MAX < edge_radix(),
{
}

/// Distinct edge keys have distinct codes.
pub proof fn lemma_code_injective(a: EdgeKey, b: EdgeKey)
    requires
        key_code(a) == key_code(b),
    ensures
        a == b,
{
    let r = edge_radix();
    let (x1, y1, x2, y2) = (a.from as int, a.to as int, b.from as int, b.to as int);
    assert(0 <= y1 < r && 0 <= y2 < r && x1 >= 0 && x2 >= 0);
    assert(x1 == x2 && y1 == y2) by (nonlinear_arith)
        requires
            0 <= y1 < r,
            0 <= y2 < r,
            x1 * r + y1 == x2 * r + y2,
            r > 0,
    ;
}

fn edge_code(k: EdgeKey) -> (c: u128)
    ensures
        c as int == key_code(k),
{
    let r: u128 = 0x1_0000_0000_0000_0000;
    let x = k.from as u128;
    let y = k.to as u128;
    assert(x * r + y <= u128::MAX) by (nonlinear_arith)
        requires
            x <= usize::MAX,
            y <= usize::MAX,
            usize::MAX < r,
            r == 0x1_0000_0000_0000_0000,
    ;
    x * r + y
}

fn local_edge_ends(alpha: usize) -> (r: (usize, usize))
    requires
        alpha < 6,
    ensures
        r.0 as int == local_edge(alpha as int).0,
        r.1 as int == local_edge(alpha as int).1,
        r.0 < 4,
        r.1 < 4,
{
    if alpha == 0 {
        (0, 1)
    } else if alpha == 1 {
        (0, 2)
    } else if alpha == 2 {
        (0, 3)
    } else if alpha == 3 {
        (1, 2)
    } else if alpha == 4 {
        (1, 3)
    } else {
        (2, 3)
    }
}

/// Walk position `6 t + a` is local edge `a` of tetrahedron `t`.
proof fn lemma_walk_pos(t: int, a: int)
    requires
        t >= 0,
        0 <= a < 6,
    ensures
        (6 * t + a) / 6 == t,
        (6 * t + a) % 6 == a,
{
    assert((6 * t + a) / 6 == t && (6 * t + a) % 6 == a) by (nonlinear_arith)
        requires
            t >= 0,
            0 <= a < 6,
    ;
}

/// The first-seen edge list never repeats an edge.
pub proof fn lemma_first_seen_distinct(tets: Seq<[usize; 4]>, n: nat)
    ensures
        first_seen_edges(tets, n).no_duplicates(),
    decreases n,
{
    if n > 0 {
        lemma_first_seen_distinct(tets, (n - 1) as nat);
    }
}

/// The first-seen list holds exactly the keys met in the first `n` walk positions.
proof fn lemma_first_seen_members(tets: Seq<[usize; 4]>, n: nat)
    ensures
        first_seen_edges(tets, n).len() <= n,
        forall|k: EdgeKey| #[trigger] first_seen_edges(tets, n).contains(k) ==> exists|p: int| 0 <= p < n && walk_edge(tets, p) == k,
        forall|p: int| 0 <= p < n ==> first_seen_edges(tets, n).contains(#[trigger] walk_edge(tets, p)),
    decreases n,
{
    if n > 0 {
        lemma_first_seen_members(tets, (n - 1) as nat);
        let prev = first_seen_edges(tets, (n - 1) as nat);
        let cur = first_seen_edges(tets, n);
        let k = walk_edge(tets, n - 1);
        assert forall|x: EdgeKey| #[trigger] cur.contains(x) implies exists|p: int| 0 <= p < n && walk_edge(tets, p) == x by {
            if x != k {
                if !prev.contains(x) {
                    let j = choose|j: int| 0 <= j < cur.len() && cur[j] == x;
                    assert(j < prev.len());
                    assert(prev[j] == x);
                }
            }
        }
        assert forall|p: int| 0 <= p < n implies cur.contains(#[trigger] walk_edge(tets, p)) by {
            if p < n - 1 {
                let x = walk_edge(tets, p);
                let j = choose|j: int| 0 <= j < prev.len() && prev[j] == x;
                assert(cur[j] == x);
            } else if !prev.contains(k) {
                assert(cur[cur.len() - 1] == k);
            }
        }
    }
}

/// The global edge list holds every local edge of every tetrahedron, each
/// exactly once, and nothing else; so it has at most six edges per
/// tetrahedron.
pub proof fn lemma_edges_are_tet_edges(tets: Seq<[usize; 4]>)
    ensures
        mesh_edges(tets).no_duplicates(),
        mesh_edges(tets).len() <= 6 * tets.len(),
        forall|k: EdgeKey|
            #[trigger] mesh_edges(tets).contains(k) <==> exists|t: int, a: int|
                0 <= t < tets.len() && 0 <= a < 6 && #[trigger] tet_edge_key(tets[t], a) == k,
{
    let n = (6 * tets.len()) as nat;
    lemma_first_seen_members(tets, n);
    lemma_first_seen_distinct(tets, n);
    assert forall|k: EdgeKey|
        #[trigger] mesh_edges(tets).contains(k) <==> exists|t: int, a: int|
            0 <= t < tets.len() && 0 <= a < 6 && #[trigger] tet_edge_key(tets[t], a) == k by {
        if mesh_edges(tets).contains(k) {
            let p = choose|p: int| 0 <= p < n && walk_edge(tets, p) == k;
            let t = p / 6;
            let a = p % 6;
            assert(0 <= t < tets.len() && 0 <= a < 6) by (nonlinear_arith)
                requires
                    0 <= p < 6 * tets.len(),
                    t == p / 6,
                    a == p % 6,
            ;
            assert(tet_edge_key(tets[t], a) == k);
        }
        if exists|t: int, a: int| 0 <= t < tets.len() && 0 <= a < 6 && #[trigger] tet_edge_key(tets[t], a) == k {
            let (t, a) = choose|t: int, a: int| 0 <= t < tets.len() && 0 <= a < 6 && #[trigger] tet_edge_key(tets[t], a) == k;
            lemma_walk_pos(t, a);
            assert(0 <= 6 * t + a < n) by (nonlinear_arith)
                requires
                    0 <= t < tets.len(),
                    0 <= a < 6,
                    n == 6 * tets.len(),
            ;
            assert(walk_edge(tets, 6 * t + a) == k);
        }
    }
}

/// Hash-map invariant of the numbering: the map sends the code of each
/// listed edge to its index, and holds nothing else.
pub open spec fn code_map_inv(m: Map<u128, usize>, edges: Seq<EdgeKey>) -> bool {
    &&& forall|i: int|
        0 <= i < edges.len() ==> {
            &&& m.contains_key(key_code(#[trigger] edges[i]) as u128)
            &&& m[key_code(edges[i]) as u128] == i
        }
    &&& forall|c: u128|
        #[trigger] m.contains_key(c) ==> exists|i: int|
            0 <= i < edges.len() && key_code(#[trigger] edges[i]) == c
}

/// Number the edges of `tets`: the distinct edge list in first-seen order
/// and the per-tetrahedron local-to-global map with orientation signs.
pub fn number_edges(tets: &Vec<[usize; 4]>) -> (res: (Vec<EdgeKey>, Vec<TetEdgeConnectivity>))
    ensures
        res.0@ == mesh_edges(tets@),
        res.0@.no_duplicates(),
        res.1.len() == tets.len(),
        forall|t: int| 0 <= t < tets.len() ==> conn_matches(#[trigger] res.1[t], tets[t], res.0@),
{
    let mut map: HashMap<u128, usize> = HashMap::new();
    let mut edges: Vec<EdgeKey> = Vec::new();
    let mut tet_edges: Vec<TetEdgeConnectivity> = Vec::new();
    let n_tets = tets.len();
    let mut t: usize = 0;
    proof {
        lemma_bounds();
    }
    while t < n_tets
        invariant
            n_tets == tets.len(),
            t <= n_tets,
            edges@ == first_seen_edges(tets@, (6 * t) as nat),
            code_map_inv(map@, edges@),
            tet_edges.len() == t,
            forall|tt: int| 0 <= tt < t ==> conn_matches(#[trigger] tet_edges[tt], tets[tt], edges@),
        decreases n_tets - t,
    {
        let tet = tets[t];
        let mut global_edge: [usize; 6] = [0; 6];
        let mut sign: [i8; 6] = [0; 6];
        let mut alpha: usize = 0;
        while alpha < 6
            invariant
                n_tets == tets.len(),
                t < n_tets,
                tet == tets[t as int],
                alpha <= 6,
                edges@ == first_seen_edges(tets@, (6 * t + alpha) as nat),
                code_map_inv(map@, edges@),
                tet_edges.len() == t,
                forall|tt: int| 0 <= tt < t ==> conn_matches(#[trigger] tet_edges[tt], tets[tt], edges@),
                forall|a: int|
                    0 <= a < alpha ==> {
                        &&& (#[trigger] global_edge[a]) < edges.len()
                        &&& edges[global_edge[a] as int] == tet_edge_key(tet, a)
                        &&& sign[a] == tet_edge_sign(tet, a)
                    },
            decreases 6 - alpha,
        {
            let (li, lj) = local_edge_ends(alpha);
            let a = tet[li];
            let b = tet[lj];
            let key = EdgeKey::new(a, b);
            let code = edge_code(key);
            proof {
                lemma_walk_pos(t as int, alpha as int);
                assert(walk_edge(tets@, 6 * t + alpha) == key);
                lemma_first_seen_distinct(tets@, (6 * t + alpha) as nat);
            }
            let ghost old_edges = edges@;
            let idx: usize;
            match map.get(&code) {
                Some(i) => {
                    idx = *i;
                    proof {
                        let j = choose|j: int| 0 <= j < old_edges.len() && key_code(#[trigger] old_edges[j]) == code;
                        lemma_code_injective(old_edges[j], key);
                        assert(old_edges.contains(key));
                    }
                },
                None => {
                    proof {
                        if old_edges.contains(key) {
                            let j = choose|j: int| 0 <= j < old_edges.len() && old_edges[j] == key;
                            assert(map@.contains_key(key_code(old_edges[j]) as u128));
                            assert(false);
                        }
                    }
                    idx = edges.len();
                    edges.push(key);
                    map.insert(code, idx);
                    proof {
                        assert forall|c: u128| #[trigger] map@.contains_key(c) implies exists|i: int|
                            0 <= i < edges@.len() && key_code(#[trigger] edges@[i]) == c by {
                            if c != code {
                                let i = choose|i: int| 0 <= i < old_edges.len() && key_code(#[trigger] old_edges[i]) == c;
                                assert(edges@[i] == old_edges[i]);
                            } else {
                                assert(edges@[idx as int] == key);
                            }
                        }
                        assert forall|i: int| 0 <= i < edges@.len() implies {
                            &&& map@.contains_key(key_code(#[trigger] edges@[i]) as u128)
                            &&& map@[key_code(edges@[i]) as u128] == i
                        } by {
                            if i < old_edges.len() {
                                assert(edges@[i] == old_edges[i]);
                                if key_code(old_edges[i]) == code {
                                    lemma_code_injective(old_edges[i], key);
                                    assert(old_edges.contains(key));
                                }
                            }
                        }
                    }
                },
            }
            global_edge[alpha] = idx;
            sign[alpha] = if a < b { 1 } else { -1 };
            alpha += 1;
            proof {
                assert forall|tt: int| 0 <= tt < t implies conn_matches(#[trigger] tet_edges[tt], tets[tt], edges@) by {
                    assert(conn_matches(tet_edges[tt], tets[tt], old_edges));
                    assert forall|a: int| 0 <= a < 6 implies {
                        &&& (#[trigger] tet_edges[tt].global_edge[a]) < edges.len()
                        &&& edges[tet_edges[tt].global_edge[a] as int] == tet_edge_key(tets[tt], a)
                        &&& tet_edges[tt].sign[a] == tet_edge_sign(tets[tt], a)
                    } by {
                        let g = tet_edges[tt].global_edge[a] as int;
                        assert(edges@[g] == old_edges[g]);
                    }
                }
            }
        }
        tet_edges.push(TetEdgeConnectivity { global_edge, sign });
        t += 1;
        proof {
            assert forall|tt: int| 0 <= tt < t implies conn_matches(#[trigger] tet_edges[tt], tets[tt], edges@) by {
                if tt == t - 1 {
                    assert(tet_edges[tt].global_edge == global_edge);
                }
            }
        }
    }
    proof {
        lemma_first_seen_distinct(tets@, (6 * n_tets) as nat);
    }
    (edges, tet_edges)
}


/// Local edges of face `f`, as indices into the six local edges.
pub open spec fn face_edge_alphas(f: int) -> (int, int, int) {
    if f == 0 {
        (3, 4, 5)
    } else if f == 1 {
        (1, 2, 5)
    } else if f == 2 {
        (0, 2, 4)
    } else {
        (0, 1, 3)
    }
}

/// Global edge `e` is one of the three edges of face `f` of a tetrahedron
/// with connectivity `conn`.
pub open spec fn face_edge_id(conn: TetEdgeConnectivity, f: int, e: int) -> bool {
    let (a, b, c) = face_edge_alphas(f);
    e == conn.global_edge[a] as int || e == conn.global_edge[b] as int || e == conn.global_edge[c] as int
}

/// Edge `e` is among the face-edge ids of face `f` exactly when its key lies on that face.
proof fn lemma_face_edge_id(edges: Seq<EdgeKey>, conn: TetEdgeConnectivity, tet: [usize; 4], f: int, e: int)
    requires
        edges.no_duplicates(),
        conn_matches(conn, tet, edges),
        0 <= f < 4,
        0 <= e < edges.len(),
    ensures
        face_edge_id(conn, f, e) <==> face_has_edge(tet, f, edges[e]),
{
    let (a, b, c) = face_edge_alphas(f);
    assert(conn.global_edge[a] < edges.len());
    assert(conn.global_edge[b] < edges.len());
    assert(conn.global_edge[c] < edges.len());
    let ga = conn.global_edge[a] as int;
    let gb = conn.global_edge[b] as int;
    let gc = conn.global_edge[c] as int;
    assert(edges[ga] == tet_edge_key(tet, a));
    assert(edges[gb] == tet_edge_key(tet, b));
    assert(edges[gc] == tet_edge_key(tet, c));
    if face_has_edge(tet, f, edges[e]) {
        if edges[e] == edges[ga] {
            if e != ga {
                assert(!edges.no_duplicates());
            }
        } else if edges[e] == edges[gb] {
            if e != gb {
                assert(!edges.no_duplicates());
            }
        } else {
            if e != gc {
                assert(!edges.no_duplicates());
            }
        }
    }
}

/// Face `f` of tetrahedron `t` is exterior and carries global edge `e`.
pub open spec fn face_marks(conns: Seq<TetEdgeConnectivity>, counts: Seq<[usize; 4]>, t: int, f: int, e: int) -> bool {
    counts[t][f] == 1 && face_edge_id(conns[t], f, e)
}

fn mark_exterior_edges(
    tets: &Vec<[usize; 4]>,
    conns: &Vec<TetEdgeConnectivity>,
    counts: &Vec<[usize; 4]>,
    n_edges: usize,
    Ghost(edges): Ghost<Seq<EdgeKey>>,
) -> (is_boundary: Vec<bool>)
    requires
        conns.len() == tets.len(),
        counts.len() == tets.len(),
        edges.len() == n_edges,
        edges.no_duplicates(),
        forall|t: int| 0 <= t < tets.len() ==> conn_matches(#[trigger] conns[t], tets[t], edges),
        forall|t: int, f: int|
            0 <= t < tets.len() && 0 <= f < 4 ==> {
                &&& (#[trigger] counts[t][f]) as nat == face_multiplicity(tets@, face_key(tets[t], f))
                &&& counts[t][f] >= 1
            },
    ensures
        is_boundary.len() == n_edges,
        forall|e: int| 0 <= e < n_edges ==> (#[trigger] is_boundary[e] <==> is_exterior_edge(tets@, edges[e])),
{
    let mut is_boundary: Vec<bool> = Vec::new();
    let mut i: usize = 0;
    while i < n_edges
        invariant
            i <= n_edges,
            is_boundary.len() == i,
            forall|e: int| 0 <= e < i ==> !(#[trigger] is_boundary[e]),
        decreases n_edges - i,
    {
        is_boundary.push(false);
        i += 1;
    }
    let n = tets.len();
    let mut t: usize = 0;
    while t < n
        invariant
            n == tets.len(),
            conns.len() == n,
            counts.len() == n,
            t <= n,
            is_boundary.len() == n_edges,
            edges.len() == n_edges,
            forall|t: int| 0 <= t < tets.len() ==> conn_matches(#[trigger] conns[t], tets[t], edges),
            forall|t2: int, f2: int| 0 <= t2 < n && 0 <= f2 < 4 ==> (#[trigger] counts[t2][f2]) >= 1,
            forall|e: int|
                0 <= e < n_edges ==> (#[trigger] is_boundary[e] <==> exists|t2: int, f2: int|
                    0 <= t2 < t && 0 <= f2 < 4 && #[trigger] face_marks(conns@, counts@, t2, f2, e)),
        decreases n - t,
    {
        let conn = conns[t];
        let row = counts[t];
        let mut f: usize = 0;
        while f < 4
            invariant
                n == tets.len(),
                conns.len() == n,
                counts.len() == n,
                t < n,
                f <= 4,
                conn == conns[t as int],
                row == counts[t as int],
                is_boundary.len() == n_edges,
                edges.len() == n_edges,
                conn_matches(conn, tets[t as int], edges),
                forall|t2: int, f2: int| 0 <= t2 < n && 0 <= f2 < 4 ==> (#[trigger] counts[t2][f2]) >= 1,
                forall|e: int|
                    0 <= e < n_edges ==> (#[trigger] is_boundary[e] <==> ((exists|t2: int, f2: int|
                        0 <= t2 < t && 0 <= f2 < 4 && #[trigger] face_marks(conns@, counts@, t2, f2, e))
                        || (exists|f2: int| 0 <= f2 < f && #[trigger] face_marks(conns@, counts@, t as int, f2, e)))),
            decreases 4 - f,
        {
            if row[f] < 2 {
                let (a, b, c): (usize, usize, usize) = if f == 0 {
                    (3, 4, 5)
                } else if f == 1 {
                    (1, 2, 5)
                } else if f == 2 {
                    (0, 2, 4)
                } else {
                    (0, 1, 3)
                };
                let ga = conn.global_edge[a];
                let gb = conn.global_edge[b];
                let gc = conn.global_edge[c];
                let ghost before = is_boundary@;
                is_boundary.set(ga, true);
                is_boundary.set(gb, true);
                is_boundary.set(gc, true);
                proof {
                    assert forall|e: int|
                        0 <= e < n_edges implies (#[trigger] is_boundary[e] <==> ((exists|t2: int, f2: int|
                        0 <= t2 < t && 0 <= f2 < 4 && #[trigger] face_marks(conns@, counts@, t2, f2, e))
                        || (exists|f2: int| 0 <= f2 < f + 1 && #[trigger] face_marks(conns@, counts@, t as int, f2, e)))) by {
                        if face_marks(conns@, counts@, t as int, f as int, e) {
                        } else {
                            assert(is_boundary[e] == before[e]);
                        }
                    }
                }
            } else {
                proof {
                    assert forall|e: int|
                        0 <= e < n_edges implies (#[trigger] is_boundary[e] <==> ((exists|t2: int, f2: int|
                        0 <= t2 < t && 0 <= f2 < 4 && #[trigger] face_marks(conns@, counts@, t2, f2, e))
                        || (exists|f2: int| 0 <= f2 < f + 1 && #[trigger] face_marks(conns@, counts@, t as int, f2, e)))) by {
                        assert(!face_marks(conns@, counts@, t as int, f as int, e));
                    }
                }
            }
            f += 1;
        }
        t += 1;
        proof {
            assert forall|e: int|
                0 <= e < n_edges implies (#[trigger] is_boundary[e] <==> exists|t2: int, f2: int|
                0 <= t2 < t && 0 <= f2 < 4 && #[trigger] face_marks(conns@, counts@, t2, f2, e)) by {
                if is_boundary[e] {
                    if exists|f2: int| 0 <= f2 < 4 && #[trigger] face_marks(conns@, counts@, (t - 1) as int, f2, e) {
                        let f2 = choose|f2: int| 0 <= f2 < 4 && #[trigger] face_marks(conns@, counts@, (t - 1) as int, f2, e);
                        assert(face_marks(conns@, counts@, (t - 1) as int, f2, e));
                    }
                }
            }
        }
    }
    proof {
        assert forall|e: int| 0 <= e < n_edges implies (#[trigger] is_boundary[e] <==> is_exterior_edge(tets@, edges[e])) by {
            if is_boundary[e] {
                let (t2, f2) = choose|t2: int, f2: int| 0 <= t2 < n && 0 <= f2 < 4 && #[trigger] face_marks(conns@, counts@, t2, f2, e);
                lemma_face_edge_id(edges, conns[t2], tets[t2], f2, e);
                assert(face_multiplicity(tets@, face_key(tets[t2], f2)) == 1);
                assert(face_has_edge(tets[t2], f2, edges[e]));
            }
            if is_exterior_edge(tets@, edges[e]) {
                let (t2, f2) = choose|t2: int, f2: int|
                    0 <= t2 < tets.len() && 0 <= f2 < 4 && face_multiplicity(tets@, #[trigger] face_key(tets[t2], f2)) == 1
                        && #[trigger] face_has_edge(tets[t2], f2, edges[e]);
                lemma_face_edge_id(edges, conns[t2], tets[t2], f2, e);
                assert(counts[t2][f2] == 1);
                assert(face_marks(conns@, counts@, t2, f2, e));
            }
        }
    }
    is_boundary
}

/// Edge table of a tetrahedral mesh: the global edge list, the boundary
/// flag of every edge, the local-to-global map of every tetrahedron and
/// the multiplicity of every tetrahedron face.
#[derive(Clone, Debug)]
pub struct TetEdgeTable {
    /// All distinct edges, in first-seen order.
    pub edges: Vec<EdgeKey>,
    /// `is_boundary[e]` iff edge `e` lies on a face shared by exactly one
    /// tetrahedron.
    pub is_boundary: Vec<bool>,
    /// Local-to-global edge map and orientation signs of each tetrahedron.
    pub tet_edges: Vec<TetEdgeConnectivity>,
    /// `face_counts[t][f]` is the number of tetrahedron faces of the mesh
    /// carrying the vertex set of local face `f` of tetrahedron `t`.
    pub face_counts: Vec<[usize; 4]>,
}

impl TetEdgeTable {
    /// The table is the edge table of the tetrahedra `tets`.
    pub open spec fn built_from(&self, tets: Seq<[usize; 4]>) -> bool {
        &&& self.edges@ == mesh_edges(tets)
        &&& self.edges@.no_duplicates()
        &&& self.tet_edges.len() == tets.len()
        &&& forall|t: int| 0 <= t < tets.len() ==> conn_matches(#[trigger] self.tet_edges[t], tets[t], self.edges@)
        &&& self.face_counts.len() == tets.len()
        &&& forall|t: int, f: int|
            0 <= t < tets.len() && 0 <= f < 4 ==> {
                &&& (#[trigger] self.face_counts[t][f]) as nat == face_multiplicity(tets, face_key(tets[t], f))
                &&& self.face_counts[t][f] >= 1
            }
        &&& self.is_boundary.len() == self.edges.len()
        &&& forall|e: int|
            0 <= e < self.edges.len() ==> (#[trigger] self.is_boundary[e] <==> is_exterior_edge(tets, self.edges[e]))
    }

    /// Build the edge table of `mesh`.
    pub fn build(mesh: &TetMesh) -> (table: TetEdgeTable)
        ensures
            table.built_from(mesh.tetrahedra@),
    {
        let tets = &mesh.tetrahedra;
        let (edges, tet_edges) = number_edges(tets);
        let face_counts = face_multiplicities(tets, &tet_edges, Ghost(edges@));
        let is_boundary = mark_exterior_edges(tets, &tet_edges, &face_counts, edges.len(), Ghost(edges@));
        TetEdgeTable { edges, is_boundary, tet_edges, face_counts }
    }
}

} // verus!
