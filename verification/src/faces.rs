//! Face incidence of a tetrahedral mesh.
//!
//! A face is identified by the sorted triple of its vertex indices; its
//! multiplicity is the number of tetrahedron faces carrying that triple.
//! Faces of multiplicity one are exterior (boundary) faces.

use std::collections::HashMap;
use vstd::prelude::*;
use vstd::std_specs::hash::*;

use crate::edges::{
    conn_matches, edge_radix, key_code, lemma_bounds, lemma_code_injective, tet_edge_key,
    TetEdgeConnectivity,
};
use crate::mesh::{canon, local_edge, EdgeKey};

verus! {

broadcast use vstd::std_specs::hash::group_hash_axioms;

/// Local vertices of face `f` (the face opposite local vertex `f`).
pub open spec fn local_face(f: int) -> (int, int, int) {
    if f == 0 {
        (1, 2, 3)
    } else if f == 1 {
        (0, 2, 3)
    } else if f == 2 {
        (0, 1, 3)
    } else {
        (0, 1, 2)
    }
}

/// Ascending order of three vertex indices.
pub open spec fn sort3(x: usize, y: usize, z: usize) -> (usize, usize, usize) {
    if x <= y {
        if y <= z {
            (x, y, z)
        } else if x <= z {
            (x, z, y)
        } else {
            (z, x, y)
        }
    } else {
        if x <= z {
            (y, x, z)
        } else if y <= z {
            (y, z, x)
        } else {
            (z, y, x)
        }
    }
}

/// Key of local face `f` of `tet`: its sorted vertex triple.
pub open spec fn face_key(tet: [usize; 4], f: int) -> (usize, usize, usize) {
    sort3(tet[local_face(f).0], tet[local_face(f).1], tet[local_face(f).2])
}

/// Face key at position `p` of the face walk: tetrahedron `p / 4`, local
/// face `p % 4`.
pub open spec fn walk_face(tets: Seq<[usize; 4]>, p: int) -> (usize, usize, usize) {
    face_key(tets[p / 4], p % 4)
}

/// Number of positions among the first `n` of the face walk carrying `key`.
pub open spec fn count_face(tets: Seq<[usize; 4]>, n: nat, key: (usize, usize, usize)) -> nat
    decreases n,
{
    if n == 0 {
        0
    } else {
        count_face(tets, (n - 1) as nat, key) + if walk_face(tets, n - 1) == key {
            1nat
        } else {
            0nat
        }
    }
}

/// Number of tetrahedron faces of the mesh carrying `key`.
pub open spec fn face_multiplicity(tets: Seq<[usize; 4]>, key: (usize, usize, usize)) -> nat {
    count_face(tets, (4 * tets.len()) as nat, key)
}

/// `k` is one of the three edges of local face `f` of `tet`.
pub open spec fn face_has_edge(tet: [usize; 4], f: int, k: EdgeKey) -> bool {
    let (a, b, c) = local_face(f);
    k == canon(tet[a], tet[b]) || k == canon(tet[a], tet[c]) || k == canon(tet[b], tet[c])
}

/// `k` lies on a face shared by exactly one tetrahedron.
pub open spec fn is_exterior_edge(tets: Seq<[usize; 4]>, k: EdgeKey) -> bool {
    exists|t: int, f: int|
        0 <= t < tets.len() && 0 <= f < 4 && face_multiplicity(tets, #[trigger] face_key(tets[t], f)) == 1
            && #[trigger] face_has_edge(tets[t], f, k)
}

/// Number of positions of `x` among the first `n` entries of `s`.
pub open spec fn count_eq<T>(s: Seq<T>, n: nat, x: T) -> nat
    decreases n,
{
    if n == 0 {
        0
    } else {
        count_eq(s, (n - 1) as nat, x) + if s[n - 1] == x {
            1nat
        } else {
            0nat
        }
    }
}

/// Local index of the edge between local vertices `i` and `j`.
pub open spec fn local_edge_index(i: int, j: int) -> int {
    let (a, b) = if i < j {
        (i, j)
    } else {
        (j, i)
    };
    if a == 0 && b == 1 {
        0
    } else if a == 0 && b == 2 {
        1
    } else if a == 0 && b == 3 {
        2
    } else if a == 1 && b == 2 {
        3
    } else if a == 1 && b == 3 {
        4
    } else {
        5
    }
}

/// Local indices of the vertices of face `f` of `tet`, ordered by
/// ascending global vertex index.
pub open spec fn sorted_face_locals(tet: [usize; 4], f: int) -> (int, int, int) {
    let (a, b, c) = local_face(f);
    let (x, y, z) = (tet[a], tet[b], tet[c]);
    if x <= y {
        if y <= z {
            (a, b, c)
        } else if x <= z {
            (a, c, b)
        } else {
            (c, a, b)
        }
    } else {
        if x <= z {
            (b, a, c)
        } else if y <= z {
            (b, c, a)
        } else {
            (c, b, a)
        }
    }
}

/// Integer code of face `f` of a tetrahedron with connectivity `conn`:
/// the global index of the edge joining its two lowest vertices, and its
/// highest vertex.
pub open spec fn face_code(conn: TetEdgeConnectivity, tet: [usize; 4], f: int) -> int {
    let (i, j, k) = sorted_face_locals(tet, f);
    conn.global_edge[local_edge_index(i, j)] as int * edge_radix() + tet[k] as int
}

/// The canonical key ignores the direction of the edge.
pub proof fn lemma_canon_symmetric(a: usize, b: usize)
    ensures
        canon(a, b) == canon(b, a),
{
}

/// `local_edge_index(i, j)` is the local edge joining local vertices `i` and `j`.
pub proof fn lemma_local_edge_index(tet: [usize; 4], i: int, j: int)
    requires
        0 <= i < 4,
        0 <= j < 4,
        i != j,
    ensures
        0 <= local_edge_index(i, j) < 6,
        tet_edge_key(tet, local_edge_index(i, j)) == canon(tet[i], tet[j]),
{
    lemma_canon_symmetric(tet[i], tet[j]);
}

/// The sorted local vertices of face `f` give its face key in ascending order.
proof fn lemma_sorted_locals(tet: [usize; 4], f: int)
    requires
        0 <= f < 4,
    ensures
        ({
            let (i, j, k) = sorted_face_locals(tet, f);
            &&& 0 <= i < 4 && 0 <= j < 4 && 0 <= k < 4
            &&& i != j && j != k && i != k
            &&& (tet[i], tet[j], tet[k]) == face_key(tet, f)
            &&& tet[i] <= tet[j] <= tet[k]
        }),
{
}

/// Two faces have equal codes exactly when they have equal keys.
pub proof fn lemma_face_code_iff_key(
    edges: Seq<EdgeKey>,
    c1: TetEdgeConnectivity,
    t1: [usize; 4],
    f1: int,
    c2: TetEdgeConnectivity,
    t2: [usize; 4],
    f2: int,
)
    requires
        edges.no_duplicates(),
        conn_matches(c1, t1, edges),
        conn_matches(c2, t2, edges),
        0 <= f1 < 4,
        0 <= f2 < 4,
    ensures
        (face_code(c1, t1, f1) == face_code(c2, t2, f2)) <==> (face_key(t1, f1) == face_key(t2, f2)),
{
    let (i1, j1, k1) = sorted_face_locals(t1, f1);
    let (i2, j2, k2) = sorted_face_locals(t2, f2);
    lemma_sorted_locals(t1, f1);
    lemma_sorted_locals(t2, f2);
    lemma_local_edge_index(t1, i1, j1);
    lemma_local_edge_index(t2, i2, j2);
    let a1 = local_edge_index(i1, j1);
    let a2 = local_edge_index(i2, j2);
    let e1 = c1.global_edge[a1] as int;
    let e2 = c2.global_edge[a2] as int;
    assert(edges[e1] == tet_edge_key(t1, a1));
    assert(edges[e2] == tet_edge_key(t2, a2));
    assert(edges[e1] == EdgeKey { from: t1[i1], to: t1[j1] });
    assert(edges[e2] == EdgeKey { from: t2[i2], to: t2[j2] });
    lemma_bounds();
    let r = edge_radix();
    if face_code(c1, t1, f1) == face_code(c2, t2, f2) {
        let x1 = e1;
        let y1 = t1[k1] as int;
        let x2 = e2;
        let y2 = t2[k2] as int;
        assert(x1 == x2 && y1 == y2) by (nonlinear_arith)
            requires
                0 <= y1 < r,
                0 <= y2 < r,
                x1 * r + y1 == x2 * r + y2,
                r > 0,
        ;
    }
    if face_key(t1, f1) == face_key(t2, f2) {
        assert(edges[e1] == edges[e2]);
        if e1 != e2 {
            assert(!edges.no_duplicates());
        }
    }
}

fn sorted_face_locals_exec(tet: &[usize; 4], f: usize) -> (r: (usize, usize, usize))
    requires
        f < 4,
    ensures
        r.0 as int == sorted_face_locals(*tet, f as int).0,
        r.1 as int == sorted_face_locals(*tet, f as int).1,
        r.2 as int == sorted_face_locals(*tet, f as int).2,
        r.0 < 4,
        r.1 < 4,
        r.2 < 4,
{
    let (a, b, c): (usize, usize, usize) = if f == 0 {
        (1, 2, 3)
    } else if f == 1 {
        (0, 2, 3)
    } else if f == 2 {
        (0, 1, 3)
    } else {
        (0, 1, 2)
    };
    let (x, y, z) = (tet[a], tet[b], tet[c]);
    if x <= y {
        if y <= z {
            (a, b, c)
        } else if x <= z {
            (a, c, b)
        } else {
            (c, a, b)
        }
    } else {
        if x <= z {
            (b, a, c)
        } else if y <= z {
            (b, c, a)
        } else {
            (c, b, a)
        }
    }
}

/// Local index of the edge between distinct local vertices `i` and `j`.
pub fn local_edge_index_exec(i: usize, j: usize) -> (r: usize)
    requires
        i < 4,
        j < 4,
        i != j,
    ensures
        r as int == local_edge_index(i as int, j as int),
        r < 6,
{
    let (a, b) = if i < j {
        (i, j)
    } else {
        (j, i)
    };
    if a == 0 && b == 1 {
        0
    } else if a == 0 && b == 2 {
        1
    } else if a == 0 && b == 3 {
        2
    } else if a == 1 && b == 2 {
        3
    } else if a == 1 && b == 3 {
        4
    } else {
        5
    }
}

/// Walk position `4 t + f` is local face `f` of tetrahedron `t`.
pub proof fn lemma_face_pos(t: int, f: int)
    requires
        t >= 0,
        0 <= f < 4,
    ensures
        (4 * t + f) / 4 == t,
        (4 * t + f) % 4 == f,
{
    assert((4 * t + f) / 4 == t && (4 * t + f) % 4 == f) by (nonlinear_arith)
        requires
            t >= 0,
            0 <= f < 4,
    ;
}

/// Face codes of every position of the face walk.
fn face_codes(tets: &Vec<[usize; 4]>, conns: &Vec<TetEdgeConnectivity>, Ghost(edges): Ghost<Seq<EdgeKey>>) -> (codes: Vec<u128>)
    requires
        conns.len() == tets.len(),
        forall|t: int| 0 <= t < tets.len() ==> conn_matches(#[trigger] conns[t], tets[t], edges),
    ensures
        codes.len() == 4 * tets.len(),
        forall|p: int|
            0 <= p < codes.len() ==> #[trigger] codes[p] as int == face_code(conns[p / 4], tets[p / 4], p % 4),
{
    let mut codes: Vec<u128> = Vec::new();
    let n = tets.len();
    let mut t: usize = 0;
    proof {
        lemma_bounds();
    }
    while t < n
        invariant
            n == tets.len(),
            conns.len() == n,
            t <= n,
            codes.len() == 4 * t,
            forall|t: int| 0 <= t < tets.len() ==> conn_matches(#[trigger] conns[t], tets[t], edges),
            forall|p: int|
                0 <= p < codes.len() ==> #[trigger] codes[p] as int == face_code(conns[p / 4], tets[p / 4], p % 4),
        decreases n - t,
    {
        let tet = tets[t];
        let conn = conns[t];
        let mut f: usize = 0;
        while f < 4
            invariant
                n == tets.len(),
                conns.len() == n,
                t < n,
                f <= 4,
                tet == tets[t as int],
                conn == conns[t as int],
                conn_matches(conn, tet, edges),
                codes.len() == 4 * t + f,
                forall|p: int|
                    0 <= p < codes.len() ==> #[trigger] codes[p] as int == face_code(conns[p / 4], tets[p / 4], p % 4),
            decreases 4 - f,
        {
            let (i, j, k) = sorted_face_locals_exec(&tet, f);
            proof {
                lemma_sorted_locals(tet, f as int);
            }
            let alpha = local_edge_index_exec(i, j);
            let e = conn.global_edge[alpha];
            let r: u128 = 0x1_0000_0000_0000_0000;
            let x = e as u128;
            let y = tet[k] as u128;
            assert(x * r + y <= u128::MAX) by (nonlinear_arith)
                requires
                    x <= usize::MAX,
                    y <= usize::MAX,
                    usize::MAX < r,
                    r == 0x1_0000_0000_0000_0000,
            ;
            let code = x * r + y;
            proof {
                lemma_face_pos(t as int, f as int);
            }
            codes.push(code);
            f += 1;
        }
        t += 1;
    }
    codes
}

/// A count over `n` positions is at most `n`.
proof fn lemma_count_eq_le<T>(s: Seq<T>, n: nat, x: T)
    ensures
        count_eq(s, n, x) <= n,
    decreases n,
{
    if n > 0 {
        lemma_count_eq_le(s, (n - 1) as nat, x);
    }
}

/// A value present at position `p < n` is counted at least once.
proof fn lemma_count_eq_pos<T>(s: Seq<T>, n: nat, p: int)
    requires
        0 <= p < n,
    ensures
        count_eq(s, n, s[p]) >= 1,
    decreases n,
{
    if p < n - 1 {
        lemma_count_eq_pos(s, (n - 1) as nat, p);
    }
}

/// Count the occurrences of every code.
fn count_codes(codes: &Vec<u128>) -> (m: HashMap<u128, usize>)
    ensures
        forall|p: int|
            0 <= p < codes.len() ==> {
                &&& m@.contains_key(#[trigger] codes[p])
                &&& m@[codes[p]] == count_eq(codes@, codes.len() as nat, codes[p])
            },
{
    let mut m: HashMap<u128, usize> = HashMap::new();
    let n = codes.len();
    let mut i: usize = 0;
    while i < n
        invariant
            n == codes.len(),
            i <= n,
            forall|c: u128| #[trigger] m@.contains_key(c) == (count_eq(codes@, i as nat, c) > 0),
            forall|c: u128| m@.contains_key(c) ==> #[trigger] m@[c] == count_eq(codes@, i as nat, c),
        decreases n - i,
    {
        let c = codes[i];
        proof {
            lemma_count_eq_le(codes@, i as nat, c);
        }
        let old_count: usize = match m.get(&c) {
            Some(v) => *v,
            None => 0,
        };
        m.insert(c, old_count + 1);
        i += 1;
        proof {
            assert forall|d: u128| #[trigger] m@.contains_key(d) == (count_eq(codes@, i as nat, d) > 0) by {
                if d != c {
                    assert(count_eq(codes@, i as nat, d) == count_eq(codes@, (i - 1) as nat, d));
                }
            }
        }
    }
    proof {
        assert forall|p: int| 0 <= p < codes.len() implies {
            &&& m@.contains_key(#[trigger] codes[p])
            &&& m@[codes[p]] == count_eq(codes@, codes.len() as nat, codes[p])
        } by {
            lemma_count_eq_pos(codes@, n as nat, p);
        }
    }
    m
}

/// Counting face codes counts the faces with the same key.
proof fn lemma_count_codes_faces(tets: Seq<[usize; 4]>, codes: Seq<u128>, n: nat, p: int)
    requires
        n <= codes.len(),
        0 <= p < codes.len(),
        forall|q: int| 0 <= q < codes.len() ==> ((#[trigger] codes[q] == codes[p]) <==> walk_face(tets, q) == walk_face(tets, p)),
    ensures
        count_eq(codes, n, codes[p]) == count_face(tets, n, walk_face(tets, p)),
    decreases n,
{
    if n > 0 {
        lemma_count_codes_faces(tets, codes, (n - 1) as nat, p);
        assert(codes[n - 1] == codes[p] <==> walk_face(tets, n - 1) == walk_face(tets, p));
    }
}

/// Multiplicity of every face of every tetrahedron.
pub(crate) fn face_multiplicities(tets: &Vec<[usize; 4]>, conns: &Vec<TetEdgeConnectivity>, Ghost(edges): Ghost<Seq<EdgeKey>>) -> (counts: Vec<[usize; 4]>)
    requires
        conns.len() == tets.len(),
        edges.no_duplicates(),
        forall|t: int| 0 <= t < tets.len() ==> conn_matches(#[trigger] conns[t], tets[t], edges),
    ensures
        counts.len() == tets.len(),
        forall|t: int, f: int|
            0 <= t < tets.len() && 0 <= f < 4 ==> {
                &&& (#[trigger] counts[t][f]) as nat == face_multiplicity(tets@, face_key(tets[t], f))
                &&& counts[t][f] >= 1
            },
{
    let codes = face_codes(tets, conns, Ghost(edges));
    let m = count_codes(&codes);
    let n = tets.len();
    let mut counts: Vec<[usize; 4]> = Vec::new();
    let mut t: usize = 0;
    while t < n
        invariant
            n == tets.len(),
            conns.len() == n,
            t <= n,
            counts.len() == t,
            codes.len() == 4 * n,
            edges.no_duplicates(),
            forall|t: int| 0 <= t < tets.len() ==> conn_matches(#[trigger] conns[t], tets[t], edges),
            forall|p: int|
                0 <= p < codes.len() ==> #[trigger] codes[p] as int == face_code(conns[p / 4], tets[p / 4], p % 4),
            forall|p: int|
                0 <= p < codes.len() ==> {
                    &&& m@.contains_key(#[trigger] codes[p])
                    &&& m@[codes[p]] == count_eq(codes@, codes.len() as nat, codes[p])
                },
            forall|tt: int, f: int|
                0 <= tt < t && 0 <= f < 4 ==> {
                    &&& (#[trigger] counts[tt][f]) as nat == face_multiplicity(tets@, face_key(tets[tt], f))
                    &&& counts[tt][f] >= 1
                },
        decreases n - t,
    {
        let mut row: [usize; 4] = [0; 4];
        let mut f: usize = 0;
        while f < 4
            invariant
                n == tets.len(),
                conns.len() == n,
                t < n,
                f <= 4,
                codes.len() == 4 * n,
                edges.no_duplicates(),
                forall|t: int| 0 <= t < tets.len() ==> conn_matches(#[trigger] conns[t], tets[t], edges),
                forall|p: int|
                    0 <= p < codes.len() ==> #[trigger] codes[p] as int == face_code(conns[p / 4], tets[p / 4], p % 4),
                forall|p: int|
                    0 <= p < codes.len() ==> {
                        &&& m@.contains_key(#[trigger] codes[p])
                        &&& m@[codes[p]] == count_eq(codes@, codes.len() as nat, codes[p])
                    },
                forall|g: int|
                    0 <= g < f ==> {
                        &&& (#[trigger] row[g]) as nat == face_multiplicity(tets@, face_key(tets[t as int], g))
                        &&& row[g] >= 1
                    },
            decreases 4 - f,
        {
            assert(4 * t + f < 4 * n) by (nonlinear_arith)
                requires
                    t < n,
                    f < 4,
            ;
            let p: usize = 4 * t + f;
            let c = codes[p];
            let v = *m.get(&c).unwrap();
            proof {
                lemma_face_pos(t as int, f as int);
                assert forall|q: int| 0 <= q < codes.len() implies ((#[trigger] codes[q] == codes[p as int])
                    <==> walk_face(tets@, q) == walk_face(tets@, p as int)) by {
                    let tq = q / 4;
                    let fq = q % 4;
                    assert(0 <= tq < n && 0 <= fq < 4) by (nonlinear_arith)
                        requires
                            0 <= q < 4 * n,
                            tq == q / 4,
                            fq == q % 4,
                    ;
                    lemma_face_code_iff_key(edges, conns[tq], tets[tq], fq, conns[t as int], tets[t as int], f as int);
                }
                lemma_count_codes_faces(tets@, codes@, codes.len() as nat, p as int);
                lemma_count_eq_pos(codes@, codes.len() as nat, p as int);
            }
            row[f] = v;
            f += 1;
        }
        counts.push(row);
        t += 1;
        proof {
            assert forall|tt: int, f: int| 0 <= tt < t && 0 <= f < 4 implies {
                &&& (#[trigger] counts[tt][f]) as nat == face_multiplicity(tets@, face_key(tets[tt], f))
                &&& counts[tt][f] >= 1
            } by {
                if tt == t - 1 {
                    assert(counts[tt] == row);
                }
            }
        }
    }
    counts
}

} // verus!
