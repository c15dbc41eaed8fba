//! Integer skeleton of the global FEM assembly: PEC elimination by
//! row/column drop (the interior-DoF lift map) and the scatter plan that
//! places signed local-block entries into the interior-DoF system.

use std::collections::HashSet;
use vstd::prelude::*;
use vstd::std_specs::hash::*;

use crate::edges::TetEdgeTable;
use crate::mesh::TetMesh;

verus! {

broadcast use vstd::std_specs::hash::group_hash_axioms;

/// Indices `e < n` with `!eliminated[e]`, ascending.
pub open spec fn kept_upto(eliminated: Seq<bool>, n: nat) -> Seq<usize>
    decreases n,
{
    if n == 0 {
        Seq::empty()
    } else {
        let prev = kept_upto(eliminated, (n - 1) as nat);
        if eliminated[n - 1] {
            prev
        } else {
            prev.push((n - 1) as usize)
        }
    }
}

/// Indices of the edges that stay degrees of freedom, ascending.
pub open spec fn kept(eliminated: Seq<bool>) -> Seq<usize> {
    kept_upto(eliminated, eliminated.len())
}

/// Elimination flags of `n` edges given the eliminated set `s`.
pub open spec fn flags_of_set(s: Set<usize>, n: nat) -> Seq<bool> {
    Seq::new(n, |e: int| s.contains(e as usize))
}

/// Lift map between global edges and interior degrees of freedom.
#[derive(Clone, Debug)]
pub struct LiftMap {
    /// `interior_edges[d]` is the global edge of interior DoF `d`.
    pub interior_edges: Vec<usize>,
    /// `interior_dof_of_edge[e]` is `Some(d)` if global edge `e` is
    /// interior DoF `d`, `None` if the edge is eliminated.
    pub interior_dof_of_edge: Vec<Option<usize>>,
}

impl LiftMap {
    /// The map keeps exactly the edges not flagged in `eliminated`.
    pub open spec fn eliminates(&self, eliminated: Seq<bool>) -> bool {
        &&& self.interior_edges@ == kept(eliminated)
        &&& self.interior_dof_of_edge.len() == eliminated.len()
        &&& forall|e: int|
            0 <= e < eliminated.len() ==> match #[trigger] self.interior_dof_of_edge[e] {
                Some(d) => !eliminated[e] && d < self.interior_edges.len() && self.interior_edges[d as int] == e,
                None => eliminated[e],
            }
        &&& forall|d: int|
            0 <= d < self.interior_edges.len() ==> {
                &&& (#[trigger] self.interior_edges[d]) < eliminated.len()
                &&& self.interior_dof_of_edge[self.interior_edges[d] as int] == Some(d as usize)
            }
        &&& forall|d1: int, d2: int|
            0 <= d1 < d2 < self.interior_edges.len() ==> #[trigger] self.interior_edges[d1]
                < #[trigger] self.interior_edges[d2]
    }
}

/// The kept edges among the first `n` number at most `n` and are below `n`.
proof fn lemma_kept_bounds(eliminated: Seq<bool>, n: nat)
    requires
        n <= eliminated.len(),
    ensures
        kept_upto(eliminated, n).len() <= n,
        forall|d: int| 0 <= d < kept_upto(eliminated, n).len() ==> (#[trigger] kept_upto(eliminated, n)[d]) < n,
    decreases n,
{
    if n > 0 {
        lemma_kept_bounds(eliminated, (n - 1) as nat);
    }
}

/// Build the lift map that keeps every edge `e` with `!eliminated[e]`.
pub fn lift_map(eliminated: &Vec<bool>) -> (m: LiftMap)
    ensures
        m.eliminates(eliminated@),
{
    let n = eliminated.len();
    let mut interior_edges: Vec<usize> = Vec::new();
    let mut dof: Vec<Option<usize>> = Vec::new();
    let mut e: usize = 0;
    while e < n
        invariant
            n == eliminated.len(),
            e <= n,
            interior_edges@ == kept_upto(eliminated@, e as nat),
            dof.len() == e,
            forall|k: int|
                0 <= k < e ==> match #[trigger] dof[k] {
                    Some(d) => !eliminated[k] && d < interior_edges.len() && interior_edges[d as int] == k,
                    None => eliminated[k],
                },
            forall|d: int|
                0 <= d < interior_edges.len() ==> {
                    &&& (#[trigger] interior_edges[d]) < e
                    &&& dof[interior_edges[d] as int] == Some(d as usize)
                },
            forall|d1: int, d2: int|
                0 <= d1 < d2 < interior_edges.len() ==> #[trigger] interior_edges[d1] < #[trigger] interior_edges[d2],
        decreases n - e,
    {
        proof {
            lemma_kept_bounds(eliminated@, e as nat);
        }
        if eliminated[e] {
            dof.push(None);
        } else {
            let d = interior_edges.len();
            interior_edges.push(e);
            dof.push(Some(d));
        }
        e += 1;
    }
    LiftMap { interior_edges, interior_dof_of_edge: dof }
}

/// Lift map that eliminates the edges flagged in `is_boundary` (the
/// geometric PEC boundary of a closed cavity).
pub fn lift_map_from_boundary(is_boundary: &Vec<bool>) -> (m: LiftMap)
    ensures
        m.eliminates(is_boundary@),
{
    lift_map(is_boundary)
}

/// Lift map over `n_edges` global edges that eliminates the edges in
/// `pec_edges`; edges not in the set stay degrees of freedom, whether or
/// not they lie on the mesh exterior.
pub fn lift_map_excluding(n_edges: usize, pec_edges: &HashSet<usize>) -> (m: LiftMap)
    ensures
        m.eliminates(flags_of_set(pec_edges@, n_edges as nat)),
{
    let mut flags: Vec<bool> = Vec::new();
    let mut e: usize = 0;
    while e < n_edges
        invariant
            e <= n_edges,
            flags@ == flags_of_set(pec_edges@, e as nat),
        decreases n_edges - e,
    {
        let b = pec_edges.contains(&e);
        flags.push(b);
        e += 1;
        proof {
            assert(flags@ =~= flags_of_set(pec_edges@, e as nat));
        }
    }
    lift_map(&flags)
}

/// Eliminating the explicit edge set equal to the geometric boundary-edge
/// set gives the same lift map as eliminating by the boundary flags.
pub proof fn lemma_explicit_pec_matches_boundary(is_boundary: Seq<bool>, pec: Set<usize>)
    requires
        forall|e: int| 0 <= e < is_boundary.len() ==> (pec.contains(e as usize) <==> #[trigger] is_boundary[e]),
    ensures
        kept(flags_of_set(pec, is_boundary.len())) == kept(is_boundary),
{
    assert(flags_of_set(pec, is_boundary.len()) =~= is_boundary);
}

/// The edges `g` with `hits[g]`, ascending.
pub fn edges_where(hits: &Vec<bool>) -> (r: Vec<usize>)
    ensures
        forall|q: int| 0 <= q < r.len() ==> (#[trigger] r[q]) < hits.len() && hits[r[q] as int],
        forall|q1: int, q2: int| 0 <= q1 < q2 < r.len() ==> #[trigger] r[q1] < #[trigger] r[q2],
        forall|g: int| 0 <= g < hits.len() && #[trigger] hits[g] ==> r@.contains(g as usize),
{
    let n = hits.len();
    let mut r: Vec<usize> = Vec::new();
    let mut g: usize = 0;
    while g < n
        invariant
            n == hits.len(),
            g <= n,
            forall|q: int| 0 <= q < r.len() ==> (#[trigger] r[q]) < g && hits[r[q] as int],
            forall|q1: int, q2: int| 0 <= q1 < q2 < r.len() ==> #[trigger] r[q1] < #[trigger] r[q2],
            forall|x: int| 0 <= x < g && #[trigger] hits[x] ==> r@.contains(x as usize),
        decreases n - g,
    {
        if hits[g] {
            let ghost before = r@;
            r.push(g);
            proof {
                assert forall|x: int| 0 <= x < g + 1 && #[trigger] hits[x] implies r@.contains(x as usize) by {
                    if x < g {
                        let q = choose|q: int| 0 <= q < before.len() && before[q] == x as usize;
                        assert(r@[q] == x as usize);
                    } else {
                        assert(r@[r.len() - 1] == x as usize);
                    }
                }
            }
        }
        g += 1;
    }
    r
}

/// Largest entry of `s`, or `0` when `s` is empty.
pub open spec fn max_or_zero(s: Seq<usize>) -> usize
    decreases s.len(),
{
    if s.len() == 0 {
        0
    } else {
        let m = max_or_zero(s.drop_last());
        if s.last() > m {
            s.last()
        } else {
            m
        }
    }
}

/// A positive bound on every entry bounds their maximum.
pub(crate) proof fn lemma_max_or_zero_below(s: Seq<usize>, b: int)
    requires
        b > 0,
        forall|i: int| 0 <= i < s.len() ==> s[i] < b,
    ensures
        max_or_zero(s) < b,
    decreases s.len(),
{
    if s.len() > 0 {
        assert forall|i: int| 0 <= i < s.drop_last().len() implies s.drop_last()[i] < b by {
            assert(s.drop_last()[i] == s[i]);
        }
        lemma_max_or_zero_below(s.drop_last(), b);
    }
}

/// Every entry is at most the maximum.
proof fn lemma_max_or_zero(s: Seq<usize>)
    ensures
        forall|i: int| 0 <= i < s.len() ==> s[i] <= max_or_zero(s),
    decreases s.len(),
{
    if s.len() > 0 {
        lemma_max_or_zero(s.drop_last());
        assert forall|i: int| 0 <= i < s.len() implies s[i] <= max_or_zero(s) by {
            if i < s.len() - 1 {
                assert(s[i] == s.drop_last()[i]);
            }
        }
    }
}

/// Size of the driven system's edge-to-DoF table: one past the largest
/// global edge referenced either by an interior DoF or by an exterior face
/// (`total_face_edges` is one past the largest face edge).
pub open spec fn driven_table_len(interior_edges: Seq<usize>, total_face_edges: usize) -> int {
    let a = max_or_zero(interior_edges) as int;
    let b = if total_face_edges == 0 {
        0
    } else {
        total_face_edges - 1
    };
    (if a > b {
        a
    } else {
        b
    }) + 1
}

/// Edge-to-DoF table of the driven system: entry `e` is `Some(d)` iff
/// `interior_edges[d] == e`.
pub fn driven_dof_of_edge(interior_edges: &Vec<usize>, total_face_edges: usize) -> (t: Vec<Option<usize>>)
    requires
        forall|d1: int, d2: int|
            0 <= d1 < d2 < interior_edges.len() ==> #[trigger] interior_edges[d1] < #[trigger] interior_edges[d2],
        driven_table_len(interior_edges@, total_face_edges) <= usize::MAX,
    ensures
        t.len() == driven_table_len(interior_edges@, total_face_edges),
        forall|d: int| 0 <= d < interior_edges.len() ==> t[#[trigger] interior_edges[d] as int] == Some(d as usize),
        forall|e: int|
            0 <= e < t.len() ==> match #[trigger] t[e] {
                Some(d) => d < interior_edges.len() && interior_edges[d as int] == e,
                None => forall|d: int| 0 <= d < interior_edges.len() ==> interior_edges[d] != e,
            },
{
    let mut max_interior: usize = 0;
    let mut i: usize = 0;
    let n = interior_edges.len();
    while i < n
        invariant
            n == interior_edges.len(),
            i <= n,
            max_interior == max_or_zero(interior_edges@.take(i as int)),
        decreases n - i,
    {
        proof {
            assert(interior_edges@.take(i + 1).drop_last() =~= interior_edges@.take(i as int));
        }
        if interior_edges[i] > max_interior {
            max_interior = interior_edges[i];
        }
        i += 1;
    }
    proof {
        assert(interior_edges@.take(n as int) =~= interior_edges@);
        lemma_max_or_zero(interior_edges@);
    }
    let max_face: usize = if total_face_edges == 0 { 0 } else { total_face_edges - 1 };
    let top = if max_interior > max_face { max_interior } else { max_face };
    let len = top + 1;
    let mut t: Vec<Option<usize>> = Vec::new();
    let mut e: usize = 0;
    while e < len
        invariant
            e <= len,
            t.len() == e,
            forall|k: int| 0 <= k < e ==> t[k] == None::<usize>,
        decreases len - e,
    {
        t.push(None);
        e += 1;
    }
    let mut d: usize = 0;
    while d < n
        invariant
            n == interior_edges.len(),
            d <= n,
            t.len() == len,
            len == driven_table_len(interior_edges@, total_face_edges),
            forall|k: int| 0 <= k < n ==> (#[trigger] interior_edges[k]) < len,
            forall|d1: int, d2: int|
                0 <= d1 < d2 < interior_edges.len() ==> #[trigger] interior_edges[d1] < #[trigger] interior_edges[d2],
            forall|k: int| 0 <= k < d ==> t[#[trigger] interior_edges[k] as int] == Some(k as usize),
            forall|x: int|
                0 <= x < t.len() ==> match #[trigger] t[x] {
                    Some(k) => k < d && interior_edges[k as int] == x,
                    None => forall|k: int| 0 <= k < d ==> interior_edges[k] != x,
                },
        decreases n - d,
    {
        let g = interior_edges[d];
        t.set(g, Some(d));
        d += 1;
    }
    t
}

/// One entry of a scatter plan: local block entry `(i, j)` goes to
/// interior-DoF position `(row, col)` with orientation sign `sign`.
#[derive(Clone, Copy, Debug, PartialEq, Eq, Structural)]
pub struct ScatterEntry {
    /// Interior-DoF row.
    pub row: usize,
    /// Interior-DoF column.
    pub col: usize,
    /// Local row index inside the block.
    pub i: usize,
    /// Local column index inside the block.
    pub j: usize,
    /// Product of the two local orientation signs.
    pub sign: i8,
}

/// `(i1, j1)` precedes `(i2, j2)` in row-major order.
pub open spec fn before(i1: int, j1: int, i2: int, j2: int) -> bool {
    i1 < i2 || (i1 == i2 && j1 < j2)
}

/// `plan` scatters the `k x k` block on edges `global` with signs `signs`:
/// it lists, in row-major order, exactly the entries `(i, j)` whose two
/// edges are interior DoFs.
pub open spec fn block_plan_ok(
    plan: Seq<ScatterEntry>,
    global: Seq<usize>,
    signs: Seq<i8>,
    dof: Seq<Option<usize>>,
) -> bool {
    &&& forall|q: int|
        0 <= q < plan.len() ==> {
            let en = #[trigger] plan[q];
            &&& en.i < global.len() && en.j < global.len()
            &&& dof[global[en.i as int] as int] == Some(en.row)
            &&& dof[global[en.j as int] as int] == Some(en.col)
            &&& en.sign as int == signs[en.i as int] * signs[en.j as int]
        }
    &&& forall|q1: int, q2: int|
        0 <= q1 < q2 < plan.len() ==> before(
            (#[trigger] plan[q1]).i as int,
            plan[q1].j as int,
            (#[trigger] plan[q2]).i as int,
            plan[q2].j as int,
        )
    &&& forall|i: int, j: int|
        0 <= i < global.len() && 0 <= j < global.len() && (#[trigger] dof[global[i] as int]) is Some && (#[trigger] dof[global[j] as int]) is Some
            ==> exists|q: int| 0 <= q < plan.len() && plan[q].i == i && plan[q].j == j
}

/// Plan `p` has an entry for local block position `(i, j)`.
pub open spec fn plan_has(p: Seq<ScatterEntry>, i: int, j: int) -> bool {
    exists|q: int| 0 <= q < p.len() && p[q].i == i && p[q].j == j
}

/// Two row-major plans of valid entries for the same block positions are
/// equal: an entry is determined by its position.
proof fn lemma_sorted_plans_equal(
    p1: Seq<ScatterEntry>,
    p2: Seq<ScatterEntry>,
    global: Seq<usize>,
    signs: Seq<i8>,
    dof: Seq<Option<usize>>,
)
    requires
        forall|q: int|
            0 <= q < p1.len() ==> {
                let en = #[trigger] p1[q];
                &&& en.i < global.len() && en.j < global.len()
                &&& dof[global[en.i as int] as int] == Some(en.row)
                &&& dof[global[en.j as int] as int] == Some(en.col)
                &&& en.sign as int == signs[en.i as int] * signs[en.j as int]
            },
        forall|q: int|
            0 <= q < p2.len() ==> {
                let en = #[trigger] p2[q];
                &&& en.i < global.len() && en.j < global.len()
                &&& dof[global[en.i as int] as int] == Some(en.row)
                &&& dof[global[en.j as int] as int] == Some(en.col)
                &&& en.sign as int == signs[en.i as int] * signs[en.j as int]
            },
        forall|q1: int, q2: int|
            0 <= q1 < q2 < p1.len() ==> before(
                (#[trigger] p1[q1]).i as int,
                p1[q1].j as int,
                (#[trigger] p1[q2]).i as int,
                p1[q2].j as int,
            ),
        forall|q1: int, q2: int|
            0 <= q1 < q2 < p2.len() ==> before(
                (#[trigger] p2[q1]).i as int,
                p2[q1].j as int,
                (#[trigger] p2[q2]).i as int,
                p2[q2].j as int,
            ),
        forall|i: int, j: int| plan_has(p1, i, j) <==> plan_has(p2, i, j),
    ensures
        p1 == p2,
    decreases p1.len(),
{
    if p1.len() == 0 {
        if p2.len() > 0 {
            assert(plan_has(p2, p2[0].i as int, p2[0].j as int));
        }
        assert(p1 =~= p2);
        return;
    }
    assert(plan_has(p1, p1[0].i as int, p1[0].j as int));
    assert(plan_has(p2, p1[0].i as int, p1[0].j as int));
    let q2 = choose|q: int| 0 <= q < p2.len() && p2[q].i == p1[0].i && p2[q].j == p1[0].j;
    assert(plan_has(p2, p2[0].i as int, p2[0].j as int));
    assert(plan_has(p1, p2[0].i as int, p2[0].j as int));
    let q1 = choose|q: int| 0 <= q < p1.len() && p1[q].i == p2[0].i && p1[q].j == p2[0].j;
    if q2 > 0 {
        assert(before(p2[0].i as int, p2[0].j as int, p2[q2].i as int, p2[q2].j as int));
        if q1 > 0 {
            assert(before(p1[0].i as int, p1[0].j as int, p1[q1].i as int, p1[q1].j as int));
        }
        assert(false);
    }
    assert(p1[0] == p2[0]);
    let t1 = p1.drop_first();
    let t2 = p2.drop_first();
    assert forall|i: int, j: int| plan_has(t1, i, j) <==> plan_has(t2, i, j) by {
        if plan_has(t1, i, j) {
            let q = choose|q: int| 0 <= q < t1.len() && t1[q].i == i && t1[q].j == j;
            assert(p1[q + 1] == t1[q]);
            assert(before(p1[0].i as int, p1[0].j as int, p1[q + 1].i as int, p1[q + 1].j as int));
            assert(plan_has(p1, i, j));
            let r = choose|r: int| 0 <= r < p2.len() && p2[r].i == i && p2[r].j == j;
            assert(r != 0);
            assert(t2[r - 1] == p2[r]);
        }
        if plan_has(t2, i, j) {
            let q = choose|q: int| 0 <= q < t2.len() && t2[q].i == i && t2[q].j == j;
            assert(p2[q + 1] == t2[q]);
            assert(before(p2[0].i as int, p2[0].j as int, p2[q + 1].i as int, p2[q + 1].j as int));
            assert(plan_has(p2, i, j));
            let r = choose|r: int| 0 <= r < p1.len() && p1[r].i == i && p1[r].j == j;
            assert(r != 0);
            assert(t1[r - 1] == p1[r]);
        }
    }
    assert forall|q1: int, q2: int| 0 <= q1 < q2 < t1.len() implies before(
        (#[trigger] t1[q1]).i as int,
        t1[q1].j as int,
        (#[trigger] t1[q2]).i as int,
        t1[q2].j as int,
    ) by {
        assert(t1[q1] == p1[q1 + 1] && t1[q2] == p1[q2 + 1]);
    }
    assert forall|q1: int, q2: int| 0 <= q1 < q2 < t2.len() implies before(
        (#[trigger] t2[q1]).i as int,
        t2[q1].j as int,
        (#[trigger] t2[q2]).i as int,
        t2[q2].j as int,
    ) by {
        assert(t2[q1] == p2[q1 + 1] && t2[q2] == p2[q2 + 1]);
    }
    assert forall|q: int| 0 <= q < t1.len() implies {
        let en = #[trigger] t1[q];
        &&& en.i < global.len() && en.j < global.len()
        &&& dof[global[en.i as int] as int] == Some(en.row)
        &&& dof[global[en.j as int] as int] == Some(en.col)
        &&& en.sign as int == signs[en.i as int] * signs[en.j as int]
    } by {
        assert(t1[q] == p1[q + 1]);
    }
    assert forall|q: int| 0 <= q < t2.len() implies {
        let en = #[trigger] t2[q];
        &&& en.i < global.len() && en.j < global.len()
        &&& dof[global[en.i as int] as int] == Some(en.row)
        &&& dof[global[en.j as int] as int] == Some(en.col)
        &&& en.sign as int == signs[en.i as int] * signs[en.j as int]
    } by {
        assert(t2[q] == p2[q + 1]);
    }
    lemma_sorted_plans_equal(t1, t2, global, signs, dof);
    assert(p1 =~= p2) by {
        assert forall|q: int| 0 <= q < p1.len() implies p1[q] == p2[q] by {
            if q > 0 {
                assert(p1[q] == t1[q - 1]);
                assert(p2[q] == t2[q - 1]);
            }
        }
    }
}

/// A block has one scatter plan: two plans that both scatter the same
/// block over the same edge-to-DoF table are equal.
pub proof fn lemma_block_plan_unique(
    p1: Seq<ScatterEntry>,
    p2: Seq<ScatterEntry>,
    global: Seq<usize>,
    signs: Seq<i8>,
    dof: Seq<Option<usize>>,
)
    requires
        block_plan_ok(p1, global, signs, dof),
        block_plan_ok(p2, global, signs, dof),
    ensures
        p1 == p2,
{
    assert forall|i: int, j: int| plan_has(p1, i, j) <==> plan_has(p2, i, j) by {
        if plan_has(p1, i, j) {
            let q = choose|q: int| 0 <= q < p1.len() && p1[q].i == i && p1[q].j == j;
            let en = p1[q];
            assert(dof[global[i] as int] is Some && dof[global[j] as int] is Some);
        }
        if plan_has(p2, i, j) {
            let q = choose|q: int| 0 <= q < p2.len() && p2[q].i == i && p2[q].j == j;
            let en = p2[q];
            assert(dof[global[i] as int] is Some && dof[global[j] as int] is Some);
        }
    }
    lemma_sorted_plans_equal(p1, p2, global, signs, dof);
}

/// Scatter plan of a local block on global edges `global` (signs
/// `signs`, each `1` or `-1`): the entries whose row and column edges are
/// both interior DoFs, in row-major order. Entries on eliminated (PEC)
/// edges are skipped.
pub fn block_scatter_plan(global: &Vec<usize>, signs: &Vec<i8>, dof: &Vec<Option<usize>>) -> (plan: Vec<ScatterEntry>)
    requires
        signs.len() == global.len(),
        forall|i: int| 0 <= i < global.len() ==> (#[trigger] global[i]) < dof.len(),
        forall|i: int| 0 <= i < signs.len() ==> #[trigger] signs[i] == 1 || signs[i] == -1,
    ensures
        block_plan_ok(plan@, global@, signs@, dof@),
{
    let k = global.len();
    let mut plan: Vec<ScatterEntry> = Vec::new();
    let mut i: usize = 0;
    while i < k
        invariant
            k == global.len(),
            signs.len() == k,
            i <= k,
            forall|x: int| 0 <= x < global.len() ==> (#[trigger] global[x]) < dof.len(),
            forall|x: int| 0 <= x < signs.len() ==> #[trigger] signs[x] == 1 || signs[x] == -1,
            forall|q: int|
                0 <= q < plan.len() ==> {
                    let en = #[trigger] plan[q];
                    &&& en.i < i && en.j < k
                    &&& dof[global[en.i as int] as int] == Some(en.row)
                    &&& dof[global[en.j as int] as int] == Some(en.col)
                    &&& en.sign as int == signs[en.i as int] * signs[en.j as int]
                },
            forall|q1: int, q2: int|
                0 <= q1 < q2 < plan.len() ==> before(
                    (#[trigger] plan[q1]).i as int,
                    plan[q1].j as int,
                    (#[trigger] plan[q2]).i as int,
                    plan[q2].j as int,
                ),
            forall|a: int, b: int|
                0 <= a < i && 0 <= b < k && (#[trigger] dof[global[a] as int]) is Some && (#[trigger] dof[global[b] as int]) is Some
                    ==> exists|q: int| 0 <= q < plan.len() && plan[q].i == a && plan[q].j == b,
        decreases k - i,
    {
        match dof[global[i]] {
            None => {},
            Some(row) => {
                let si = signs[i];
                let mut j: usize = 0;
                while j < k
                    invariant
                        k == global.len(),
                        signs.len() == k,
                        i < k,
                        j <= k,
                        dof[global[i as int] as int] == Some(row),
                        si == signs[i as int],
                        forall|x: int| 0 <= x < global.len() ==> (#[trigger] global[x]) < dof.len(),
                        forall|x: int| 0 <= x < signs.len() ==> #[trigger] signs[x] == 1 || signs[x] == -1,
                        forall|q: int|
                            0 <= q < plan.len() ==> {
                                let en = #[trigger] plan[q];
                                &&& en.i <= i && en.j < k
                                &&& (en.i == i ==> en.j < j)
                                &&& dof[global[en.i as int] as int] == Some(en.row)
                                &&& dof[global[en.j as int] as int] == Some(en.col)
                                &&& en.sign as int == signs[en.i as int] * signs[en.j as int]
                            },
                        forall|q1: int, q2: int|
                            0 <= q1 < q2 < plan.len() ==> before(
                                (#[trigger] plan[q1]).i as int,
                                plan[q1].j as int,
                                (#[trigger] plan[q2]).i as int,
                                plan[q2].j as int,
                            ),
                        forall|a: int, b: int|
                            0 <= a < i && 0 <= b < k && (#[trigger] dof[global[a] as int]) is Some && (#[trigger] dof[global[b] as int]) is Some
                                ==> exists|q: int| 0 <= q < plan.len() && plan[q].i == a && plan[q].j == b,
                        forall|b: int|
                            0 <= b < j && (#[trigger] dof[global[b] as int]) is Some
                                ==> exists|q: int| 0 <= q < plan.len() && plan[q].i == i && plan[q].j == b,
                    decreases k - j,
                {
                    match dof[global[j]] {
                        None => {},
                        Some(col) => {
                            let sj = signs[j];
                            let ghost old_plan = plan@;
                            plan.push(ScatterEntry { row, col, i, j, sign: si * sj });
                            proof {
                                assert forall|a: int, b: int|
                                    0 <= a < i && 0 <= b < k && (#[trigger] dof[global[a] as int]) is Some && (#[trigger] dof[global[b] as int]) is Some
                                    implies exists|q: int| 0 <= q < plan.len() && plan[q].i == a && plan[q].j == b by {
                                    let q = choose|q: int| 0 <= q < old_plan.len() && old_plan[q].i == a && old_plan[q].j == b;
                                    assert(plan[q] == old_plan[q]);
                                }
                                assert forall|b: int|
                                    0 <= b < j + 1 && (#[trigger] dof[global[b] as int]) is Some
                                    implies exists|q: int| 0 <= q < plan.len() && plan[q].i == i && plan[q].j == b by {
                                    if b < j {
                                        let q = choose|q: int| 0 <= q < old_plan.len() && old_plan[q].i == i && old_plan[q].j == b;
                                        assert(plan[q] == old_plan[q]);
                                    } else {
                                        assert(plan[plan.len() - 1].j == b);
                                    }
                                }
                            }
                        },
                    }
                    j += 1;
                }
            },
        }
        i += 1;
    }
    plan
}

/// One entry of a right-hand-side scatter plan: local entry `i` goes to
/// interior DoF `row` with sign `sign`.
#[derive(Clone, Copy, Debug, PartialEq, Eq, Structural)]
pub struct RhsEntry {
    /// Interior-DoF row.
    pub row: usize,
    /// Local index.
    pub i: usize,
    /// Local orientation sign.
    pub sign: i8,
}

/// `plan` scatters a local vector on edges `global` with signs `signs`: it
/// lists, in ascending local order, exactly the entries whose edge is an
/// interior DoF.
pub open spec fn rhs_plan_ok(plan: Seq<RhsEntry>, global: Seq<usize>, signs: Seq<i8>, dof: Seq<Option<usize>>) -> bool {
    &&& forall|q: int|
        0 <= q < plan.len() ==> {
            let en = #[trigger] plan[q];
            &&& en.i < global.len()
            &&& dof[global[en.i as int] as int] == Some(en.row)
            &&& en.sign == signs[en.i as int]
        }
    &&& forall|q1: int, q2: int| 0 <= q1 < q2 < plan.len() ==> (#[trigger] plan[q1]).i < (#[trigger] plan[q2]).i
    &&& forall|i: int|
        0 <= i < global.len() && (#[trigger] dof[global[i] as int]) is Some ==> exists|q: int|
            0 <= q < plan.len() && plan[q].i == i
}

/// Right-hand-side scatter plan of a local vector on edges `global`: the
/// local entries whose edge is an interior DoF, in ascending local order.
pub fn rhs_scatter_plan(global: &Vec<usize>, signs: &Vec<i8>, dof: &Vec<Option<usize>>) -> (plan: Vec<RhsEntry>)
    requires
        signs.len() == global.len(),
        forall|i: int| 0 <= i < global.len() ==> (#[trigger] global[i]) < dof.len(),
    ensures
        rhs_plan_ok(plan@, global@, signs@, dof@),
{
    let k = global.len();
    let mut plan: Vec<RhsEntry> = Vec::new();
    let mut i: usize = 0;
    while i < k
        invariant
            k == global.len(),
            signs.len() == k,
            i <= k,
            forall|x: int| 0 <= x < global.len() ==> (#[trigger] global[x]) < dof.len(),
            forall|q: int|
                0 <= q < plan.len() ==> {
                    let en = #[trigger] plan[q];
                    &&& en.i < i
                    &&& dof[global[en.i as int] as int] == Some(en.row)
                    &&& en.sign == signs[en.i as int]
                },
            forall|q1: int, q2: int| 0 <= q1 < q2 < plan.len() ==> (#[trigger] plan[q1]).i < (#[trigger] plan[q2]).i,
            forall|a: int|
                0 <= a < i && (#[trigger] dof[global[a] as int]) is Some ==> exists|q: int|
                    0 <= q < plan.len() && plan[q].i == a,
        decreases k - i,
    {
        match dof[global[i]] {
            None => {},
            Some(row) => {
                let ghost old_plan = plan@;
                plan.push(RhsEntry { row, i, sign: signs[i] });
                proof {
                    assert forall|a: int|
                        0 <= a < i + 1 && (#[trigger] dof[global[a] as int]) is Some implies exists|q: int|
                            0 <= q < plan.len() && plan[q].i == a by {
                        if a < i {
                            let q = choose|q: int| 0 <= q < old_plan.len() && old_plan[q].i == a;
                            assert(plan[q] == old_plan[q]);
                        } else {
                            assert(plan[plan.len() - 1].i == a);
                        }
                    }
                }
            },
        }
        i += 1;
    }
    plan
}

/// Why an assembly request is refused.
#[derive(Clone, Copy, Debug, PartialEq, Eq, Structural)]
pub enum AssemblyError {
    /// The mesh has no tetrahedra.
    EmptyMesh,
    /// The permittivity list does not have one entry per tetrahedron.
    EpsLength {
        /// Number of tetrahedra.
        expected: usize,
        /// Length supplied.
        got: usize,
    },
    /// The permeability list does not have one entry per tetrahedron.
    MuLength {
        /// Number of tetrahedra.
        expected: usize,
        /// Length supplied.
        got: usize,
    },
}

/// Check that the per-tetrahedron permittivity and permeability lists
/// (of lengths `eps_len`, `mu_len`) have one entry per tetrahedron.
pub fn check_material_lengths(n_tets: usize, eps_len: usize, mu_len: usize) -> (r: Result<(), AssemblyError>)
    ensures
        eps_len != n_tets ==> r == Err::<(), AssemblyError>(AssemblyError::EpsLength { expected: n_tets, got: eps_len }),
        eps_len == n_tets && mu_len != n_tets ==> r == Err::<(), AssemblyError>(
            AssemblyError::MuLength { expected: n_tets, got: mu_len },
        ),
        eps_len == n_tets && mu_len == n_tets ==> r == Ok::<(), AssemblyError>(()),
{
    if eps_len != n_tets {
        return Err(AssemblyError::EpsLength { expected: n_tets, got: eps_len });
    }
    if mu_len != n_tets {
        return Err(AssemblyError::MuLength { expected: n_tets, got: mu_len });
    }
    Ok(())
}

fn array6_to_vec<T: Copy>(a: &[T; 6]) -> (v: Vec<T>)
    ensures
        v@ == a@,
{
    let mut v: Vec<T> = Vec::new();
    let mut i: usize = 0;
    while i < 6
        invariant
            i <= 6,
            v@ == a@.take(i as int),
        decreases 6 - i,
    {
        v.push(a[i]);
        i += 1;
        proof {
            assert(v@ =~= a@.take(i as int));
        }
    }
    proof {
        assert(a@.take(6) =~= a@);
    }
    v
}

/// Integer plan of a global assembly: the edge table, the lift map of the
/// kept degrees of freedom, and, for every tetrahedron, where each entry
/// of its signed 6x6 local block lands in the interior-DoF system.
pub struct AssemblyPlan {
    /// Edge table of the mesh.
    pub table: TetEdgeTable,
    /// Lift map of the interior degrees of freedom.
    pub lift: LiftMap,
    /// `tet_plans[t]` places the local block of tetrahedron `t`.
    pub tet_plans: Vec<Vec<ScatterEntry>>,
}

impl AssemblyPlan {
    /// The plan assembles `tets` with the edges flagged in `eliminated`
    /// dropped.
    pub open spec fn plans(&self, tets: Seq<[usize; 4]>, eliminated: Seq<bool>) -> bool {
        &&& self.table.built_from(tets)
        &&& eliminated.len() == self.table.edges.len()
        &&& self.lift.eliminates(eliminated)
        &&& self.tet_plans.len() == tets.len()
        &&& forall|t: int|
            0 <= t < tets.len() ==> block_plan_ok(
                (#[trigger] self.tet_plans[t])@,
                self.table.tet_edges[t].global_edge@,
                self.table.tet_edges[t].sign@,
                self.lift.interior_dof_of_edge@,
            )
    }

    fn scatter_all(table: &TetEdgeTable, lift: &LiftMap, Ghost(tets): Ghost<Seq<[usize; 4]>>, Ghost(eliminated): Ghost<Seq<bool>>) -> (plans: Vec<Vec<ScatterEntry>>)
        requires
            table.built_from(tets),
            eliminated.len() == table.edges.len(),
            lift.eliminates(eliminated),
        ensures
            plans.len() == tets.len(),
            forall|t: int|
                0 <= t < tets.len() ==> block_plan_ok(
                    (#[trigger] plans[t])@,
                    table.tet_edges[t].global_edge@,
                    table.tet_edges[t].sign@,
                    lift.interior_dof_of_edge@,
                ),
    {
        let n = table.tet_edges.len();
        let mut plans: Vec<Vec<ScatterEntry>> = Vec::new();
        let mut t: usize = 0;
        while t < n
            invariant
                n == table.tet_edges.len(),
                n == tets.len(),
                t <= n,
                table.built_from(tets),
                eliminated.len() == table.edges.len(),
                lift.eliminates(eliminated),
                plans.len() == t,
                forall|u: int|
                    0 <= u < t ==> block_plan_ok(
                        (#[trigger] plans[u])@,
                        table.tet_edges[u].global_edge@,
                        table.tet_edges[u].sign@,
                        lift.interior_dof_of_edge@,
                    ),
            decreases n - t,
        {
            let conn = table.tet_edges[t];
            proof {
                assert(crate::edges::conn_matches(conn, tets[t as int], table.edges@));
            }
            let global = array6_to_vec(&conn.global_edge);
            let signs = array6_to_vec(&conn.sign);
            proof {
                assert forall|a: int| 0 <= a < global.len() implies (#[trigger] global[a]) < lift.interior_dof_of_edge.len() by {
                    assert(conn.global_edge[a] < table.edges.len());
                }
                assert forall|a: int| 0 <= a < signs.len() implies #[trigger] signs[a] == 1 || signs[a] == -1 by {
                    assert(conn.global_edge[a] < table.edges.len());
                    assert(conn.sign[a] == crate::edges::tet_edge_sign(tets[t as int], a));
                }
            }
            let plan = block_scatter_plan(&global, &signs, &lift.interior_dof_of_edge);
            plans.push(plan);
            t += 1;
        }
        plans
    }

    /// Plan of the closed-cavity assembly: every edge on the mesh boundary
    /// (on a face shared by one tetrahedron) is eliminated as PEC.
    pub fn closed_cavity(mesh: &TetMesh) -> (r: Result<AssemblyPlan, AssemblyError>)
        ensures
            mesh.tetrahedra.len() == 0 ==> r == Err::<AssemblyPlan, AssemblyError>(AssemblyError::EmptyMesh),
            mesh.tetrahedra.len() > 0 ==> match r {
                Ok(plan) => plan.plans(mesh.tetrahedra@, plan.table.is_boundary@),
                Err(_) => false,
            },
    {
        if mesh.tetrahedra.len() == 0 {
            return Err(AssemblyError::EmptyMesh);
        }
        let table = TetEdgeTable::build(mesh);
        let lift = lift_map_from_boundary(&table.is_boundary);
        let tet_plans = Self::scatter_all(&table, &lift, Ghost(mesh.tetrahedra@), Ghost(table.is_boundary@));
        Ok(AssemblyPlan { table, lift, tet_plans })
    }

    /// Plan of the assembly with an explicit PEC edge set: exactly the
    /// edges in `pec_edges` are eliminated; every other edge, exterior or
    /// not, stays a degree of freedom.
    pub fn with_pec_edges(mesh: &TetMesh, pec_edges: &HashSet<usize>) -> (r: Result<AssemblyPlan, AssemblyError>)
        ensures
            mesh.tetrahedra.len() == 0 ==> r == Err::<AssemblyPlan, AssemblyError>(AssemblyError::EmptyMesh),
            mesh.tetrahedra.len() > 0 ==> match r {
                Ok(plan) => plan.plans(mesh.tetrahedra@, flags_of_set(pec_edges@, plan.table.edges.len() as nat)),
                Err(_) => false,
            },
    {
        if mesh.tetrahedra.len() == 0 {
            return Err(AssemblyError::EmptyMesh);
        }
        Ok(Self::build_with_pec_edges(mesh, pec_edges))
    }

    /// The explicit-PEC plan of a mesh with at least one tetrahedron.
    pub(crate) fn build_with_pec_edges(mesh: &TetMesh, pec_edges: &HashSet<usize>) -> (plan: AssemblyPlan)
        ensures
            plan.plans(mesh.tetrahedra@, flags_of_set(pec_edges@, plan.table.edges.len() as nat)),
    {
        let table = TetEdgeTable::build(mesh);
        let lift = lift_map_excluding(table.edges.len(), pec_edges);
        let tet_plans = Self::scatter_all(
            &table,
            &lift,
            Ghost(mesh.tetrahedra@),
            Ghost(flags_of_set(pec_edges@, table.edges.len() as nat)),
        );
        AssemblyPlan { table, lift, tet_plans }
    }
}

/// When the explicit PEC set is the geometric boundary-edge set, the
/// explicit-PEC assembly is the closed-cavity assembly: the same degrees
/// of freedom in the same order, and every tetrahedron block scattered to
/// the same places.
pub proof fn lemma_all_pec_matches_closed_cavity(a: AssemblyPlan, b: AssemblyPlan, tets: Seq<[usize; 4]>, pec: Set<usize>)
    requires
        a.plans(tets, a.table.is_boundary@),
        b.plans(tets, flags_of_set(pec, b.table.edges.len() as nat)),
        forall|e: usize| pec.contains(e) <==> (e < a.table.edges.len() && a.table.is_boundary[e as int]),
    ensures
        a.lift.interior_edges@ == b.lift.interior_edges@,
        a.lift.interior_dof_of_edge@ == b.lift.interior_dof_of_edge@,
        a.table.edges@ == b.table.edges@,
        a.tet_plans.len() == b.tet_plans.len(),
        forall|t: int| 0 <= t < a.tet_plans.len() ==> (#[trigger] a.tet_plans[t])@ == b.tet_plans[t]@,
{
    assert(a.table.edges@ == b.table.edges@);
    assert(flags_of_set(pec, b.table.edges.len() as nat) =~= a.table.is_boundary@);
    let n = a.table.edges.len();
    assert forall|e: int| 0 <= e < n implies a.lift.interior_dof_of_edge[e] == b.lift.interior_dof_of_edge[e] by {
        match a.lift.interior_dof_of_edge[e] {
            Some(d) => {
                assert(b.lift.interior_edges[d as int] == e);
                assert(b.lift.interior_dof_of_edge[e] == Some(d));
            },
            None => {},
        }
    }
    assert(a.lift.interior_dof_of_edge@ =~= b.lift.interior_dof_of_edge@);
    assert forall|t: int| 0 <= t < a.tet_plans.len() implies (#[trigger] a.tet_plans[t])@ == b.tet_plans[t]@ by {
        let ca = a.table.tet_edges[t];
        let cb = b.table.tet_edges[t];
        assert(crate::edges::conn_matches(ca, tets[t], a.table.edges@));
        assert(crate::edges::conn_matches(cb, tets[t], b.table.edges@));
        crate::edges::lemma_conn_unique(ca, cb, tets[t], a.table.edges@);
        lemma_block_plan_unique(
            a.tet_plans[t]@,
            b.tet_plans[t]@,
            ca.global_edge@,
            ca.sign@,
            a.lift.interior_dof_of_edge@,
        );
    }
}

} // verus!
