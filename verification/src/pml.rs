//! Integer lattice of the PML mesh extension.
//!
//! An axis-aligned uniform brick mesh (Kuhn six-tetrahedron bricks) is
//! extended outward by `thickness_cells` brick layers on every tagged
//! cavity face. Each new brick is meshed with the same six Kuhn
//! tetrahedra, and every brick is classified by how many cells it lies
//! inside the PML shell of each axis.

use vstd::prelude::*;

use crate::edges::TetEdgeTable;
use crate::exterior::{exterior_face_count, exterior_face_positions, exterior_faces_upto, face_matches, oriented_locals, ExteriorFaceTable};
use crate::faces::{count_eq, face_key, local_face, sort3};
use crate::mesh::TetMesh;

verus! {

/// Cavity face that receives a PML shell, named by its outward normal.
#[derive(Clone, Copy, Debug, PartialEq, Eq, Hash, Structural)]
pub enum PmlAxis {
    /// Face at minimum x (normal `-x`).
    XMin,
    /// Face at maximum x (normal `+x`).
    XMax,
    /// Face at minimum y (normal `-y`).
    YMin,
    /// Face at maximum y (normal `+y`).
    YMax,
    /// Face at minimum z (normal `-z`).
    ZMin,
    /// Face at maximum z (normal `+z`).
    ZMax,
}

/// Cartesian axis index (0 = x, 1 = y, 2 = z) and outward sign of a face.
pub open spec fn axis_sign_of(a: PmlAxis) -> (usize, i32) {
    match a {
        PmlAxis::XMin => (0usize, -1i32),
        PmlAxis::XMax => (0usize, 1i32),
        PmlAxis::YMin => (1usize, -1i32),
        PmlAxis::YMax => (1usize, 1i32),
        PmlAxis::ZMin => (2usize, -1i32),
        PmlAxis::ZMax => (2usize, 1i32),
    }
}

impl PmlAxis {
    /// `(axis_index, sign)`: the Cartesian axis (0 = x, 1 = y, 2 = z) of the
    /// face normal and its outward orientation (`-1` or `+1`).
    pub fn axis_and_sign(self) -> (r: (usize, i32))
        ensures
            r == axis_sign_of(self),
            r.0 < 3,
            r.1 == 1 || r.1 == -1,
    {
        match self {
            PmlAxis::XMin => (0, -1),
            PmlAxis::XMax => (0, 1),
            PmlAxis::YMin => (1, -1),
            PmlAxis::YMax => (1, 1),
            PmlAxis::ZMin => (2, -1),
            PmlAxis::ZMax => (2, 1),
        }
    }
}

/// Distinct faces have distinct `(axis, sign)` pairs.
pub proof fn lemma_axis_and_sign_injective(a: PmlAxis, b: PmlAxis)
    requires
        axis_sign_of(a) == axis_sign_of(b),
    ensures
        a == b,
{
}

/// Mapping from the extended mesh's exterior faces back to the unextended
/// mesh's, both in walk order.
#[derive(Clone, Debug)]
pub struct FaceIndexMap {
    /// `new_to_old[i] = Some(j)` if exterior face `i` of the extended mesh
    /// is exterior face `j` of the unextended mesh, `None` if it is new
    /// (the outer truncation surface of a shell).
    pub new_to_old: Vec<Option<usize>>,
}

/// Why a PML extension is refused.
#[derive(Clone, Copy, Debug, PartialEq, Eq, Structural)]
pub enum PmlError {
    /// No face was tagged for a PML shell.
    EmptyFaces,
}

/// What a PML request does.
#[derive(Clone, Copy, Debug, PartialEq, Eq, Structural)]
pub enum PmlPlan {
    /// Zero thickness: the mesh is returned unchanged, all interior.
    Unchanged,
    /// The brick lattice is extended.
    Extend,
}

/// Decide what extending with `thickness_cells` layers on `pml_faces` does.
pub fn pml_plan(pml_faces: &Vec<PmlAxis>, thickness_cells: usize) -> (r: Result<PmlPlan, PmlError>)
    ensures
        pml_faces.len() == 0 ==> r == Err::<PmlPlan, PmlError>(PmlError::EmptyFaces),
        pml_faces.len() > 0 && thickness_cells == 0 ==> r == Ok::<PmlPlan, PmlError>(PmlPlan::Unchanged),
        pml_faces.len() > 0 && thickness_cells > 0 ==> r == Ok::<PmlPlan, PmlError>(PmlPlan::Extend),
{
    if pml_faces.len() == 0 {
        Err(PmlError::EmptyFaces)
    } else if thickness_cells == 0 {
        Ok(PmlPlan::Unchanged)
    } else {
        Ok(PmlPlan::Extend)
    }
}

/// Position of one brick relative to the PML shells: along each axis,
/// `Some(c)` if the brick lies `c` cells beyond the cavity face into that
/// axis' shell (`c = 0` touches the cavity), `None` if it lies within the
/// cavity's extent along that axis.
#[derive(Clone, Copy, Debug, PartialEq, Eq, Structural)]
pub struct PmlShell {
    /// Cells into the x shell.
    pub x: Option<usize>,
    /// Cells into the y shell.
    pub y: Option<usize>,
    /// Cells into the z shell.
    pub z: Option<usize>,
}

impl PmlShell {
    /// `true` iff the brick lies inside the cavity.
    pub fn is_interior(&self) -> (r: bool)
        ensures
            r == (self.x is None && self.y is None && self.z is None),
    {
        self.x.is_none() && self.y.is_none() && self.z.is_none()
    }
}

/// Brick lattice of an extension.
#[derive(Clone, Copy, Debug)]
pub struct PmlLattice {
    /// Number of bricks along x, y, z in the extended lattice.
    pub cells: (usize, usize, usize),
    /// Number of added brick layers on the negative side of each axis; the
    /// cavity starts at these brick indices.
    pub offset: (usize, usize, usize),
    /// Number of bricks along x, y, z of the cavity.
    pub cavity: (usize, usize, usize),
}

/// Component `d` (0 = x, 1 = y, 2 = z) of a triple.
pub open spec fn pick(v: (usize, usize, usize), d: int) -> usize {
    if d == 0 {
        v.0
    } else if d == 1 {
        v.1
    } else {
        v.2
    }
}

/// Output of a PML extension.
pub struct PmlExtension {
    /// The extended brick lattice; `None` for the unchanged mesh.
    pub lattice: Option<PmlLattice>,
    /// Topology of the extended mesh.
    pub mesh: TetMesh,
    /// Shell position of each tetrahedron.
    pub shells: Vec<PmlShell>,
    /// Exterior-face index map.
    pub face_map: FaceIndexMap,
}

/// Number of times face `a` is listed.
pub open spec fn face_listed(faces: Seq<PmlAxis>, a: PmlAxis) -> nat {
    count_eq(faces, faces.len(), a)
}

/// Added layers on the negative (`min`) and positive (`max`) side of axis
/// `d`.
pub open spec fn layers(faces: Seq<PmlAxis>, t: usize, d: int) -> (int, int) {
    if d == 0 {
        (t * face_listed(faces, PmlAxis::XMin), t * face_listed(faces, PmlAxis::XMax))
    } else if d == 1 {
        (t * face_listed(faces, PmlAxis::YMin), t * face_listed(faces, PmlAxis::YMax))
    } else {
        (t * face_listed(faces, PmlAxis::ZMin), t * face_listed(faces, PmlAxis::ZMax))
    }
}

/// Extended brick count along axis `d`.
pub open spec fn ext_cells(orig: (usize, usize, usize), faces: Seq<PmlAxis>, t: usize, d: int) -> int {
    pick(orig, d) + layers(faces, t, d).0 + layers(faces, t, d).1
}

/// Linear index of brick `(i, j, k)` in a lattice of `c` bricks.
pub open spec fn brick_index(c: (usize, usize, usize), i: int, j: int, k: int) -> int {
    i + c.0 * j + c.0 * c.1 * k
}

/// Linear index of lattice vertex `(i, j, k)` in a grid of `g` vertices.
pub open spec fn vertex_index(g: (usize, usize, usize), i: int, j: int, k: int) -> int {
    i + g.0 * j + g.0 * g.1 * k
}

/// Corner `s` of Kuhn tetrahedron `m` of a brick, as a corner number
/// `0..8` (bit 0: +x, bit 1: +y, bit 2: +z).
pub open spec fn kuhn_corner(m: int, s: int) -> int {
    if s == 0 {
        0
    } else if s == 3 {
        7
    } else if m == 0 {
        if s == 1 { 1 } else { 3 }
    } else if m == 1 {
        if s == 1 { 1 } else { 5 }
    } else if m == 2 {
        if s == 1 { 2 } else { 3 }
    } else if m == 3 {
        if s == 1 { 2 } else { 6 }
    } else if m == 4 {
        if s == 1 { 4 } else { 5 }
    } else {
        if s == 1 { 4 } else { 6 }
    }
}

/// Offsets `(dx, dy, dz)` of brick corner `c`.
pub open spec fn corner_offset(c: int) -> (int, int, int) {
    (c % 2, (c / 2) % 2, c / 4)
}

/// Vertex `s` of Kuhn tetrahedron `m` of brick `(i, j, k)`.
pub open spec fn kuhn_vertex(g: (usize, usize, usize), i: int, j: int, k: int, m: int, s: int) -> int {
    let (dx, dy, dz) = corner_offset(kuhn_corner(m, s));
    vertex_index(g, i + dx, j + dy, k + dz)
}

/// Kuhn tetrahedron `m` of brick `(i, j, k)`.
pub open spec fn kuhn_tet_ok(tet: [usize; 4], g: (usize, usize, usize), i: int, j: int, k: int, m: int) -> bool {
    &&& tet[0] == kuhn_vertex(g, i, j, k, m, 0)
    &&& tet[1] == kuhn_vertex(g, i, j, k, m, 1)
    &&& tet[2] == kuhn_vertex(g, i, j, k, m, 2)
    &&& tet[3] == kuhn_vertex(g, i, j, k, m, 3)
}

/// Shell position along one axis of brick coordinate `idx`.
pub open spec fn shell_axis(idx: int, neg: int, orig: int) -> Option<usize> {
    if idx < neg {
        Some((neg - 1 - idx) as usize)
    } else if idx >= neg + orig {
        Some((idx - (neg + orig)) as usize)
    } else {
        None
    }
}

/// Shell position of brick `(i, j, k)`.
pub open spec fn brick_shell(lat: PmlLattice, i: int, j: int, k: int) -> PmlShell {
    PmlShell {
        x: shell_axis(i, lat.offset.0 as int, lat.cavity.0 as int),
        y: shell_axis(j, lat.offset.1 as int, lat.cavity.1 as int),
        z: shell_axis(k, lat.offset.2 as int, lat.cavity.2 as int),
    }
}

/// A brick of an extended lattice is interior exactly when it lies in the
/// cavity's brick range along every axis; every other brick is in a shell.
pub proof fn lemma_interior_bricks_are_cavity(lat: PmlLattice, i: int, j: int, k: int)
    ensures
        ({
            let s = brick_shell(lat, i, j, k);
            s.x is None && s.y is None && s.z is None
        }) <==> (lat.offset.0 <= i < lat.offset.0 + lat.cavity.0 && lat.offset.1 <= j < lat.offset.1
            + lat.cavity.1 && lat.offset.2 <= k < lat.offset.2 + lat.cavity.2),
{
}

/// Vertex-grid size of a lattice of `c` bricks.
pub open spec fn grid_size(c: (usize, usize, usize)) -> (usize, usize, usize) {
    ((c.0 + 1) as usize, (c.1 + 1) as usize, (c.2 + 1) as usize)
}

/// Vertex-grid size of a lattice.
pub open spec fn grid_of(lat: PmlLattice) -> (usize, usize, usize) {
    grid_size(lat.cells)
}

/// Tetrahedron `m` of brick `(i, j, k)` of a brick mesh of `c` bricks.
pub open spec fn brick_tet(mesh: TetMesh, c: (usize, usize, usize), i: int, j: int, k: int, m: int) -> [usize; 4] {
    mesh.tetrahedra[6 * brick_index(c, i, j, k) + m]
}

/// Shell position of tetrahedron `m` of brick `(i, j, k)`.
pub open spec fn shell_of(ext: PmlExtension, i: int, j: int, k: int, m: int) -> PmlShell {
    ext.shells[6 * brick_index(ext.lattice->0.cells, i, j, k) + m]
}

/// Number of vertices of the extended lattice.
pub open spec fn grid_vertices(cells: (usize, usize, usize)) -> int {
    (cells.0 + 1) * (cells.1 + 1) * (cells.2 + 1)
}

/// A linear brick index lies inside the lattice.
proof fn lemma_index_bound(c0: int, c1: int, c2: int, i: int, j: int, k: int)
    requires
        0 <= i < c0,
        0 <= j < c1,
        0 <= k < c2,
    ensures
        0 <= i + c0 * j + c0 * c1 * k < c0 * c1 * c2,
        0 <= c0 * j,
        0 <= c0 * c1 * k,
        c0 * j <= c0 * c1,
        c0 * c1 * k <= c0 * c1 * c2,
{
    assert(0 <= c0 * j <= c0 * (c1 - 1)) by (nonlinear_arith)
        requires
            0 <= j < c1,
            c0 > 0,
    ;
    assert(c0 * (c1 - 1) + c0 == c0 * c1) by (nonlinear_arith);
    assert(0 <= c0 * c1 * k <= c0 * c1 * (c2 - 1)) by (nonlinear_arith)
        requires
            0 <= k < c2,
            c0 * c1 > 0,
    ;
    assert(c0 * c1 * (c2 - 1) + c0 * c1 == c0 * c1 * c2) by (nonlinear_arith);
}

/// Distinct bricks have distinct linear indices.
proof fn lemma_index_injective(c0: int, c1: int, i: int, j: int, k: int, i2: int, j2: int, k2: int)
    requires
        0 <= i < c0,
        0 <= j < c1,
        0 <= k,
        0 <= i2 < c0,
        0 <= j2 < c1,
        0 <= k2,
        i + c0 * j + c0 * c1 * k == i2 + c0 * j2 + c0 * c1 * k2,
    ensures
        i == i2 && j == j2 && k == k2,
{
    let p = c0 * c1;
    assert(p > 0) by (nonlinear_arith)
        requires
            c0 > 0,
            c1 > 0,
            p == c0 * c1,
    ;
    let lo = i + c0 * j;
    let lo2 = i2 + c0 * j2;
    assert(0 <= lo < p && 0 <= lo2 < p) by (nonlinear_arith)
        requires
            0 <= i < c0,
            0 <= j < c1,
            0 <= i2 < c0,
            0 <= j2 < c1,
            lo == i + c0 * j,
            lo2 == i2 + c0 * j2,
            p == c0 * c1,
    ;
    assert(c0 * c1 * k == p * k && c0 * c1 * k2 == p * k2) by (nonlinear_arith)
        requires
            p == c0 * c1,
    ;
    assert(k == k2 && lo == lo2) by (nonlinear_arith)
        requires
            0 <= lo < p,
            0 <= lo2 < p,
            lo + p * k == lo2 + p * k2,
            k >= 0,
            k2 >= 0,
    ;
    assert(j == j2 && i == i2) by (nonlinear_arith)
        requires
            0 <= i < c0,
            0 <= i2 < c0,
            i + c0 * j == i2 + c0 * j2,
            j >= 0,
            j2 >= 0,
    ;
}

/// Stepping past the last brick of a row starts the next row.
proof fn lemma_index_step_j(c0: int, c1: int, j: int, k: int)
    ensures
        c0 + c0 * j + c0 * c1 * k == 0 + c0 * (j + 1) + c0 * c1 * k,
{
    assert(c0 * (j + 1) == c0 * j + c0) by (nonlinear_arith);
}

/// Stepping past the last row of a layer starts the next layer.
proof fn lemma_index_step_k(c0: int, c1: int, k: int)
    ensures
        0 + c0 * c1 + c0 * c1 * k == 0 + c0 * 0 + c0 * c1 * (k + 1),
{
    assert(c0 * c1 * (k + 1) == c0 * c1 * k + c0 * c1) by (nonlinear_arith);
    assert(c0 * 0 == 0);
}

fn kuhn_corner_exec(m: usize, s: usize) -> (c: usize)
    requires
        m < 6,
        s < 4,
    ensures
        c as int == kuhn_corner(m as int, s as int),
        c < 8,
{
    if s == 0 {
        0
    } else if s == 3 {
        7
    } else if m == 0 {
        if s == 1 { 1 } else { 3 }
    } else if m == 1 {
        if s == 1 { 1 } else { 5 }
    } else if m == 2 {
        if s == 1 { 2 } else { 3 }
    } else if m == 3 {
        if s == 1 { 2 } else { 6 }
    } else if m == 4 {
        if s == 1 { 4 } else { 5 }
    } else {
        if s == 1 { 4 } else { 6 }
    }
}

fn count_face(faces: &Vec<PmlAxis>, a: PmlAxis) -> (n: usize)
    ensures
        n == face_listed(faces@, a),
        n <= faces.len(),
{
    let mut n: usize = 0;
    let mut i: usize = 0;
    while i < faces.len()
        invariant
            i <= faces.len(),
            n == count_eq(faces@, i as nat, a),
            n <= i,
        decreases faces.len() - i,
    {
        if faces[i] == a {
            n += 1;
        }
        i += 1;
    }
    n
}

fn shell_axis_exec(idx: usize, neg: usize, orig: usize) -> (r: Option<usize>)
    requires
        neg + orig <= usize::MAX,
    ensures
        r == shell_axis(idx as int, neg as int, orig as int),
{
    if idx < neg {
        Some(neg - 1 - idx)
    } else if idx >= neg + orig {
        Some(idx - (neg + orig))
    } else {
        None
    }
}

/// `mesh` is the Kuhn mesh of a lattice of `c` bricks: bricks in order
/// (x fastest, then y, then z), six Kuhn tetrahedra per brick, every
/// vertex index on the grid, every material tag 0.
pub open spec fn kuhn_mesh_ok(mesh: TetMesh, c: (usize, usize, usize)) -> bool {
    &&& mesh.n_vertices == grid_vertices(c)
    &&& mesh.tetrahedra.len() == 6 * (c.0 * c.1 * c.2)
    &&& mesh.tetrahedron_material.len() == mesh.tetrahedra.len()
    &&& forall|i: int, j: int, k: int, m: int|
        0 <= i < c.0 && 0 <= j < c.1 && 0 <= k < c.2 && 0 <= m < 6 ==> kuhn_tet_ok(
            #[trigger] brick_tet(mesh, c, i, j, k, m),
            grid_size(c),
            i,
            j,
            k,
            m,
        )
    &&& forall|t: int, s: int|
        0 <= t < mesh.tetrahedra.len() && 0 <= s < 4 ==> (#[trigger] mesh.tetrahedra[t][s]) < mesh.n_vertices
    &&& forall|t: int| 0 <= t < mesh.tetrahedron_material.len() ==> #[trigger] mesh.tetrahedron_material[t] == 0
}

/// `ext` extends a cavity of `cavity_cells` bricks by `t` layers on every
/// face listed in `faces`: the extended lattice, its Kuhn mesh, and the
/// shell position of every tetrahedron (that of its brick).
pub open spec fn lattice_ok(ext: PmlExtension, cavity_cells: (usize, usize, usize), faces: Seq<PmlAxis>, t: usize) -> bool {
    &&& ext.lattice is Some
    &&& ({
        let lat = ext.lattice->0;
        let c = lat.cells;
        &&& lat.cavity == cavity_cells
        &&& forall|d: int| 0 <= d < 3 ==> #[trigger] pick(c, d) == ext_cells(cavity_cells, faces, t, d)
        &&& forall|d: int| 0 <= d < 3 ==> #[trigger] pick(lat.offset, d) == layers(faces, t, d).0
        &&& lat.offset.0 + lat.cavity.0 <= c.0 && lat.offset.1 + lat.cavity.1 <= c.1 && lat.offset.2 + lat.cavity.2 <= c.2
        &&& kuhn_mesh_ok(ext.mesh, c)
        &&& ext.shells.len() == ext.mesh.tetrahedra.len()
        &&& forall|i: int, j: int, k: int, m: int|
            0 <= i < c.0 && 0 <= j < c.1 && 0 <= k < c.2 && 0 <= m < 6 ==> #[trigger] shell_of(ext, i, j, k, m)
                == brick_shell(lat, i, j, k)
    })
}

/// Where cavity vertex `v`, at point `cells[v]` of the cavity's vertex
/// grid, lands in the extended lattice `lat`: the same point shifted by
/// the negative-side layers.
pub open spec fn image_vertex(cells: Seq<(usize, usize, usize)>, lat: PmlLattice, v: int) -> usize {
    let p = cells[v];
    vertex_index(grid_of(lat), p.0 + lat.offset.0, p.1 + lat.offset.1, p.2 + lat.offset.2) as usize
}

/// Sorted image vertices of the cavity face at walk position `p`
/// (tetrahedron `p.0`, local face `p.1`).
pub open spec fn image_face_key(
    tets: Seq<[usize; 4]>,
    cells: Seq<(usize, usize, usize)>,
    lat: PmlLattice,
    p: (int, int),
) -> (usize, usize, usize) {
    let tet = tets[p.0];
    let (a, b, c) = local_face(p.1);
    sort3(
        image_vertex(cells, lat, tet[a] as int),
        image_vertex(cells, lat, tet[b] as int),
        image_vertex(cells, lat, tet[c] as int),
    )
}

/// `map` has one entry per exterior face of the extended mesh `tets`, in
/// walk order: `Some(j)` for the first exterior face `j` of the cavity
/// mesh `cavity_tets` whose image has the same vertices, `None` for a face
/// that is not the image of any cavity exterior face.
pub open spec fn face_map_ok(
    map: Seq<Option<usize>>,
    cavity_tets: Seq<[usize; 4]>,
    cells: Seq<(usize, usize, usize)>,
    lat: PmlLattice,
    tets: Seq<[usize; 4]>,
) -> bool {
    let olds = exterior_face_positions(cavity_tets);
    let news = exterior_face_positions(tets);
    &&& map.len() == news.len()
    &&& forall|i: int|
        0 <= i < news.len() ==> match #[trigger] map[i] {
            Some(j) => {
                &&& j < olds.len()
                &&& image_face_key(cavity_tets, cells, lat, olds[j as int]) == face_key(tets[news[i].0], news[i].1)
                &&& forall|q: int|
                    0 <= q < j ==> image_face_key(cavity_tets, cells, lat, #[trigger] olds[q]) != face_key(
                        tets[news[i].0],
                        news[i].1,
                    )
            },
            None => forall|q: int|
                0 <= q < olds.len() ==> image_face_key(cavity_tets, cells, lat, #[trigger] olds[q]) != face_key(
                    tets[news[i].0],
                    news[i].1,
                ),
        }
}

/// The brick of `s` lies inside the cavity along every axis.
pub open spec fn shell_interior(s: PmlShell) -> bool {
    s.x is None && s.y is None && s.z is None
}

/// Number of interior entries among the first `n` of `shells`.
pub open spec fn interior_count(shells: Seq<PmlShell>, n: nat) -> int
    decreases n,
{
    if n == 0 {
        0
    } else {
        interior_count(shells, (n - 1) as nat) + if shell_interior(shells[n - 1]) {
            1int
        } else {
            0int
        }
    }
}

/// `o <= x < o + a`.
pub open spec fn in_span(x: int, o: int, a: int) -> bool {
    o <= x < o + a
}

/// Number of `x < n` with `in_span(x, o, a)`.
pub open spec fn span_count(n: nat, o: int, a: int) -> int
    decreases n,
{
    if n == 0 {
        0
    } else {
        span_count((n - 1) as nat, o, a) + if in_span(n - 1, o, a) {
            1int
        } else {
            0int
        }
    }
}

/// Closed form of `span_count`.
proof fn lemma_span_count(n: nat, o: int, a: int)
    requires
        o >= 0,
        a >= 0,
    ensures
        span_count(n, o, a) == if n <= o {
            0
        } else if n <= o + a {
            n - o
        } else {
            a
        },
    decreases n,
{
    if n > 0 {
        lemma_span_count((n - 1) as nat, o, a);
    }
}

/// Six equal entries add six to the interior count, or nothing.
proof fn lemma_count_six(shells: Seq<PmlShell>, p: nat, sh: PmlShell)
    requires
        p + 6 <= shells.len(),
        forall|m: int| 0 <= m < 6 ==> #[trigger] shells[p + m] == sh,
    ensures
        interior_count(shells, p + 6) == interior_count(shells, p) + if shell_interior(sh) {
            6int
        } else {
            0int
        },
{
    assert(shells[p as int + 0] == sh);
    assert(shells[p as int + 1] == sh);
    assert(shells[p as int + 2] == sh);
    assert(shells[p as int + 3] == sh);
    assert(shells[p as int + 4] == sh);
    assert(shells[p as int + 5] == sh);
    assert(interior_count(shells, p + 1) == interior_count(shells, p) + if shell_interior(sh) { 1int } else { 0int });
    assert(interior_count(shells, p + 2) == interior_count(shells, p + 1) + if shell_interior(sh) { 1int } else { 0int });
    assert(interior_count(shells, p + 3) == interior_count(shells, p + 2) + if shell_interior(sh) { 1int } else { 0int });
    assert(interior_count(shells, p + 4) == interior_count(shells, p + 3) + if shell_interior(sh) { 1int } else { 0int });
    assert(interior_count(shells, p + 5) == interior_count(shells, p + 4) + if shell_interior(sh) { 1int } else { 0int });
    assert(interior_count(shells, p + 6) == interior_count(shells, p + 5) + if shell_interior(sh) { 1int } else { 0int });
}

/// Counting along one row of bricks `(0..n, j, k)`.
proof fn lemma_row_count(ext: PmlExtension, cavity_cells: (usize, usize, usize), faces: Seq<PmlAxis>, t: usize, j: int, k: int, n: nat)
    requires
        lattice_ok(ext, cavity_cells, faces, t),
        0 <= j < ext.lattice->0.cells.1,
        0 <= k < ext.lattice->0.cells.2,
        n <= ext.lattice->0.cells.0,
    ensures
        ({
            let lat = ext.lattice->0;
            let c = lat.cells;
            let base = c.0 * j + c.0 * c.1 * k;
            interior_count(ext.shells@, (6 * (n + base)) as nat) == interior_count(ext.shells@, (6 * base) as nat) + 6 * (
            if in_span(j, lat.offset.1 as int, lat.cavity.1 as int) && in_span(k, lat.offset.2 as int, lat.cavity.2 as int) {
                span_count(n, lat.offset.0 as int, lat.cavity.0 as int)
            } else {
                0
            })
        }),
    decreases n,
{
    let lat = ext.lattice->0;
    let c = lat.cells;
    let base = c.0 * j + c.0 * c.1 * k;
    if n > 0 {
        let i = n - 1;
        lemma_row_count(ext, cavity_cells, faces, t, j, k, (n - 1) as nat);
        lemma_index_bound(c.0 as int, c.1 as int, c.2 as int, i, j, k);
        let b = i + base;
        assert(b == brick_index(c, i, j, k));
        let sh = brick_shell(lat, i, j, k);
        assert forall|m: int| 0 <= m < 6 implies #[trigger] ext.shells@[6 * b + m] == sh by {
            assert(shell_of(ext, i, j, k, m) == brick_shell(lat, i, j, k));
        }
        assert(ext.shells.len() == 6 * (c.0 * c.1 * c.2));
        lemma_count_six(ext.shells@, (6 * b) as nat, sh);
        lemma_interior_bricks_are_cavity(lat, i, j, k);
    }
}

/// Counting over the first `n` rows of layer `k`.
proof fn lemma_layer_count(ext: PmlExtension, cavity_cells: (usize, usize, usize), faces: Seq<PmlAxis>, t: usize, k: int, n: nat)
    requires
        lattice_ok(ext, cavity_cells, faces, t),
        0 <= k < ext.lattice->0.cells.2,
        n <= ext.lattice->0.cells.1,
    ensures
        ({
            let lat = ext.lattice->0;
            let c = lat.cells;
            interior_count(ext.shells@, (6 * (c.0 * n + c.0 * c.1 * k)) as nat) == interior_count(
                ext.shells@,
                (6 * (c.0 * c.1 * k)) as nat,
            ) + 6 * (if in_span(k, lat.offset.2 as int, lat.cavity.2 as int) {
                span_count(n, lat.offset.1 as int, lat.cavity.1 as int) * lat.cavity.0
            } else {
                0
            })
        }),
    decreases n,
{
    let lat = ext.lattice->0;
    let c = lat.cells;
    let (o0, o1) = (lat.offset.0 as int, lat.offset.1 as int);
    let (a0, a1) = (lat.cavity.0 as int, lat.cavity.1 as int);
    assert(c.0 * 0 == 0) by (nonlinear_arith);
    assert(c.0 * c.1 * k >= 0) by (nonlinear_arith)
        requires
            k >= 0,
    ;
    if n > 0 {
        let j = n - 1;
        lemma_layer_count(ext, cavity_cells, faces, t, k, (n - 1) as nat);
        lemma_row_count(ext, cavity_cells, faces, t, j, k, c.0 as nat);
        lemma_span_count(c.0 as nat, o0, a0);
        assert(c.0 + c.0 * j == c.0 * n) by (nonlinear_arith)
            requires
                j == n - 1,
        ;
        let sj = span_count(j as nat, o1, a1);
        assert(sj * a0 + a0 == (sj + 1) * a0) by (nonlinear_arith);
    }
}

/// Counting over the first `n` layers.
proof fn lemma_lattice_count(ext: PmlExtension, cavity_cells: (usize, usize, usize), faces: Seq<PmlAxis>, t: usize, n: nat)
    requires
        lattice_ok(ext, cavity_cells, faces, t),
        n <= ext.lattice->0.cells.2,
    ensures
        ({
            let lat = ext.lattice->0;
            let c = lat.cells;
            interior_count(ext.shells@, (6 * (c.0 * c.1 * n)) as nat) == 6 * (span_count(
                n,
                lat.offset.2 as int,
                lat.cavity.2 as int,
            ) * (lat.cavity.1 * lat.cavity.0))
        }),
    decreases n,
{
    let lat = ext.lattice->0;
    let c = lat.cells;
    let (o1, o2) = (lat.offset.1 as int, lat.offset.2 as int);
    let (a0, a1, a2) = (lat.cavity.0 as int, lat.cavity.1 as int, lat.cavity.2 as int);
    assert(c.0 * c.1 * 0 == 0) by (nonlinear_arith);
    if n > 0 {
        let k = n - 1;
        lemma_lattice_count(ext, cavity_cells, faces, t, (n - 1) as nat);
        lemma_layer_count(ext, cavity_cells, faces, t, k, c.1 as nat);
        lemma_span_count(c.1 as nat, o1, a1);
        assert(c.0 * c.1 + c.0 * c.1 * k == c.0 * c.1 * n) by (nonlinear_arith)
            requires
                k == n - 1,
        ;
        let sk = span_count(k as nat, o2, a2);
        assert(sk * (a1 * a0) + a1 * a0 == (sk + 1) * (a1 * a0)) by (nonlinear_arith);
    }
}

/// The interior tetrahedra of an extension are the six Kuhn tetrahedra of
/// each cavity brick: there are six per cavity brick, and every other
/// tetrahedron lies in a shell.
pub proof fn lemma_interior_tet_count(ext: PmlExtension, cavity_cells: (usize, usize, usize), faces: Seq<PmlAxis>, t: usize)
    requires
        lattice_ok(ext, cavity_cells, faces, t),
    ensures
        interior_count(ext.shells@, ext.shells.len() as nat) == 6 * (cavity_cells.0 * cavity_cells.1 * cavity_cells.2),
{
    let lat = ext.lattice->0;
    let c = lat.cells;
    lemma_lattice_count(ext, cavity_cells, faces, t, c.2 as nat);
    lemma_span_count(c.2 as nat, lat.offset.2 as int, lat.cavity.2 as int);
    let (a0, a1, a2) = (cavity_cells.0 as int, cavity_cells.1 as int, cavity_cells.2 as int);
    assert(a2 * (a1 * a0) == a0 * a1 * a2) by (nonlinear_arith);
}

/// `count_eq` over the whole list is the length of the filtered list.
proof fn lemma_listed_is_filter(faces: Seq<PmlAxis>, n: nat, a: PmlAxis)
    requires
        n <= faces.len(),
    ensures
        count_eq(faces, n, a) == faces.take(n as int).filter(|b: PmlAxis| b == a).len(),
    decreases n,
{
    if n > 0 {
        lemma_listed_is_filter(faces, (n - 1) as nat, a);
        assert(faces.take(n as int) =~= faces.take(n - 1).push(faces[n - 1]));
        faces.take(n - 1).lemma_filter_len_push(|b: PmlAxis| b == a, faces[n - 1]);
    } else {
        assert(faces.take(0).len() == 0);
        reveal(Seq::filter);
    }
}

/// Every listing of a face adds `t` brick layers on that side: along each
/// axis the extended lattice holds the cavity's bricks plus `t` per
/// listing of the axis' min face and `t` per listing of its max face, and
/// the cavity starts after the min-side layers.
pub proof fn lemma_extension_layers(ext: PmlExtension, cavity_cells: (usize, usize, usize), faces: Seq<PmlAxis>, t: usize)
    requires
        lattice_ok(ext, cavity_cells, faces, t),
    ensures
        ext.lattice->0.cells.0 == cavity_cells.0 + t * faces.filter(|b: PmlAxis| b == PmlAxis::XMin).len() + t
            * faces.filter(|b: PmlAxis| b == PmlAxis::XMax).len(),
        ext.lattice->0.cells.1 == cavity_cells.1 + t * faces.filter(|b: PmlAxis| b == PmlAxis::YMin).len() + t
            * faces.filter(|b: PmlAxis| b == PmlAxis::YMax).len(),
        ext.lattice->0.cells.2 == cavity_cells.2 + t * faces.filter(|b: PmlAxis| b == PmlAxis::ZMin).len() + t
            * faces.filter(|b: PmlAxis| b == PmlAxis::ZMax).len(),
        ext.lattice->0.offset.0 == t * faces.filter(|b: PmlAxis| b == PmlAxis::XMin).len(),
        ext.lattice->0.offset.1 == t * faces.filter(|b: PmlAxis| b == PmlAxis::YMin).len(),
        ext.lattice->0.offset.2 == t * faces.filter(|b: PmlAxis| b == PmlAxis::ZMin).len(),
{
    let lat = ext.lattice->0;
    assert(faces.take(faces.len() as int) =~= faces);
    lemma_listed_is_filter(faces, faces.len(), PmlAxis::XMin);
    lemma_listed_is_filter(faces, faces.len(), PmlAxis::XMax);
    lemma_listed_is_filter(faces, faces.len(), PmlAxis::YMin);
    lemma_listed_is_filter(faces, faces.len(), PmlAxis::YMax);
    lemma_listed_is_filter(faces, faces.len(), PmlAxis::ZMin);
    lemma_listed_is_filter(faces, faces.len(), PmlAxis::ZMax);
    assert(pick(lat.cells, 0) == lat.cells.0 && pick(lat.cells, 1) == lat.cells.1 && pick(lat.cells, 2) == lat.cells.2);
    assert(pick(lat.offset, 0) == lat.offset.0 && pick(lat.offset, 1) == lat.offset.1 && pick(lat.offset, 2)
        == lat.offset.2);
}

/// Shell depths count whole cells from the cavity face outward: along x,
/// a brick `i` before the cavity lies `d` cells out with `i + d + 1` equal
/// to the min-side layers, a brick inside the cavity's x range has no x
/// depth, and a brick past the cavity lies `d` cells beyond its far face,
/// `d` below the max-side layers (the brick touching the cavity is at
/// depth 0); likewise along y and z.
pub proof fn lemma_shell_depths(
    ext: PmlExtension,
    cavity_cells: (usize, usize, usize),
    faces: Seq<PmlAxis>,
    t: usize,
    i: int,
    j: int,
    k: int,
    m: int,
)
    requires
        lattice_ok(ext, cavity_cells, faces, t),
        0 <= i < ext.lattice->0.cells.0,
        0 <= j < ext.lattice->0.cells.1,
        0 <= k < ext.lattice->0.cells.2,
        0 <= m < 6,
    ensures
        ({
            let sh = shell_of(ext, i, j, k, m);
            &&& (i < t * faces.filter(|b: PmlAxis| b == PmlAxis::XMin).len() ==> sh.x is Some && i + sh.x->0 + 1
                == t * faces.filter(|b: PmlAxis| b == PmlAxis::XMin).len())
            &&& (t * faces.filter(|b: PmlAxis| b == PmlAxis::XMin).len() <= i < t * faces.filter(|b: PmlAxis| b == PmlAxis::XMin).len()
                + cavity_cells.0 ==> sh.x is None)
            &&& (t * faces.filter(|b: PmlAxis| b == PmlAxis::XMin).len() + cavity_cells.0 <= i ==> sh.x is Some && i
                == t * faces.filter(|b: PmlAxis| b == PmlAxis::XMin).len() + cavity_cells.0 + sh.x->0 && sh.x->0 < t
                * faces.filter(|b: PmlAxis| b == PmlAxis::XMax).len())
            &&& (j < t * faces.filter(|b: PmlAxis| b == PmlAxis::YMin).len() ==> sh.y is Some && j + sh.y->0 + 1
                == t * faces.filter(|b: PmlAxis| b == PmlAxis::YMin).len())
            &&& (t * faces.filter(|b: PmlAxis| b == PmlAxis::YMin).len() <= j < t * faces.filter(|b: PmlAxis| b == PmlAxis::YMin).len()
                + cavity_cells.1 ==> sh.y is None)
            &&& (t * faces.filter(|b: PmlAxis| b == PmlAxis::YMin).len() + cavity_cells.1 <= j ==> sh.y is Some && j
                == t * faces.filter(|b: PmlAxis| b == PmlAxis::YMin).len() + cavity_cells.1 + sh.y->0 && sh.y->0 < t
                * faces.filter(|b: PmlAxis| b == PmlAxis::YMax).len())
            &&& (k < t * faces.filter(|b: PmlAxis| b == PmlAxis::ZMin).len() ==> sh.z is Some && k + sh.z->0 + 1
                == t * faces.filter(|b: PmlAxis| b == PmlAxis::ZMin).len())
            &&& (t * faces.filter(|b: PmlAxis| b == PmlAxis::ZMin).len() <= k < t * faces.filter(|b: PmlAxis| b == PmlAxis::ZMin).len()
                + cavity_cells.2 ==> sh.z is None)
            &&& (t * faces.filter(|b: PmlAxis| b == PmlAxis::ZMin).len() + cavity_cells.2 <= k ==> sh.z is Some && k
                == t * faces.filter(|b: PmlAxis| b == PmlAxis::ZMin).len() + cavity_cells.2 + sh.z->0 && sh.z->0 < t
                * faces.filter(|b: PmlAxis| b == PmlAxis::ZMax).len())
        }),
{
    lemma_extension_layers(ext, cavity_cells, faces, t);
    let lat = ext.lattice->0;
    assert(shell_of(ext, i, j, k, m) == brick_shell(lat, i, j, k));
}

/// Sorting three indices keeps them.
proof fn lemma_sort3_set(x: usize, y: usize, z: usize)
    ensures
        set![sort3(x, y, z).0 as int, sort3(x, y, z).1 as int, sort3(x, y, z).2 as int] == set![x as int, y as int, z as int],
{
    assert(set![sort3(x, y, z).0 as int, sort3(x, y, z).1 as int, sort3(x, y, z).2 as int] =~= set![x as int, y as int, z as int]);
}

/// A face kept by the extension is its cavity face moved by the min-side
/// layers: when exterior face `i` of the extended mesh maps to cavity
/// exterior face `j`, its three vertices are exactly the vertices of face
/// `j` with each grid point `(x, y, z)` moved to `(x + lx, y + ly, z + lz)`
/// in the extended vertex grid, where `lx`, `ly`, `lz` are `t` times the
/// listings of `XMin`, `YMin`, `ZMin`.
pub proof fn lemma_face_map_shifts_cavity_faces(
    ext: PmlExtension,
    cavity: Seq<[usize; 4]>,
    cells: Seq<(usize, usize, usize)>,
    cavity_cells: (usize, usize, usize),
    faces: Seq<PmlAxis>,
    t: usize,
    i: int,
)
    requires
        lattice_ok(ext, cavity_cells, faces, t),
        face_map_ok(ext.face_map.new_to_old@, cavity, cells, ext.lattice->0, ext.mesh.tetrahedra@),
        forall|v: int|
            0 <= v < cells.len() ==> (#[trigger] cells[v]).0 <= cavity_cells.0 && cells[v].1 <= cavity_cells.1
                && cells[v].2 <= cavity_cells.2,
        forall|q: int, s: int| 0 <= q < cavity.len() && 0 <= s < 4 ==> (#[trigger] cavity[q][s]) < cells.len(),
        0 <= i < ext.face_map.new_to_old.len(),
        ext.face_map.new_to_old[i] is Some,
    ensures
        ({
            let jj = ext.face_map.new_to_old[i]->0 as int;
            let op = exterior_face_positions(cavity)[jj];
            let np = exterior_face_positions(ext.mesh.tetrahedra@)[i];
            let ct = cavity[op.0];
            let nt = ext.mesh.tetrahedra[np.0];
            let (a, b, c) = local_face(op.1);
            let (a2, b2, c2) = local_face(np.1);
            let g0 = ext.lattice->0.cells.0 + 1;
            let g1 = ext.lattice->0.cells.1 + 1;
            let lx = t * faces.filter(|e: PmlAxis| e == PmlAxis::XMin).len();
            let ly = t * faces.filter(|e: PmlAxis| e == PmlAxis::YMin).len();
            let lz = t * faces.filter(|e: PmlAxis| e == PmlAxis::ZMin).len();
            let moved = |v: usize|
                (cells[v as int].0 + lx) + g0 * (cells[v as int].1 + ly) + g0 * g1 * (cells[v as int].2 + lz);
            &&& jj < exterior_face_positions(cavity).len()
            &&& set![nt[a2] as int, nt[b2] as int, nt[c2] as int] == set![moved(ct[a]), moved(ct[b]), moved(ct[c])]
        }),
{
    lemma_extension_layers(ext, cavity_cells, faces, t);
    let lat = ext.lattice->0;
    let olds = exterior_face_positions(cavity);
    let news = exterior_face_positions(ext.mesh.tetrahedra@);
    let jj = ext.face_map.new_to_old[i]->0 as int;
    let map = ext.face_map.new_to_old@;
    assert(map[i] == ext.face_map.new_to_old[i]);
    assert(jj < olds.len());
    assert(image_face_key(cavity, cells, lat, olds[jj]) == face_key(ext.mesh.tetrahedra@[news[i].0], news[i].1));
    crate::exterior::lemma_exterior_positions(cavity, (4 * cavity.len()) as nat);
    let op = olds[jj];
    assert(exterior_faces_upto(cavity, (4 * cavity.len()) as nat)[jj] == op);
    assert(0 <= op.0 < cavity.len() && 0 <= op.1 < 4);
    let ct = cavity[op.0];
    let (a, b, c) = local_face(op.1);
    let g0 = lat.cells.0 + 1;
    let g1 = lat.cells.1 + 1;
    let g2 = lat.cells.2 + 1;
    assert(ext.mesh.n_vertices == g0 * g1 * g2);
    assert(g0 <= usize::MAX && g1 <= usize::MAX && g2 <= usize::MAX) by (nonlinear_arith)
        requires
            g0 * g1 * g2 <= usize::MAX,
            g0 >= 1,
            g1 >= 1,
            g2 >= 1,
    ;
    assert(grid_of(lat) == (g0 as usize, g1 as usize, g2 as usize));
    assert forall|s: int| 0 <= s < 4 implies (image_vertex(cells, lat, ct[s] as int) as int) == (cells[ct[s] as int].0
        + lat.offset.0) + g0 * (cells[ct[s] as int].1 + lat.offset.1) + g0 * g1 * (cells[ct[s] as int].2 + lat.offset.2) by {
        let p = cells[ct[s] as int];
        assert(cavity[op.0][s] < cells.len());
        assert(p.0 <= cavity_cells.0 && p.1 <= cavity_cells.1 && p.2 <= cavity_cells.2);
        lemma_index_bound(g0, g1, g2, p.0 + lat.offset.0, p.1 + lat.offset.1, p.2 + lat.offset.2);
    }
    let np = news[i];
    let nt = ext.mesh.tetrahedra[np.0];
    let (a2, b2, c2) = local_face(np.1);
    lemma_sort3_set(nt[a2], nt[b2], nt[c2]);
    lemma_sort3_set(
        image_vertex(cells, lat, ct[a] as int),
        image_vertex(cells, lat, ct[b] as int),
        image_vertex(cells, lat, ct[c] as int),
    );
}

/// Size bound under which the extended lattice and its tetrahedron list
/// fit in memory indices.
pub open spec fn extension_fits(orig: (usize, usize, usize), faces: Seq<PmlAxis>, t: usize) -> bool {
    let c0 = ext_cells(orig, faces, t, 0);
    let c1 = ext_cells(orig, faces, t, 1);
    let c2 = ext_cells(orig, faces, t, 2);
    &&& (c0 + 1) * (c1 + 1) * (c2 + 1) <= usize::MAX
    &&& 6 * (c0 * c1 * c2) <= usize::MAX
}

fn sort3_exec(x: usize, y: usize, z: usize) -> (r: (usize, usize, usize))
    ensures
        r == sort3(x, y, z),
{
    if x <= y {
        if y <= z {
            (x, y, z)
        } else if x <= z {
            (x, z, y)
        } else {
            (z, x, y)
        }
    } else {
        if x <= z {
            (y, x, z)
        } else if y <= z {
            (y, z, x)
        } else {
            (z, y, x)
        }
    }
}

/// Index of the first entry of `keys` equal to `key`.
fn first_match(keys: &Vec<(usize, usize, usize)>, key: (usize, usize, usize)) -> (r: Option<usize>)
    ensures
        match r {
            Some(j) => j < keys.len() && keys[j as int] == key && forall|q: int| 0 <= q < j ==> keys[q] != key,
            None => forall|q: int| 0 <= q < keys.len() ==> keys[q] != key,
        },
{
    let mut q: usize = 0;
    while q < keys.len()
        invariant
            q <= keys.len(),
            forall|r: int| 0 <= r < q ==> keys[r] != key,
        decreases keys.len() - q,
    {
        let k = keys[q];
        if k.0 == key.0 && k.1 == key.1 && k.2 == key.2 {
            return Some(q);
        }
        q += 1;
    }
    None
}

/// Index of vertex `p` of the cavity grid in the extended lattice `lat`.
fn image_vertex_exec(p: (usize, usize, usize), lat: PmlLattice) -> (r: usize)
    requires
        p.0 <= lat.cavity.0 && p.1 <= lat.cavity.1 && p.2 <= lat.cavity.2,
        lat.offset.0 + lat.cavity.0 <= lat.cells.0,
        lat.offset.1 + lat.cavity.1 <= lat.cells.1,
        lat.offset.2 + lat.cavity.2 <= lat.cells.2,
        grid_vertices(lat.cells) <= usize::MAX,
    ensures
        r as int == vertex_index(grid_of(lat), p.0 + lat.offset.0, p.1 + lat.offset.1, p.2 + lat.offset.2),
        r < grid_vertices(lat.cells),
{
    let ghost g0 = lat.cells.0 + 1;
    let ghost g1 = lat.cells.1 + 1;
    let ghost g2 = lat.cells.2 + 1;
    proof {
        assert(g0 <= usize::MAX && g1 <= usize::MAX && g0 * g1 <= usize::MAX) by (nonlinear_arith)
            requires
                g0 * g1 * g2 <= usize::MAX,
                g0 >= 1,
                g1 >= 1,
                g2 >= 1,
        ;
        lemma_index_bound(
            g0,
            g1,
            g2,
            p.0 + lat.offset.0,
            p.1 + lat.offset.1,
            p.2 + lat.offset.2,
        );
    }
    let i = p.0 + lat.offset.0;
    let j = p.1 + lat.offset.1;
    let k = p.2 + lat.offset.2;
    let h0 = lat.cells.0 + 1;
    let h1 = lat.cells.1 + 1;
    let layer = h0 * h1;
    i + h0 * j + layer * k
}

impl PmlExtension {
    /// The zero-thickness extension: the mesh unchanged, every tetrahedron
    /// inside the cavity, and every exterior face `i` mapped to itself.
    pub fn unchanged(mesh: &TetMesh) -> (ext: PmlExtension)
        ensures
            ext.lattice is None,
            ext.mesh.n_vertices == mesh.n_vertices,
            ext.mesh.tetrahedra@ == mesh.tetrahedra@,
            ext.mesh.tetrahedron_material@ == mesh.tetrahedron_material@,
            ext.shells.len() == mesh.tetrahedra.len(),
            forall|t: int| 0 <= t < ext.shells.len() ==> (#[trigger] ext.shells[t]) == (PmlShell { x: None, y: None, z: None }),
            ext.face_map.new_to_old.len() == exterior_face_positions(mesh.tetrahedra@).len(),
            forall|i: int| 0 <= i < ext.face_map.new_to_old.len() ==> #[trigger] ext.face_map.new_to_old[i] == Some(i as usize),
    {
        let n = mesh.tetrahedra.len();
        let mut tetrahedra: Vec<[usize; 4]> = Vec::new();
        let mut shells: Vec<PmlShell> = Vec::new();
        let mut t: usize = 0;
        while t < n
            invariant
                n == mesh.tetrahedra.len(),
                t <= n,
                tetrahedra@ == mesh.tetrahedra@.take(t as int),
                shells.len() == t,
                forall|s: int| 0 <= s < t ==> (#[trigger] shells[s]) == (PmlShell { x: None, y: None, z: None }),
            decreases n - t,
        {
            tetrahedra.push(mesh.tetrahedra[t]);
            shells.push(PmlShell { x: None, y: None, z: None });
            t += 1;
            proof {
                assert(tetrahedra@ =~= mesh.tetrahedra@.take(t as int));
            }
        }
        let mut materials: Vec<u32> = Vec::new();
        let mut q: usize = 0;
        while q < mesh.tetrahedron_material.len()
            invariant
                q <= mesh.tetrahedron_material.len(),
                materials@ == mesh.tetrahedron_material@.take(q as int),
            decreases mesh.tetrahedron_material.len() - q,
        {
            materials.push(mesh.tetrahedron_material[q]);
            q += 1;
            proof {
                assert(materials@ =~= mesh.tetrahedron_material@.take(q as int));
            }
        }
        let n_faces = exterior_face_count(mesh);
        let mut new_to_old: Vec<Option<usize>> = Vec::new();
        let mut f: usize = 0;
        while f < n_faces
            invariant
                f <= n_faces,
                new_to_old.len() == f,
                forall|i: int| 0 <= i < f ==> #[trigger] new_to_old[i] == Some(i as usize),
            decreases n_faces - f,
        {
            new_to_old.push(Some(f));
            f += 1;
        }
        proof {
            assert(tetrahedra@ =~= mesh.tetrahedra@);
            assert(materials@ =~= mesh.tetrahedron_material@);
        }
        PmlExtension {
            lattice: None,
            mesh: TetMesh { n_vertices: mesh.n_vertices, tetrahedra, tetrahedron_material: materials },
            shells,
            face_map: FaceIndexMap { new_to_old },
        }
    }

    /// Extend the cavity mesh `cavity`, a uniform Kuhn brick mesh of
    /// `cavity_cells` bricks whose vertex `v` sits at point `vertex_cells[v]`
    /// of the cavity's vertex grid, by `thickness_cells` brick layers on
    /// every face listed in `pml_faces` (a face listed twice is extended
    /// twice). The extended lattice is meshed brick by brick (x fastest,
    /// then y, then z) with the six Kuhn tetrahedra, each tetrahedron
    /// carries its brick's shell position, every tetrahedron gets material
    /// tag 0, and every exterior face of the extended mesh is mapped to the
    /// cavity exterior face it continues, or to `None` if it is new.
    pub fn extend(
        cavity: &TetMesh,
        vertex_cells: &Vec<(usize, usize, usize)>,
        cavity_cells: (usize, usize, usize),
        pml_faces: &Vec<PmlAxis>,
        thickness_cells: usize,
    ) -> (ext: PmlExtension)
        requires
            extension_fits(cavity_cells, pml_faces@, thickness_cells),
            forall|v: int|
                0 <= v < vertex_cells.len() ==> (#[trigger] vertex_cells[v]).0 <= cavity_cells.0 && vertex_cells[v].1
                    <= cavity_cells.1 && vertex_cells[v].2 <= cavity_cells.2,
            forall|t: int, s: int|
                0 <= t < cavity.tetrahedra.len() && 0 <= s < 4 ==> (#[trigger] cavity.tetrahedra[t][s]) < vertex_cells.len(),
        ensures
            lattice_ok(ext, cavity_cells, pml_faces@, thickness_cells),
            face_map_ok(ext.face_map.new_to_old@, cavity.tetrahedra@, vertex_cells@, ext.lattice->0, ext.mesh.tetrahedra@),
            ext.lattice->0.cells.0 == cavity_cells.0 + thickness_cells * pml_faces@.filter(|b: PmlAxis| b == PmlAxis::XMin).len()
                + thickness_cells * pml_faces@.filter(|b: PmlAxis| b == PmlAxis::XMax).len(),
            ext.lattice->0.cells.1 == cavity_cells.1 + thickness_cells * pml_faces@.filter(|b: PmlAxis| b == PmlAxis::YMin).len()
                + thickness_cells * pml_faces@.filter(|b: PmlAxis| b == PmlAxis::YMax).len(),
            ext.lattice->0.cells.2 == cavity_cells.2 + thickness_cells * pml_faces@.filter(|b: PmlAxis| b == PmlAxis::ZMin).len()
                + thickness_cells * pml_faces@.filter(|b: PmlAxis| b == PmlAxis::ZMax).len(),
            ext.lattice->0.offset.0 == thickness_cells * pml_faces@.filter(|b: PmlAxis| b == PmlAxis::XMin).len(),
            ext.lattice->0.offset.1 == thickness_cells * pml_faces@.filter(|b: PmlAxis| b == PmlAxis::YMin).len(),
            ext.lattice->0.offset.2 == thickness_cells * pml_faces@.filter(|b: PmlAxis| b == PmlAxis::ZMin).len(),
    {
        let base = Self::mesh_lattice(cavity_cells, pml_faces, thickness_cells);
        let lat = base.lattice.unwrap();
        let ghost ctets = cavity.tetrahedra@;
        let ghost cells = vertex_cells@;
        let ghost olds = exterior_face_positions(ctets);
        let old_table = TetEdgeTable::build(cavity);
        let old_faces = ExteriorFaceTable::build(cavity, &old_table);
        let n_old = old_faces.faces.len();
        let mut old_keys: Vec<(usize, usize, usize)> = Vec::new();
        let mut j: usize = 0;
        while j < n_old
            invariant
                n_old == old_faces.faces.len(),
                old_faces.canonical(ctets),
                ctets == cavity.tetrahedra@,
                cells == vertex_cells@,
                olds == exterior_face_positions(ctets),
                lattice_ok(base, cavity_cells, pml_faces@, thickness_cells),
                lat == base.lattice->0,
                forall|v: int|
                    0 <= v < vertex_cells.len() ==> (#[trigger] vertex_cells[v]).0 <= cavity_cells.0 && vertex_cells[v].1
                        <= cavity_cells.1 && vertex_cells[v].2 <= cavity_cells.2,
                forall|t: int, s: int|
                    0 <= t < cavity.tetrahedra.len() && 0 <= s < 4 ==> (#[trigger] cavity.tetrahedra[t][s])
                        < vertex_cells.len(),
                j <= n_old,
                old_keys.len() == j,
                forall|q: int| 0 <= q < j ==> #[trigger] old_keys[q] == image_face_key(ctets, cells, lat, olds[q]),
            decreases n_old - j,
        {
            let face = old_faces.faces[j];
            let ghost sw = Seq::new(olds.len(), |i: int| false);
            proof {
                assert(face_matches(face, ctets, crate::edges::mesh_edges(ctets), sw[j as int]));
                let (l0, l1, l2) = oriented_locals(face.local_face as int, false);
                assert(cavity.tetrahedra[face.tet as int][l0] < vertex_cells.len());
                assert(cavity.tetrahedra[face.tet as int][l1] < vertex_cells.len());
                assert(cavity.tetrahedra[face.tet as int][l2] < vertex_cells.len());
            }
            let v = face.vertices;
            let a = image_vertex_exec(vertex_cells[v[0]], lat);
            let b = image_vertex_exec(vertex_cells[v[1]], lat);
            let c = image_vertex_exec(vertex_cells[v[2]], lat);
            old_keys.push(sort3_exec(a, b, c));
            j += 1;
        }
        let new_table = TetEdgeTable::build(&base.mesh);
        let new_faces = ExteriorFaceTable::build(&base.mesh, &new_table);
        let ghost ntets = base.mesh.tetrahedra@;
        let ghost news = exterior_face_positions(ntets);
        let n_new = new_faces.faces.len();
        let mut map: Vec<Option<usize>> = Vec::new();
        let mut i: usize = 0;
        while i < n_new
            invariant
                n_new == new_faces.faces.len(),
                new_faces.canonical(ntets),
                news == exterior_face_positions(ntets),
                old_keys.len() == olds.len(),
                forall|q: int| 0 <= q < olds.len() ==> #[trigger] old_keys[q] == image_face_key(ctets, cells, lat, olds[q]),
                i <= n_new,
                map.len() == i,
                forall|k: int|
                    0 <= k < i ==> match #[trigger] map[k] {
                        Some(jj) => {
                            &&& jj < olds.len()
                            &&& image_face_key(ctets, cells, lat, olds[jj as int]) == face_key(ntets[news[k].0], news[k].1)
                            &&& forall|q: int|
                                0 <= q < jj ==> image_face_key(ctets, cells, lat, #[trigger] olds[q]) != face_key(
                                    ntets[news[k].0],
                                    news[k].1,
                                )
                        },
                        None => forall|q: int|
                            0 <= q < olds.len() ==> image_face_key(ctets, cells, lat, #[trigger] olds[q]) != face_key(
                                ntets[news[k].0],
                                news[k].1,
                            ),
                    },
            decreases n_new - i,
        {
            let face = new_faces.faces[i];
            let ghost sw = Seq::new(news.len(), |x: int| false);
            proof {
                assert(face_matches(face, ntets, crate::edges::mesh_edges(ntets), sw[i as int]));
            }
            let v = face.vertices;
            let key = sort3_exec(v[0], v[1], v[2]);
            let found = first_match(&old_keys, key);
            let ghost fk = face_key(ntets[news[i as int].0], news[i as int].1);
            proof {
                assert(key == fk);
                match found {
                    Some(jj) => {
                        assert(old_keys[jj as int] == image_face_key(ctets, cells, lat, olds[jj as int]));
                        assert forall|q: int| 0 <= q < jj implies image_face_key(ctets, cells, lat, #[trigger] olds[q]) != fk by {
                            assert(old_keys[q] == image_face_key(ctets, cells, lat, olds[q]));
                        }
                    },
                    None => {
                        assert forall|q: int| 0 <= q < olds.len() implies image_face_key(ctets, cells, lat, #[trigger] olds[q])
                            != fk by {
                            assert(old_keys[q] == image_face_key(ctets, cells, lat, olds[q]));
                        }
                    },
                }
            }
            let ghost before = map@;
            map.push(found);
            proof {
                assert forall|k: int| 0 <= k < i implies #[trigger] map[k] == before[k] by {}
            }
            i += 1;
        }
        let PmlExtension { lattice, mesh, shells, face_map: _ } = base;
        let ext = PmlExtension { lattice, mesh, shells, face_map: FaceIndexMap { new_to_old: map } };
        proof {
            assert(ext.shells@ == base.shells@);
            assert forall|ii: int, jj: int, kk: int, m: int| #[trigger] shell_of(ext, ii, jj, kk, m) == shell_of(base, ii, jj, kk, m) by {}
            lemma_extension_layers(ext, cavity_cells, pml_faces@, thickness_cells);
        }
        ext
    }

    /// The Kuhn mesh of a uniform box of `cells` bricks: bricks in order
    /// (x fastest, then y, then z), six Kuhn tetrahedra each, material tag 0.
    pub fn kuhn_brick_mesh(cells: (usize, usize, usize)) -> (m: TetMesh)
        requires
            grid_vertices(cells) <= usize::MAX,
            6 * (cells.0 * cells.1 * cells.2) <= usize::MAX,
        ensures
            kuhn_mesh_ok(m, cells),
    {
        let no_faces: Vec<PmlAxis> = Vec::new();
        proof {
            assert forall|d: int| 0 <= d < 3 implies #[trigger] ext_cells(cells, no_faces@, 0, d) == pick(cells, d) by {
                assert(layers(no_faces@, 0, d).0 == 0 && layers(no_faces@, 0, d).1 == 0);
            }
            assert(ext_cells(cells, no_faces@, 0, 0) == cells.0);
            assert(ext_cells(cells, no_faces@, 0, 1) == cells.1);
            assert(ext_cells(cells, no_faces@, 0, 2) == cells.2);
        }
        let ext = Self::mesh_lattice(cells, &no_faces, 0);
        proof {
            let c = ext.lattice->0.cells;
            assert(pick(c, 0) == cells.0 && pick(c, 1) == cells.1 && pick(c, 2) == cells.2);
            assert(c == cells);
        }
        ext.mesh
    }

    /// Extended lattice, Kuhn mesh and shells; the face map is left empty.
    fn mesh_lattice(cavity_cells: (usize, usize, usize), pml_faces: &Vec<PmlAxis>, thickness_cells: usize) -> (ext: PmlExtension)
        requires
            extension_fits(cavity_cells, pml_faces@, thickness_cells),
        ensures
            lattice_ok(ext, cavity_cells, pml_faces@, thickness_cells),
    {
        let ghost faces = pml_faces@;
        let ghost tk = thickness_cells;
        let cx0 = count_face(pml_faces, PmlAxis::XMin);
        let cx1 = count_face(pml_faces, PmlAxis::XMax);
        let cy0 = count_face(pml_faces, PmlAxis::YMin);
        let cy1 = count_face(pml_faces, PmlAxis::YMax);
        let cz0 = count_face(pml_faces, PmlAxis::ZMin);
        let cz1 = count_face(pml_faces, PmlAxis::ZMax);
        let ghost e0 = ext_cells(cavity_cells, faces, tk, 0);
        let ghost e1 = ext_cells(cavity_cells, faces, tk, 1);
        let ghost e2 = ext_cells(cavity_cells, faces, tk, 2);
        proof {
            assert(e0 >= 0 && e1 >= 0 && e2 >= 0) by (nonlinear_arith)
                requires
                    e0 == cavity_cells.0 + tk * cx0 + tk * cx1,
                    e1 == cavity_cells.1 + tk * cy0 + tk * cy1,
                    e2 == cavity_cells.2 + tk * cz0 + tk * cz1,
                    tk >= 0, cx0 >= 0, cx1 >= 0, cy0 >= 0, cy1 >= 0, cz0 >= 0, cz1 >= 0,
                    cavity_cells.0 >= 0, cavity_cells.1 >= 0, cavity_cells.2 >= 0,
            ;
            assert(e0 + 1 <= usize::MAX && e1 + 1 <= usize::MAX && e2 + 1 <= usize::MAX) by (nonlinear_arith)
                requires
                    (e0 + 1) * (e1 + 1) * (e2 + 1) <= usize::MAX,
                    e0 >= 0,
                    e1 >= 0,
                    e2 >= 0,
            ;
            assert(tk * cx0 >= 0 && tk * cx1 >= 0 && tk * cy0 >= 0 && tk * cy1 >= 0 && tk * cz0 >= 0 && tk * cz1 >= 0)
                by (nonlinear_arith)
                requires
                    tk >= 0, cx0 >= 0, cx1 >= 0, cy0 >= 0, cy1 >= 0, cz0 >= 0, cz1 >= 0,
            ;
        }
        let nx0 = thickness_cells * cx0;
        let nx1 = thickness_cells * cx1;
        let ny0 = thickness_cells * cy0;
        let ny1 = thickness_cells * cy1;
        let nz0 = thickness_cells * cz0;
        let nz1 = thickness_cells * cz1;
        let c0 = cavity_cells.0 + nx0 + nx1;
        let c1 = cavity_cells.1 + ny0 + ny1;
        let c2 = cavity_cells.2 + nz0 + nz1;
        let g0 = c0 + 1;
        let g1 = c1 + 1;
        let g2 = c2 + 1;
        proof {
            assert(g0 * g1 <= usize::MAX && g0 * g1 * g2 <= usize::MAX) by (nonlinear_arith)
                requires
                    g0 * g1 * g2 <= usize::MAX,
                    g0 >= 1,
                    g1 >= 1,
                    g2 >= 1,
            ;
        }
        let layer = g0 * g1;
        let n_vertices = layer * g2;
        let lat = PmlLattice { cells: (c0, c1, c2), offset: (nx0, ny0, nz0), cavity: cavity_cells };
        let ghost g: (usize, usize, usize) = (g0, g1, g2);
        let ghost cc: (usize, usize, usize) = (c0, c1, c2);
        assert(g == grid_of(lat));
        let mut tetrahedra: Vec<[usize; 4]> = Vec::new();
        let mut shells: Vec<PmlShell> = Vec::new();
        let mut materials: Vec<u32> = Vec::new();
        let ghost mut b: int = 0;
        let mut k: usize = 0;
        while k < c2
            invariant
                0 <= k <= c2,
                g0 == c0 + 1, g1 == c1 + 1, g2 == c2 + 1,
                layer == g0 * g1,
                n_vertices == g0 * g1 * g2,
                g == grid_of(lat),
                g == (g0, g1, g2),
                cc == (c0, c1, c2),
                cc == lat.cells,
                lat.cells == (c0, c1, c2),
                lat.offset == (nx0, ny0, nz0),
                lat.cavity == cavity_cells,
                nx0 + cavity_cells.0 <= c0, ny0 + cavity_cells.1 <= c1, nz0 + cavity_cells.2 <= c2,
                6 * (c0 * c1 * c2) <= usize::MAX,
                b == 0 + c0 * 0 + c0 * c1 * k,
                tetrahedra.len() == 6 * b,
                shells.len() == 6 * b,
                materials.len() == 6 * b,
                forall|t: int| 0 <= t < materials.len() ==> #[trigger] materials[t] == 0,
                forall|t: int, s: int| 0 <= t < tetrahedra.len() && 0 <= s < 4 ==> (#[trigger] tetrahedra[t][s]) < n_vertices,
                forall|i: int, j: int, kk: int, m: int|
                    0 <= i < c0 && 0 <= j < c1 && 0 <= kk < c2 && 0 <= m < 6 && brick_index(cc, i, j, kk) < b ==> {
                        &&& kuhn_tet_ok(#[trigger] tetrahedra[6 * brick_index(cc, i, j, kk) + m], g, i, j, kk, m)
                        &&& shells[6 * brick_index(cc, i, j, kk) + m] == brick_shell(lat, i, j, kk)
                    },
            decreases c2 - k,
        {
            let mut j: usize = 0;
            while j < c1
                invariant
                    0 <= k < c2,
                    0 <= j <= c1,
                    g0 == c0 + 1, g1 == c1 + 1, g2 == c2 + 1,
                    layer == g0 * g1,
                    n_vertices == g0 * g1 * g2,
                    g == grid_of(lat),
                    g == (g0, g1, g2),
                    cc == (c0, c1, c2),
                g == (g0, g1, g2),
                cc == (c0, c1, c2),
                    cc == lat.cells,
                    lat.cells == (c0, c1, c2),
                    lat.offset == (nx0, ny0, nz0),
                    lat.cavity == cavity_cells,
                    nx0 + cavity_cells.0 <= c0, ny0 + cavity_cells.1 <= c1, nz0 + cavity_cells.2 <= c2,
                    6 * (c0 * c1 * c2) <= usize::MAX,
                    b == 0 + c0 * j + c0 * c1 * k,
                    tetrahedra.len() == 6 * b,
                    shells.len() == 6 * b,
                    materials.len() == 6 * b,
                    forall|t: int| 0 <= t < materials.len() ==> #[trigger] materials[t] == 0,
                    forall|t: int, s: int| 0 <= t < tetrahedra.len() && 0 <= s < 4 ==> (#[trigger] tetrahedra[t][s]) < n_vertices,
                    forall|i: int, jj: int, kk: int, m: int|
                        0 <= i < c0 && 0 <= jj < c1 && 0 <= kk < c2 && 0 <= m < 6 && brick_index(cc, i, jj, kk) < b ==> {
                            &&& kuhn_tet_ok(#[trigger] tetrahedra[6 * brick_index(cc, i, jj, kk) + m], g, i, jj, kk, m)
                            &&& shells[6 * brick_index(cc, i, jj, kk) + m] == brick_shell(lat, i, jj, kk)
                        },
                decreases c1 - j,
            {
                let mut i: usize = 0;
                while i < c0
                    invariant
                        0 <= k < c2,
                        0 <= j < c1,
                        0 <= i <= c0,
                        g0 == c0 + 1, g1 == c1 + 1, g2 == c2 + 1,
                        layer == g0 * g1,
                        n_vertices == g0 * g1 * g2,
                        g == grid_of(lat),
                        g == (g0, g1, g2),
                        cc == (c0, c1, c2),
                    g == (g0, g1, g2),
                    cc == (c0, c1, c2),
                g == (g0, g1, g2),
                cc == (c0, c1, c2),
                        cc == lat.cells,
                        lat.cells == (c0, c1, c2),
                        lat.offset == (nx0, ny0, nz0),
                        lat.cavity == cavity_cells,
                        nx0 + cavity_cells.0 <= c0, ny0 + cavity_cells.1 <= c1, nz0 + cavity_cells.2 <= c2,
                        6 * (c0 * c1 * c2) <= usize::MAX,
                        b == i + c0 * j + c0 * c1 * k,
                        tetrahedra.len() == 6 * b,
                        shells.len() == 6 * b,
                        materials.len() == 6 * b,
                        forall|t: int| 0 <= t < materials.len() ==> #[trigger] materials[t] == 0,
                        forall|t: int, s: int| 0 <= t < tetrahedra.len() && 0 <= s < 4 ==> (#[trigger] tetrahedra[t][s]) < n_vertices,
                        forall|ii: int, jj: int, kk: int, m: int|
                            0 <= ii < c0 && 0 <= jj < c1 && 0 <= kk < c2 && 0 <= m < 6 && brick_index(cc, ii, jj, kk) < b ==> {
                                &&& kuhn_tet_ok(#[trigger] tetrahedra[6 * brick_index(cc, ii, jj, kk) + m], g, ii, jj, kk, m)
                                &&& shells[6 * brick_index(cc, ii, jj, kk) + m] == brick_shell(lat, ii, jj, kk)
                            },
                    decreases c0 - i,
                {
                    proof {
                        lemma_index_bound(c0 as int, c1 as int, c2 as int, i as int, j as int, k as int);
                    }
                    let shell = PmlShell {
                        x: shell_axis_exec(i, nx0, cavity_cells.0),
                        y: shell_axis_exec(j, ny0, cavity_cells.1),
                        z: shell_axis_exec(k, nz0, cavity_cells.2),
                    };
                    let ghost before_tets = tetrahedra@;
                    let ghost before_shells = shells@;
                    let mut m: usize = 0;
                    while m < 6
                        invariant
                            0 <= k < c2,
                            0 <= j < c1,
                            0 <= i < c0,
                            0 <= m <= 6,
                            g0 == c0 + 1, g1 == c1 + 1, g2 == c2 + 1,
                            layer == g0 * g1,
                            n_vertices == g0 * g1 * g2,
                            g == grid_of(lat),
                            g == (g0, g1, g2),
                            cc == (c0, c1, c2),
                        g == (g0, g1, g2),
                        cc == (c0, c1, c2),
                    g == (g0, g1, g2),
                    cc == (c0, c1, c2),
                g == (g0, g1, g2),
                cc == (c0, c1, c2),
                            b == i + c0 * j + c0 * c1 * k,
                            b < c0 * c1 * c2,
                            6 * (c0 * c1 * c2) <= usize::MAX,
                            shell == brick_shell(lat, i as int, j as int, k as int),
                            tetrahedra.len() == 6 * b + m,
                            shells.len() == 6 * b + m,
                            materials.len() == 6 * b + m,
                            forall|t: int| 0 <= t < materials.len() ==> #[trigger] materials[t] == 0,
                            tetrahedra@.take(6 * b) == before_tets,
                            shells@.take(6 * b) == before_shells,
                            forall|t: int, s: int| 0 <= t < tetrahedra.len() && 0 <= s < 4 ==> (#[trigger] tetrahedra[t][s]) < n_vertices,
                            forall|mm: int| 0 <= mm < m ==> {
                                &&& kuhn_tet_ok(#[trigger] tetrahedra[6 * b + mm], g, i as int, j as int, k as int, mm)
                                &&& shells[6 * b + mm] == shell
                            },
                        decreases 6 - m,
                    {
                        let mut tet: [usize; 4] = [0; 4];
                        let mut s: usize = 0;
                        while s < 4
                            invariant
                                0 <= k < c2,
                                0 <= j < c1,
                                0 <= i < c0,
                                m < 6,
                                s <= 4,
                                g0 == c0 + 1, g1 == c1 + 1, g2 == c2 + 1,
                                layer == g0 * g1,
                                n_vertices == g0 * g1 * g2,
                                g == grid_of(lat),
                            g == (g0, g1, g2),
                            cc == (c0, c1, c2),
                        g == (g0, g1, g2),
                        cc == (c0, c1, c2),
                    g == (g0, g1, g2),
                    cc == (c0, c1, c2),
                g == (g0, g1, g2),
                cc == (c0, c1, c2),
                                g == (g0, g1, g2),
                                forall|ss: int| 0 <= ss < s ==> {
                                    &&& (#[trigger] tet[ss]) == kuhn_vertex(g, i as int, j as int, k as int, m as int, ss)
                                    &&& tet[ss] < n_vertices
                                },
                            decreases 4 - s,
                        {
                            let c = kuhn_corner_exec(m, s);
                            let dx = c % 2;
                            let dy = (c / 2) % 2;
                            let dz = c / 4;
                            let x = i + dx;
                            let y = j + dy;
                            let z = k + dz;
                            proof {
                                assert(dx <= 1 && dy <= 1 && dz <= 1);
                                lemma_index_bound(g0 as int, g1 as int, g2 as int, x as int, y as int, z as int);
                                assert(g0 * y <= layer);
                            }
                            let v = x + g0 * y + layer * z;
                            tet[s] = v;
                            s += 1;
                        }
                        assert(tet[0] == kuhn_vertex(g, i as int, j as int, k as int, m as int, 0));
                        assert(tet[1] == kuhn_vertex(g, i as int, j as int, k as int, m as int, 1));
                        assert(tet[2] == kuhn_vertex(g, i as int, j as int, k as int, m as int, 2));
                        assert(tet[3] == kuhn_vertex(g, i as int, j as int, k as int, m as int, 3));
                        assert(kuhn_tet_ok(tet, g, i as int, j as int, k as int, m as int));
                        let ghost pre_tets = tetrahedra@;
                        let ghost pre_shells = shells@;
                        tetrahedra.push(tet);
                        shells.push(shell);
                        materials.push(0);
                        m += 1;
                        proof {
                            assert forall|mm: int| 0 <= mm < m implies {
                                &&& kuhn_tet_ok(#[trigger] tetrahedra[6 * b + mm], g, i as int, j as int, k as int, mm)
                                &&& shells[6 * b + mm] == shell
                            } by {
                                if mm == m - 1 {
                                    assert(tetrahedra[6 * b + mm] == tet);
                                } else {
                                    assert(tetrahedra[6 * b + mm] == pre_tets[6 * b + mm]);
                                    assert(shells[6 * b + mm] == pre_shells[6 * b + mm]);
                                }
                            }
                            assert(tetrahedra@.take(6 * b) =~= before_tets);
                            assert(shells@.take(6 * b) =~= before_shells);
                        }
                    }
                    proof {
                        let bb = b;
                        assert forall|ii: int, jj: int, kk: int, mm: int|
                            0 <= ii < c0 && 0 <= jj < c1 && 0 <= kk < c2 && 0 <= mm < 6 && brick_index(cc, ii, jj, kk) < bb + 1 implies {
                                &&& kuhn_tet_ok(#[trigger] tetrahedra[6 * brick_index(cc, ii, jj, kk) + mm], g, ii, jj, kk, mm)
                                &&& shells[6 * brick_index(cc, ii, jj, kk) + mm] == brick_shell(lat, ii, jj, kk)
                            } by {
                            let q = brick_index(cc, ii, jj, kk);
                            lemma_index_bound(c0 as int, c1 as int, c2 as int, ii, jj, kk);
                            if q < bb {
                                assert(6 * q + mm < 6 * bb);
                                assert(tetrahedra[6 * q + mm] == before_tets[6 * q + mm]);
                                assert(shells[6 * q + mm] == before_shells[6 * q + mm]);
                            } else {
                                lemma_index_injective(c0 as int, c1 as int, ii, jj, kk, i as int, j as int, k as int);
                            }
                        }
                        b = b + 1;
                    }
                    i += 1;
                }
                proof {
                    lemma_index_step_j(c0 as int, c1 as int, j as int, k as int);
                }
                j += 1;
            }
            proof {
                lemma_index_step_k(c0 as int, c1 as int, k as int);
            }
            k += 1;
        }
        proof {
            assert(c0 * 0 == 0) by (nonlinear_arith);
            assert(b == c0 * c1 * c2);
        }
        let ext = PmlExtension {
            lattice: Some(lat),
            mesh: TetMesh { n_vertices, tetrahedra, tetrahedron_material: materials },
            shells,
            face_map: FaceIndexMap { new_to_old: Vec::new() },
        };
        proof {
            let c = ext.lattice->0.cells;
            assert(c == cc);
            assert(ext.mesh.tetrahedra.len() == 6 * (c.0 * c.1 * c.2));
            assert(ext.mesh.n_vertices == grid_vertices(c));
            assert forall|d: int| 0 <= d < 3 implies #[trigger] pick(c, d) == ext_cells(cavity_cells, pml_faces@, thickness_cells, d) by {}
            assert forall|d: int| 0 <= d < 3 implies #[trigger] pick(lat.offset, d) == layers(pml_faces@, thickness_cells, d).0 by {}
            assert forall|i: int, j: int, k: int, m: int|
                0 <= i < c.0 && 0 <= j < c.1 && 0 <= k < c.2 && 0 <= m < 6 implies kuhn_tet_ok(
                    #[trigger] brick_tet(ext.mesh, c, i, j, k, m),
                    grid_size(c),
                    i,
                    j,
                    k,
                    m,
                ) by {
                lemma_index_bound(c0 as int, c1 as int, c2 as int, i, j, k);
                assert(brick_tet(ext.mesh, c, i, j, k, m) == tetrahedra[6 * brick_index(cc, i, j, k) + m]);
            }
            assert forall|i: int, j: int, k: int, m: int|
                0 <= i < c.0 && 0 <= j < c.1 && 0 <= k < c.2 && 0 <= m < 6 implies #[trigger] shell_of(ext, i, j, k, m)
                    == brick_shell(lat, i, j, k) by {
                lemma_index_bound(c0 as int, c1 as int, c2 as int, i, j, k);
                assert(tetrahedra[6 * brick_index(cc, i, j, k) + m] == tetrahedra[6 * brick_index(cc, i, j, k) + m]);
            }
            assert(kuhn_mesh_ok(ext.mesh, c));
        }
        ext
    }
}

} // verus!
