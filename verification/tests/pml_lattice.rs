use yee_fem::{
    exterior_face_count, pml_plan, ExteriorFaceTable, PmlAxis, PmlError, PmlExtension, PmlPlan,
    PmlShell, TetEdgeTable, TetMesh,
};

/// A cavity of `c` bricks and the grid point of each of its vertices.
fn cavity(c: (usize, usize, usize)) -> (TetMesh, Vec<(usize, usize, usize)>) {
    let mesh = PmlExtension::kuhn_brick_mesh(c);
    let (g0, g1) = (c.0 + 1, c.1 + 1);
    let cells = (0..mesh.n_vertices).map(|v| (v % g0, (v / g0) % g1, v / (g0 * g1))).collect();
    (mesh, cells)
}

fn extend(c: (usize, usize, usize), faces: &[PmlAxis], t: usize) -> PmlExtension {
    let (mesh, cells) = cavity(c);
    PmlExtension::extend(&mesh, &cells, c, &faces.to_vec(), t)
}

/// Sorted vertex triple of every exterior face, in walk order.
fn exterior_keys(mesh: &TetMesh) -> Vec<[usize; 3]> {
    let table = TetEdgeTable::build(mesh);
    ExteriorFaceTable::build(mesh, &table)
        .faces
        .iter()
        .map(|f| {
            let mut k = f.vertices;
            k.sort();
            k
        })
        .collect()
}

fn shell(x: Option<usize>, y: Option<usize>, z: Option<usize>) -> PmlShell {
    PmlShell { x, y, z }
}

#[test]
fn axis_and_sign_of_every_face() {
    assert_eq!(PmlAxis::XMin.axis_and_sign(), (0, -1));
    assert_eq!(PmlAxis::XMax.axis_and_sign(), (0, 1));
    assert_eq!(PmlAxis::YMin.axis_and_sign(), (1, -1));
    assert_eq!(PmlAxis::YMax.axis_and_sign(), (1, 1));
    assert_eq!(PmlAxis::ZMin.axis_and_sign(), (2, -1));
    assert_eq!(PmlAxis::ZMax.axis_and_sign(), (2, 1));
}

#[test]
fn plan_refuses_empty_face_list_and_skips_zero_thickness() {
    assert_eq!(pml_plan(&vec![], 2), Err(PmlError::EmptyFaces));
    assert_eq!(pml_plan(&vec![], 0), Err(PmlError::EmptyFaces));
    assert_eq!(pml_plan(&vec![PmlAxis::XMax], 0), Ok(PmlPlan::Unchanged));
    assert_eq!(pml_plan(&vec![PmlAxis::XMax, PmlAxis::ZMin], 3), Ok(PmlPlan::Extend));
}

#[test]
fn shell_is_interior_only_inside_the_cavity() {
    assert!(shell(None, None, None).is_interior());
    assert!(!shell(Some(0), None, None).is_interior());
    assert!(!shell(None, Some(2), None).is_interior());
    assert!(!shell(None, None, Some(1)).is_interior());
}

#[test]
fn zero_thickness_keeps_the_mesh() {
    let mesh = TetMesh {
        n_vertices: 5,
        tetrahedra: vec![[0, 1, 2, 3], [0, 1, 2, 4]],
        tetrahedron_material: vec![3, 4],
    };
    let ext = PmlExtension::unchanged(&mesh);
    assert!(ext.lattice.is_none());
    assert_eq!(ext.mesh.n_vertices, 5);
    assert_eq!(ext.mesh.tetrahedra, mesh.tetrahedra);
    assert_eq!(ext.shells, vec![shell(None, None, None); 2]);
    assert!(ext.shells.iter().all(|s| s.is_interior()));
    // Two tets sharing one face have six exterior faces, each its own image.
    assert_eq!(ext.face_map.new_to_old, (0..6).map(Some).collect::<Vec<Option<usize>>>());
}

#[test]
fn one_layer_on_xmax_doubles_a_single_brick() {
    let ext = extend((1, 1, 1), &[PmlAxis::XMax], 1);
    let lat = ext.lattice.unwrap();
    assert_eq!(lat.cells, (2, 1, 1));
    assert_eq!(lat.offset, (0, 0, 0));
    assert_eq!(lat.cavity, (1, 1, 1));
    assert_eq!(ext.mesh.n_vertices, 12);
    assert_eq!(ext.mesh.tetrahedra.len(), 12);
    // Brick (0,0,0), Kuhn tet [0,1,3,7] on a 3x2x2 vertex grid.
    assert_eq!(ext.mesh.tetrahedra[0], [0, 1, 4, 10]);
    // Brick (1,0,0), Kuhn tet [0,4,6,7].
    assert_eq!(ext.mesh.tetrahedra[11], [1, 7, 10, 11]);
    for t in 0..6 {
        assert_eq!(ext.shells[t], shell(None, None, None));
    }
    for t in 6..12 {
        assert_eq!(ext.shells[t], shell(Some(0), None, None));
    }
    assert!(ext.mesh.tetrahedron_material.iter().all(|&m| m == 0));
    // The 2x1x1 box has 20 exterior faces; the 10 cavity faces off x = 1
    // keep their place, the rest are new.
    assert_eq!(ext.face_map.new_to_old.len(), 20);
    assert_eq!(exterior_face_count(&ext.mesh), 20);
    let mapped: Vec<usize> = ext.face_map.new_to_old.iter().flatten().copied().collect();
    assert_eq!(mapped.len(), 10);
}

#[test]
fn negative_side_layers_shift_the_cavity() {
    let ext = extend((1, 1, 1), &[PmlAxis::YMin], 2);
    let lat = ext.lattice.unwrap();
    assert_eq!(lat.cells, (1, 3, 1));
    assert_eq!(lat.offset, (0, 2, 0));
    assert_eq!(ext.mesh.n_vertices, 2 * 4 * 2);
    assert_eq!(ext.mesh.tetrahedra.len(), 18);
    // Bricks j = 0, 1 lie 1 and 0 cells into the y shell; j = 2 is the cavity.
    assert_eq!(ext.shells[0], shell(None, Some(1), None));
    assert_eq!(ext.shells[6], shell(None, Some(0), None));
    assert_eq!(ext.shells[12], shell(None, None, None));
    // Six interior tetrahedra: those of the one cavity brick.
    assert_eq!(ext.shells.iter().filter(|s| s.is_interior()).count(), 6);
}

#[test]
fn every_face_extends_into_a_full_shell() {
    let faces = vec![
        PmlAxis::XMin,
        PmlAxis::XMax,
        PmlAxis::YMin,
        PmlAxis::YMax,
        PmlAxis::ZMin,
        PmlAxis::ZMax,
    ];
    let ext = extend((2, 1, 1), &faces, 1);
    let lat = ext.lattice.unwrap();
    assert_eq!(lat.cells, (4, 3, 3));
    assert_eq!(lat.offset, (1, 1, 1));
    assert_eq!(ext.mesh.tetrahedra.len(), 6 * 36);
    let interior = ext.shells.iter().filter(|s| s.is_interior()).count();
    assert_eq!(interior, 6 * 2);
    let n = ext.mesh.n_vertices;
    assert!(ext.mesh.tetrahedra.iter().all(|t| t.iter().all(|&v| v < n)));
    // Corner brick (0,0,0) is one cell deep into all three shells.
    assert_eq!(ext.shells[0], shell(Some(0), Some(0), Some(0)));
}

#[test]
fn face_map_sends_each_kept_face_to_its_cavity_face() {
    let c = (2, 1, 1);
    let (mesh, cells) = cavity(c);
    let faces = vec![PmlAxis::XMin, PmlAxis::ZMax];
    let ext = PmlExtension::extend(&mesh, &cells, c, &faces, 2);
    let lat = ext.lattice.unwrap();
    let g = (lat.cells.0 + 1, lat.cells.1 + 1);
    let image = |v: usize| {
        let p = cells[v];
        (p.0 + lat.offset.0) + g.0 * (p.1 + lat.offset.1) + g.0 * g.1 * (p.2 + lat.offset.2)
    };
    let old_keys = exterior_keys(&mesh);
    let new_keys = exterior_keys(&ext.mesh);
    assert_eq!(ext.face_map.new_to_old.len(), new_keys.len());
    let mut hit = vec![false; old_keys.len()];
    for (i, entry) in ext.face_map.new_to_old.iter().enumerate() {
        let matches: Vec<usize> = (0..old_keys.len())
            .filter(|&j| {
                let mut k = old_keys[j].map(image);
                k.sort();
                k == new_keys[i]
            })
            .collect();
        assert_eq!(*entry, matches.first().copied());
        if let Some(j) = entry {
            hit[*j] = true;
        }
    }
    // Cavity faces on x = 0 and z = 1 are covered by the shells; the
    // other faces all survive.
    let covered = old_keys
        .iter()
        .filter(|k| k.iter().all(|&v| cells[v].0 == 0) || k.iter().all(|&v| cells[v].2 == 1))
        .count();
    assert_eq!(hit.iter().filter(|&&h| h).count(), old_keys.len() - covered);
}
