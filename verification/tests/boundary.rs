use std::collections::HashSet;

use yee_fem::{
    select_driving_mode, BoundaryError, BoundaryTopology, DrivingModeError, FaceKind, RhsEntry,
    ScatterEntry, TetMesh,
};

fn mesh_of(n_vertices: usize, tets: Vec<[usize; 4]>) -> TetMesh {
    let n = tets.len();
    TetMesh { n_vertices, tetrahedra: tets, tetrahedron_material: vec![0; n] }
}

fn two_tets() -> TetMesh {
    mesh_of(5, vec![[0, 1, 2, 3], [0, 1, 2, 4]])
}

fn set(items: &[usize]) -> HashSet<usize> {
    items.iter().copied().collect()
}

fn topology(mesh: &TetMesh, kinds: Vec<FaceKind>, n_ports: usize) -> BoundaryTopology {
    let swap = vec![false; kinds.len()];
    match BoundaryTopology::new(mesh, &swap, kinds, n_ports) {
        Ok(t) => t,
        Err(e) => panic!("unexpected {e:?}"),
    }
}

#[test]
fn empty_mesh_is_refused() {
    let r = BoundaryTopology::new(&mesh_of(0, vec![]), &vec![], vec![], 0);
    assert!(matches!(r, Err(BoundaryError::EmptyMesh)));
}

#[test]
fn wrong_number_of_face_tags_is_refused() {
    let r = BoundaryTopology::new(&two_tets(), &vec![false; 6], vec![FaceKind::Pec; 5], 0);
    assert!(matches!(r, Err(BoundaryError::FaceKindCount { expected: 6, got: 5 })));
}

#[test]
fn first_out_of_range_port_is_reported() {
    let kinds = vec![
        FaceKind::Abc,
        FaceKind::WavePort(1),
        FaceKind::Pec,
        FaceKind::WavePort(2),
        FaceKind::Abc,
        FaceKind::WavePort(5),
    ];
    let r = BoundaryTopology::new(&two_tets(), &vec![false; 6], kinds, 2);
    assert!(matches!(
        r,
        Err(BoundaryError::PortOutOfRange { face: 3, port: 2, n_ports: 2 })
    ));
}

#[test]
fn all_pec_tagging_eliminates_every_boundary_edge() {
    let mesh = two_tets();
    let topo = topology(&mesh, vec![FaceKind::Pec; 6], 0);
    assert_eq!(topo.n_exterior_faces(), 6);
    assert_eq!(*topo.pec_global_edges(), (0..9).collect::<HashSet<usize>>());
    let table = topo.edge_table();
    let boundary: HashSet<usize> = (0..table.edges.len()).filter(|&e| table.is_boundary[e]).collect();
    assert_eq!(*topo.pec_global_edges(), boundary);
    assert_eq!(topo.total_global_edge_count(), 9);
}

#[test]
fn pec_set_holds_the_edges_of_pec_faces_only() {
    let kinds = vec![
        FaceKind::Pec,
        FaceKind::Abc,
        FaceKind::Abc,
        FaceKind::WavePort(0),
        FaceKind::Abc,
        FaceKind::Abc,
    ];
    let topo = topology(&two_tets(), kinds.clone(), 1);
    // Face 0 is (1, 2, 3): edges (1,2)=3, (2,3)=5, (3,1)=4.
    assert_eq!(*topo.pec_global_edges(), set(&[3, 4, 5]));
    assert_eq!(*topo.face_kinds(), kinds);
    assert_eq!(topo.n_ports(), 1);
    assert_eq!(topo.exterior_faces().faces.len(), 6);
}

#[test]
fn no_pec_face_gives_an_empty_pec_set() {
    let topo = topology(&two_tets(), vec![FaceKind::Abc; 6], 0);
    assert!(topo.pec_global_edges().is_empty());
}

#[test]
fn interior_pec_edges_are_unioned_and_idempotent() {
    let mut kinds = vec![FaceKind::Abc; 6];
    kinds[0] = FaceKind::Pec;
    let topo = topology(&two_tets(), kinds, 0);
    let once = topo.with_interior_pec_edges(vec![7, 3]);
    assert_eq!(*once.pec_global_edges(), set(&[3, 4, 5, 7]));
    let twice = once.with_interior_pec_edges(vec![7, 3]);
    assert_eq!(*twice.pec_global_edges(), set(&[3, 4, 5, 7]));
    let unchanged = twice.with_interior_pec_edges(vec![]);
    assert_eq!(*unchanged.pec_global_edges(), set(&[3, 4, 5, 7]));
}

#[test]
fn single_tet_edge_count_is_six() {
    let topo = topology(&mesh_of(4, vec![[0, 1, 2, 3]]), vec![FaceKind::Abc; 4], 0);
    assert_eq!(topo.total_global_edge_count(), 6);
}

#[test]
fn unique_driving_mode_is_selected() {
    assert_eq!(select_driving_mode(&vec![false, true, false], 2), Ok(1));
    assert_eq!(select_driving_mode(&vec![true], 0), Ok(0));
}

#[test]
fn no_driving_mode_is_an_error() {
    assert_eq!(
        select_driving_mode(&vec![false, false], 2),
        Err(DrivingModeError::NoDrivingMode { port: 2 })
    );
    assert_eq!(
        select_driving_mode(&vec![], 4),
        Err(DrivingModeError::NoDrivingMode { port: 4 })
    );
}

#[test]
fn two_driving_modes_are_an_error() {
    assert_eq!(
        select_driving_mode(&vec![true, false, true], 1),
        Err(DrivingModeError::MultipleDrivingModes { port: 1 })
    );
}

#[test]
fn outward_swap_reorients_faces() {
    let mesh = two_tets();
    let mut swap = vec![false; 6];
    swap[0] = true;
    let topo = match BoundaryTopology::new(&mesh, &swap, vec![FaceKind::Abc; 6], 0) {
        Ok(t) => t,
        Err(e) => panic!("unexpected {e:?}"),
    };
    let f = topo.exterior_faces().faces[0];
    assert_eq!(f.vertices, [1, 3, 2]);
    assert_eq!(f.global_edges, [4, 5, 3]);
    assert_eq!(f.signs, [1, -1, -1]);
    assert_eq!(topo.exterior_faces().faces[1].vertices, [0, 2, 3]);
}

fn entry(row: usize, col: usize, i: usize, j: usize, sign: i8) -> ScatterEntry {
    ScatterEntry { row, col, i, j, sign }
}

#[test]
fn driven_plan_scatters_non_pec_faces_only() {
    let mesh = two_tets();
    let kinds = vec![
        FaceKind::Pec,
        FaceKind::Abc,
        FaceKind::Abc,
        FaceKind::WavePort(0),
        FaceKind::Abc,
        FaceKind::Abc,
    ];
    let topo = topology(&mesh, kinds, 1);
    let plan = topo.driven_plan(&mesh);
    assert_eq!(plan.assembly.lift.interior_edges, vec![0, 1, 2, 6, 7, 8]);
    assert_eq!(
        plan.dof_of_edge,
        vec![Some(0), Some(1), Some(2), None, None, None, Some(3), Some(4), Some(5)]
    );
    // The PEC face contributes nothing.
    assert!(plan.face_blocks[0].is_empty());
    assert!(plan.face_rhs[0].is_empty());
    // Absorbing face (0, 2, 3): edges [1, 5, 2], signs [1, 1, -1]; edge 5 is PEC.
    assert_eq!(
        plan.face_blocks[1],
        vec![entry(1, 1, 0, 0, 1), entry(1, 2, 0, 2, -1), entry(2, 1, 2, 0, -1), entry(2, 2, 2, 2, 1)]
    );
    assert!(plan.face_rhs[1].is_empty());
    // Wave-port face (1, 2, 4): edges [3, 8, 7], signs [1, 1, -1]; edge 3 is PEC.
    assert_eq!(
        plan.face_blocks[3],
        vec![entry(5, 5, 1, 1, 1), entry(5, 4, 1, 2, -1), entry(4, 5, 2, 1, -1), entry(4, 4, 2, 2, 1)]
    );
    assert_eq!(
        plan.face_rhs[3],
        vec![RhsEntry { row: 5, i: 1, sign: 1 }, RhsEntry { row: 4, i: 2, sign: -1 }]
    );
    // Every tet block skips the PEC edges 3, 4, 5.
    assert_eq!(plan.assembly.tet_plans.len(), 2);
    assert_eq!(plan.assembly.tet_plans[0].len(), 9);
    assert_eq!(plan.assembly.tet_plans[1].len(), 25);
}

#[test]
fn driven_plan_with_interior_pec_drops_those_edges() {
    let mesh = two_tets();
    let topo = topology(&mesh, vec![FaceKind::Abc; 6], 0).with_interior_pec_edges(vec![8]);
    let plan = topo.driven_plan(&mesh);
    assert_eq!(plan.assembly.lift.interior_edges, (0..8).collect::<Vec<usize>>());
    assert_eq!(plan.dof_of_edge[8], None);
    assert!(plan.face_blocks.iter().all(|b| !b.is_empty()));
    assert!(plan.face_rhs.iter().all(|r| r.is_empty()));
}

#[test]
fn all_pec_driven_plan_is_the_closed_cavity() {
    // Four tets around the axis (0, 5); only the axis edge is interior.
    let mesh = mesh_of(6, vec![[0, 5, 1, 2], [0, 5, 2, 3], [0, 5, 3, 4], [0, 5, 4, 1]]);
    let n_faces = yee_fem::exterior_face_count(&mesh);
    assert_eq!(n_faces, 8);
    let topo = topology(&mesh, vec![FaceKind::Pec; n_faces], 0);
    let plan = topo.driven_plan(&mesh);
    let cavity = match yee_fem::AssemblyPlan::closed_cavity(&mesh) {
        Ok(p) => p,
        Err(e) => panic!("unexpected {e:?}"),
    };
    assert_eq!(plan.assembly.lift.interior_edges, cavity.lift.interior_edges);
    assert_eq!(plan.assembly.lift.interior_dof_of_edge, cavity.lift.interior_dof_of_edge);
    assert_eq!(plan.assembly.tet_plans, cavity.tet_plans);
    assert!(plan.face_blocks.iter().all(|b| b.is_empty()));
    assert!(plan.face_rhs.iter().all(|r| r.is_empty()));
    assert_eq!(plan.dof_of_edge[0], Some(0));
    assert!(plan.dof_of_edge[1..].iter().all(|d| d.is_none()));
}

#[test]
fn no_face_entry_lands_on_a_pec_edge() {
    let mesh = two_tets();
    let kinds = vec![
        FaceKind::Pec,
        FaceKind::WavePort(0),
        FaceKind::Abc,
        FaceKind::WavePort(0),
        FaceKind::Pec,
        FaceKind::Abc,
    ];
    let topo = topology(&mesh, kinds, 1).with_interior_pec_edges(vec![0]);
    let plan = topo.driven_plan(&mesh);
    let pec = topo.pec_global_edges();
    let faces = &topo.exterior_faces().faces;
    let mut seen = 0;
    for (f, block) in plan.face_blocks.iter().enumerate() {
        let g = faces[f].global_edges;
        for en in block {
            assert!(!pec.contains(&g[en.i]) && !pec.contains(&g[en.j]));
            seen += 1;
        }
        for en in &plan.face_rhs[f] {
            assert!(!pec.contains(&g[en.i]));
        }
    }
    assert!(seen > 0);
}
