use std::collections::HashSet;

use yee_fem::{
    block_scatter_plan, check_material_lengths, driven_dof_of_edge, edges_where, lift_map, lift_map_excluding,
    lift_map_from_boundary, rhs_scatter_plan, AssemblyError, AssemblyPlan, RhsEntry,
    ScatterEntry, TetEdgeTable, TetMesh,
};

fn mesh_of(n_vertices: usize, tets: Vec<[usize; 4]>) -> TetMesh {
    let n = tets.len();
    TetMesh { n_vertices, tetrahedra: tets, tetrahedron_material: vec![0; n] }
}

/// Four tets around the axis (0, 5); only the axis edge is interior.
fn fan() -> TetMesh {
    mesh_of(6, vec![[0, 5, 1, 2], [0, 5, 2, 3], [0, 5, 3, 4], [0, 5, 4, 1]])
}

fn entry(row: usize, col: usize, i: usize, j: usize, sign: i8) -> ScatterEntry {
    ScatterEntry { row, col, i, j, sign }
}

#[test]
fn lift_map_keeps_unflagged_edges_in_order() {
    let m = lift_map(&vec![true, false, true, false, false]);
    assert_eq!(m.interior_edges, vec![1, 3, 4]);
    assert_eq!(m.interior_dof_of_edge, vec![None, Some(0), None, Some(1), Some(2)]);
    // Round trip: every interior DoF lifts back to itself.
    for (d, &e) in m.interior_edges.iter().enumerate() {
        assert_eq!(m.interior_dof_of_edge[e], Some(d));
    }
}

#[test]
fn lift_map_of_nothing_flagged_is_identity() {
    let m = lift_map_from_boundary(&vec![false, false, false]);
    assert_eq!(m.interior_edges, vec![0, 1, 2]);
    assert_eq!(m.interior_dof_of_edge, vec![Some(0), Some(1), Some(2)]);
    let empty = lift_map(&vec![]);
    assert!(empty.interior_edges.is_empty());
    assert!(empty.interior_dof_of_edge.is_empty());
}

#[test]
fn lift_map_excluding_drops_listed_edges_only() {
    let pec: HashSet<usize> = [1usize, 3, 17].into_iter().collect();
    let m = lift_map_excluding(4, &pec);
    assert_eq!(m.interior_edges, vec![0, 2]);
    assert_eq!(m.interior_dof_of_edge, vec![Some(0), None, Some(1), None]);
}

#[test]
fn driven_table_covers_interior_and_face_edges() {
    let t = driven_dof_of_edge(&vec![1, 4], 7);
    assert_eq!(t, vec![None, Some(0), None, None, Some(1), None, None]);
    let short = driven_dof_of_edge(&vec![1, 4], 0);
    assert_eq!(short, vec![None, Some(0), None, None, Some(1)]);
    let none = driven_dof_of_edge(&vec![], 0);
    assert_eq!(none, vec![None]);
}

#[test]
fn block_plan_skips_eliminated_edges_in_row_major_order() {
    let dof = vec![Some(0), None, Some(1)];
    let plan = block_scatter_plan(&vec![2, 0, 1], &vec![1, -1, 1], &dof);
    assert_eq!(
        plan,
        vec![entry(1, 1, 0, 0, 1), entry(1, 0, 0, 1, -1), entry(0, 1, 1, 0, -1), entry(0, 0, 1, 1, 1)]
    );
}

#[test]
fn rhs_plan_skips_eliminated_edges() {
    let dof = vec![Some(0), None, Some(1)];
    let plan = rhs_scatter_plan(&vec![2, 0, 1], &vec![1, -1, 1], &dof);
    assert_eq!(plan, vec![RhsEntry { row: 1, i: 0, sign: 1 }, RhsEntry { row: 0, i: 1, sign: -1 }]);
    let all_pec = vec![None, None, None];
    assert!(rhs_scatter_plan(&vec![2, 0, 1], &vec![1, -1, 1], &all_pec).is_empty());
}

#[test]
fn material_lengths_are_checked_eps_first() {
    assert_eq!(check_material_lengths(3, 3, 3), Ok(()));
    assert_eq!(
        check_material_lengths(3, 2, 3),
        Err(AssemblyError::EpsLength { expected: 3, got: 2 })
    );
    assert_eq!(
        check_material_lengths(3, 3, 1),
        Err(AssemblyError::MuLength { expected: 3, got: 1 })
    );
    assert_eq!(
        check_material_lengths(3, 2, 1),
        Err(AssemblyError::EpsLength { expected: 3, got: 2 })
    );
}

#[test]
fn closed_cavity_of_empty_mesh_is_refused() {
    let empty = mesh_of(0, vec![]);
    assert!(matches!(AssemblyPlan::closed_cavity(&empty), Err(AssemblyError::EmptyMesh)));
    let pec: HashSet<usize> = HashSet::new();
    assert!(matches!(AssemblyPlan::with_pec_edges(&empty, &pec), Err(AssemblyError::EmptyMesh)));
}

#[test]
fn closed_cavity_of_two_free_tets_has_no_dofs() {
    let mesh = mesh_of(5, vec![[0, 1, 2, 3], [0, 1, 2, 4]]);
    let plan = match AssemblyPlan::closed_cavity(&mesh) {
        Ok(p) => p,
        Err(e) => panic!("unexpected {e:?}"),
    };
    assert_eq!(plan.table.edges.len(), 9);
    assert!(plan.lift.interior_edges.is_empty());
    assert_eq!(plan.tet_plans.len(), 2);
    assert!(plan.tet_plans.iter().all(|p| p.is_empty()));
}

#[test]
fn closed_cavity_of_fan_keeps_the_axis_edge() {
    let plan = match AssemblyPlan::closed_cavity(&fan()) {
        Ok(p) => p,
        Err(e) => panic!("unexpected {e:?}"),
    };
    assert_eq!(plan.table.edges.len(), 13);
    assert_eq!(plan.lift.interior_edges, vec![0]);
    for p in &plan.tet_plans {
        assert_eq!(p, &vec![entry(0, 0, 0, 0, 1)]);
    }
}

#[test]
fn explicit_pec_without_edges_keeps_every_edge() {
    let pec: HashSet<usize> = HashSet::new();
    let plan = match AssemblyPlan::with_pec_edges(&fan(), &pec) {
        Ok(p) => p,
        Err(e) => panic!("unexpected {e:?}"),
    };
    assert_eq!(plan.lift.interior_edges, (0..13).collect::<Vec<usize>>());
    assert!(plan.tet_plans.iter().all(|p| p.len() == 36));
    let first = &plan.tet_plans[0];
    // Row-major over the 6x6 block; tet 0 has edges 0..6 in order.
    assert_eq!(first[0], entry(0, 0, 0, 0, 1));
    assert_eq!(first[7], entry(1, 1, 1, 1, 1));
    assert_eq!(first[35], entry(5, 5, 5, 5, 1));
}

#[test]
fn explicit_pec_equal_to_boundary_matches_closed_cavity() {
    let mesh = fan();
    let table = TetEdgeTable::build(&mesh);
    let pec: HashSet<usize> =
        (0..table.edges.len()).filter(|&e| table.is_boundary[e]).collect();
    let a = match AssemblyPlan::closed_cavity(&mesh) {
        Ok(p) => p,
        Err(e) => panic!("unexpected {e:?}"),
    };
    let b = match AssemblyPlan::with_pec_edges(&mesh, &pec) {
        Ok(p) => p,
        Err(e) => panic!("unexpected {e:?}"),
    };
    assert_eq!(a.lift.interior_edges, b.lift.interior_edges);
    assert_eq!(a.lift.interior_dof_of_edge, b.lift.interior_dof_of_edge);
    assert_eq!(a.tet_plans, b.tet_plans);
}

#[test]
fn edges_where_lists_hits_ascending() {
    assert_eq!(edges_where(&vec![false, true, true, false, true]), vec![1, 2, 4]);
    assert!(edges_where(&vec![false, false]).is_empty());
    assert!(edges_where(&vec![]).is_empty());
}
