use yee_fem::{
    exterior_face_count, number_edges, EdgeKey, ExteriorFaceTable, TetEdgeTable, TetMesh,
    LOCAL_EDGES, TET_FACES,
};

fn mesh_of(n_vertices: usize, tets: Vec<[usize; 4]>) -> TetMesh {
    let n = tets.len();
    TetMesh { n_vertices, tetrahedra: tets, tetrahedron_material: vec![0; n] }
}

/// Reference unit tet.
fn single_tet() -> TetMesh {
    mesh_of(4, vec![[0, 1, 2, 3]])
}

/// Two tets sharing the face (0, 1, 2).
fn two_tets_shared_face() -> TetMesh {
    mesh_of(5, vec![[0, 1, 2, 3], [0, 1, 2, 4]])
}

fn key(a: usize, b: usize) -> EdgeKey {
    EdgeKey { from: a, to: b }
}

#[test]
fn edge_table_single_tet_has_six_boundary_edges() {
    let mesh = single_tet();
    let table = TetEdgeTable::build(&mesh);
    assert_eq!(table.edges.len(), 6, "a single tet has 6 distinct edges");
    assert!(
        table.is_boundary.iter().all(|&b| b),
        "every edge of a free tet must be a boundary edge"
    );
}

#[test]
fn edge_table_two_tets_shared_face_dedup_to_nine_edges() {
    let mesh = two_tets_shared_face();
    let table = TetEdgeTable::build(&mesh);
    assert_eq!(
        table.edges.len(),
        9,
        "two tets sharing one triangular face have 9 distinct edges"
    );
}

#[test]
fn exterior_face_table_two_tets_has_six_exterior_faces() {
    let mesh = two_tets_shared_face();
    let table = TetEdgeTable::build(&mesh);
    let ext = ExteriorFaceTable::build(&mesh, &table);
    assert_eq!(
        ext.faces.len(),
        6,
        "two tets sharing one face should produce 6 exterior faces"
    );
}

#[test]
fn local_tables_are_canonical() {
    assert_eq!(LOCAL_EDGES, [(0, 1), (0, 2), (0, 3), (1, 2), (1, 3), (2, 3)]);
    assert_eq!(TET_FACES, [[1, 2, 3], [0, 2, 3], [0, 1, 3], [0, 1, 2]]);
}

#[test]
fn edge_key_puts_lower_vertex_first() {
    assert_eq!(EdgeKey::new(7, 3), key(3, 7));
    assert_eq!(EdgeKey::new(3, 7), key(3, 7));
    assert_eq!(EdgeKey::new(5, 5), key(5, 5));
}

#[test]
fn edges_are_numbered_in_first_seen_order() {
    let mesh = two_tets_shared_face();
    let table = TetEdgeTable::build(&mesh);
    assert_eq!(
        table.edges,
        vec![
            key(0, 1),
            key(0, 2),
            key(0, 3),
            key(1, 2),
            key(1, 3),
            key(2, 3),
            key(0, 4),
            key(1, 4),
            key(2, 4)
        ]
    );
    assert_eq!(table.tet_edges[0].global_edge, [0, 1, 2, 3, 4, 5]);
    assert_eq!(table.tet_edges[1].global_edge, [0, 1, 6, 3, 7, 8]);
    // The numbering agrees with the standalone numbering pass.
    let (edges, conns) = number_edges(&mesh.tetrahedra);
    assert_eq!(edges, table.edges);
    assert_eq!(conns[1].global_edge, table.tet_edges[1].global_edge);
}

#[test]
fn edge_signs_follow_global_vertex_order() {
    // Local edge (0, 1) runs 3 -> 1, against the canonical 1 -> 3.
    let mesh = mesh_of(4, vec![[3, 1, 0, 2]]);
    let table = TetEdgeTable::build(&mesh);
    assert_eq!(table.edges[0], key(1, 3));
    // Pairs: (3,1) (3,0) (3,2) (1,0) (1,2) (0,2).
    assert_eq!(table.tet_edges[0].sign, [-1, -1, -1, -1, 1, 1]);
}

#[test]
fn face_counts_see_the_shared_face_twice() {
    let mesh = two_tets_shared_face();
    let table = TetEdgeTable::build(&mesh);
    // Local face 3 of both tets is (0, 1, 2).
    assert_eq!(table.face_counts[0], [1, 1, 1, 2]);
    assert_eq!(table.face_counts[1], [1, 1, 1, 2]);
}

#[test]
fn interior_edge_of_a_closed_fan_is_not_boundary() {
    // Four tets around the axis (0, 5) through the octahedron-like fan
    // 1-2-3-4: the axis edge lies only on shared faces.
    let mesh = mesh_of(
        6,
        vec![[0, 5, 1, 2], [0, 5, 2, 3], [0, 5, 3, 4], [0, 5, 4, 1]],
    );
    let table = TetEdgeTable::build(&mesh);
    let axis = table.edges.iter().position(|k| *k == key(0, 5)).unwrap();
    assert!(!table.is_boundary[axis]);
    let rim = table.edges.iter().position(|k| *k == key(1, 2)).unwrap();
    assert!(table.is_boundary[rim]);
    assert_eq!(table.is_boundary.iter().filter(|&&b| !b).count(), 1);
}

#[test]
fn exterior_faces_carry_edges_and_signs() {
    let mesh = two_tets_shared_face();
    let table = TetEdgeTable::build(&mesh);
    let ext = ExteriorFaceTable::build(&mesh, &table);
    let first = ext.faces[0];
    assert_eq!(first.tet, 0);
    assert_eq!(first.local_face, 0);
    assert_eq!(first.vertices, [1, 2, 3]);
    // Edges (1,2), (2,3), (3,1).
    assert_eq!(first.global_edges, [3, 5, 4]);
    assert_eq!(first.signs, [1, 1, -1]);
    let tets_and_faces: Vec<(usize, usize)> =
        ext.faces.iter().map(|f| (f.tet, f.local_face)).collect();
    assert_eq!(tets_and_faces, vec![(0, 0), (0, 1), (0, 2), (1, 0), (1, 1), (1, 2)]);
    assert_eq!(exterior_face_count(&mesh), 6);
}

#[test]
fn orientation_swaps_the_two_last_vertices() {
    let mesh = two_tets_shared_face();
    let table = TetEdgeTable::build(&mesh);
    let ext = ExteriorFaceTable::build(&mesh, &table);
    let swap = vec![true, false, false, false, false, false];
    let oriented = ext.with_orientation(&mesh, &table, &swap);
    let f = oriented.faces[0];
    assert_eq!(f.vertices, [1, 3, 2]);
    // Edges (1,3), (3,2), (2,1).
    assert_eq!(f.global_edges, [4, 5, 3]);
    assert_eq!(f.signs, [1, -1, -1]);
    assert_eq!(oriented.faces[1].vertices, [0, 2, 3]);
}

#[test]
fn single_tet_face_count() {
    assert_eq!(exterior_face_count(&single_tet()), 4);
    let empty = mesh_of(0, vec![]);
    assert_eq!(exterior_face_count(&empty), 0);
}
