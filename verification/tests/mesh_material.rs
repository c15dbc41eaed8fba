use yee_fem::{MaterialRegistry, MeshError, TetMesh};

#[test]
fn mesh_without_materials_gets_tag_zero() {
    let mesh = match TetMesh::new(5, vec![[0, 1, 2, 3], [0, 1, 2, 4]], None) {
        Ok(m) => m,
        Err(e) => panic!("unexpected {e:?}"),
    };
    assert_eq!(mesh.n_vertices, 5);
    assert_eq!(mesh.n_tets(), 2);
    assert_eq!(mesh.tetrahedron_material, vec![0, 0]);
}

#[test]
fn mesh_keeps_supplied_materials() {
    let mesh = match TetMesh::new(4, vec![[0, 1, 2, 3]], Some(vec![7])) {
        Ok(m) => m,
        Err(e) => panic!("unexpected {e:?}"),
    };
    assert_eq!(mesh.tetrahedron_material, vec![7]);
}

#[test]
fn mesh_with_wrong_material_count_is_refused() {
    let r = TetMesh::new(4, vec![[0, 1, 2, 3]], Some(vec![1, 2]));
    assert!(matches!(r, Err(MeshError::MaterialCount { expected: 1, got: 2 })));
}

#[test]
fn mesh_with_unknown_vertex_is_refused_at_first_bad_tet() {
    let r = TetMesh::new(5, vec![[0, 1, 2, 3], [0, 1, 2, 5], [9, 9, 9, 9]], None);
    assert!(matches!(r, Err(MeshError::VertexOutOfRange { tet: 1 })));
}

#[test]
fn empty_mesh_is_accepted() {
    let mesh = match TetMesh::new(0, vec![], None) {
        Ok(m) => m,
        Err(e) => panic!("unexpected {e:?}"),
    };
    assert_eq!(mesh.n_tets(), 0);
}

#[test]
fn lookup_returns_first_registration() {
    let reg = MaterialRegistry::new().with_material(5).with_material(7).with_material(5);
    assert_eq!(reg.tags, vec![5, 7, 5]);
    assert_eq!(reg.lookup(5), Some(0));
    assert_eq!(reg.lookup(7), Some(1));
    assert_eq!(reg.lookup(9), None);
}

#[test]
fn empty_registry_finds_nothing() {
    let reg = MaterialRegistry::new();
    assert_eq!(reg.lookup(0), None);
}
