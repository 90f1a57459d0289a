use simple_3d::mesh::triangles;

#[test]
fn faces_become_triangles_in_order() {
    let positions = ['a', 'b', 'c', 'd'];
    let uvs = [10u8, 20];
    let indices = [((0, 0), (1, 1), (2, 0)), ((3, 1), (2, 5), (0, 0))];
    let ts = triangles(&positions, &uvs, &indices, 0u8).unwrap();
    assert_eq!(ts, vec![(('a', 10), ('b', 20), ('c', 10)), (('d', 20), ('c', 0), ('a', 10))]);
}

#[test]
fn missing_positions_break_the_mesh() {
    let positions = ['a', 'b'];
    let indices = [((0, 0), (1, 0), (2, 0))];
    assert_eq!(triangles(&positions, &[1u8], &indices, 0u8), None);
    assert_eq!(triangles::<char, u8>(&positions, &[], &[], 0u8), Some(vec![]));
}
