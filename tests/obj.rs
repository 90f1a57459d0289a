use simple_3d::{load_obj, AssetError};

fn words(parts: &[&str]) -> Vec<Vec<u8>> {
    parts.iter().map(|p| p.as_bytes().to_vec()).collect()
}

#[test]
fn reads_a_textured_triangle() {
    let text = b"# a comment\nv 1.0 2.0 3.0\nv -1 0 0 9\r\nv 0 1 0\nvt 0.5 1\nvt 1 0\nusemtl brick\nf 1/2 2/1 3/2\n\nf 3 2 1\n";
    let model = load_obj(text).unwrap();
    assert_eq!(model.positions.len(), 3);
    assert_eq!(model.positions[0].0, b"1.0".to_vec());
    assert_eq!(model.positions[0].2, b"3.0".to_vec());
    assert_eq!(model.positions[1].0, b"-1".to_vec());
    assert_eq!(model.positions[1].2, b"0".to_vec());
    assert_eq!(model.uvs.len(), 2);
    assert_eq!(model.uvs[0].0, b"0.5".to_vec());
    assert_eq!(model.texture, b"brick".to_vec());
    assert_eq!(model.faces, vec![((0, 1), (1, 0), (2, 1)), ((2, 0), (1, 0), (0, 0))]);
}

#[test]
fn texture_defaults_to_none() {
    let model = load_obj(b"v 0 0 0").unwrap();
    assert_eq!(model.texture, b"none".to_vec());
    assert_eq!(model.positions.len(), 1);
    let empty = load_obj(b"").unwrap();
    assert!(empty.positions.is_empty() && empty.faces.is_empty());
}

#[test]
fn corners_with_normals_and_plus_signs() {
    let model = load_obj(b"f 1/2/3 +4/5/6 7//9\n").err();
    assert!(matches!(model, Some(AssetError::MalformedMesh(0))));
    let model = load_obj(b"f 1/2/3 +4/5/6 7/8/9 10\n").unwrap();
    assert_eq!(model.faces, vec![((0, 1), (3, 4), (6, 7))]);
}

#[test]
fn malformed_lines_are_reported() {
    assert!(matches!(load_obj(b"v 1 2\n"), Err(AssetError::MalformedMesh(0))));
    assert!(matches!(load_obj(b"v 1 2 3\nvt 1\n"), Err(AssetError::MalformedMesh(1))));
    assert!(matches!(load_obj(b"\n\nf 1 2\n"), Err(AssetError::MalformedMesh(2))));
    assert!(matches!(load_obj(b"f 0 1 2\n"), Err(AssetError::MalformedMesh(0))));
    assert!(matches!(load_obj(b"f 1 2 x\n"), Err(AssetError::MalformedMesh(0))));
    assert!(matches!(load_obj(b"f 1 2 3 -4\n"), Err(AssetError::MalformedMesh(0))));
    assert!(matches!(load_obj(b"usemtl\n"), Err(AssetError::MalformedMesh(0))));
    assert!(matches!(
        load_obj(b"f 1 2 99999999999999999999999\n"),
        Err(AssetError::MalformedMesh(0))
    ));
}

#[test]
fn serialized_mesh_reads_back() {
    let positions = [["1", "1", "1"], ["1", "-1", "1"], ["-1", "-1", "1"], ["-1", "1", "1"]];
    let uvs = [["1", "1"], ["1", "0"], ["0", "0"], ["0", "1"]];
    let faces = [((0usize, 0usize), (1usize, 1usize), (2usize, 2usize)), ((0, 0), (2, 2), (3, 3))];
    let mut text = String::new();
    for p in positions {
        text.push_str(&format!("v {} {} {}\n", p[0], p[1], p[2]));
    }
    for t in uvs {
        text.push_str(&format!("vt {} {}\n", t[0], t[1]));
    }
    text.push_str("usemtl cube\n");
    for (a, b, c) in faces {
        text.push_str(&format!(
            "f {}/{} {}/{} {}/{}\n",
            a.0 + 1,
            a.1 + 1,
            b.0 + 1,
            b.1 + 1,
            c.0 + 1,
            c.1 + 1
        ));
    }
    let model = load_obj(text.as_bytes()).unwrap();
    for (i, p) in positions.iter().enumerate() {
        let read = &model.positions[i];
        assert_eq!(vec![read.0.clone(), read.1.clone(), read.2.clone()], words(p));
    }
    for (i, t) in uvs.iter().enumerate() {
        let read = &model.uvs[i];
        assert_eq!(vec![read.0.clone(), read.1.clone()], words(t));
    }
    assert_eq!(model.faces, faces.to_vec());
    assert_eq!(model.texture, b"cube".to_vec());
}
