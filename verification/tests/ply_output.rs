use depthmesh::{push_decimal, push_le_u32, push_text, DepthGrid, Image, Mesh, NormalSource};

fn le(words: &[u32]) -> Vec<u8> {
    words.iter().flat_map(|w| w.to_le_bytes()).collect()
}

fn triangle_mesh() -> Mesh {
    let g = DepthGrid {
        width: 2,
        height: 2,
        points: (1..=12).collect(),
        texcoords: (20..28).collect(),
        present: vec![true, true, true, false],
        upper_faces: vec![true],
        lower_faces: vec![true],
    };
    Mesh::new(&g).unwrap()
}

#[test]
fn decimal_and_little_endian_words() {
    let mut out = Vec::new();
    push_decimal(&mut out, 0);
    push_text(&mut out, " ");
    push_decimal(&mut out, 7);
    push_text(&mut out, " ");
    push_decimal(&mut out, 10);
    push_text(&mut out, " ");
    push_decimal(&mut out, 1234567);
    assert_eq!(out, b"0 7 10 1234567".to_vec());
    let mut out = Vec::new();
    push_le_u32(&mut out, 0x0403_0201);
    push_le_u32(&mut out, 1.0f32.to_bits());
    let mut expected = vec![1u8, 2, 3, 4];
    expected.extend(1.0f32.to_le_bytes());
    assert_eq!(out, expected);
}

#[test]
fn writes_header_and_records() {
    let mesh = triangle_mesh();
    let flipped = vec![900, 901, 902];
    let mut out = Vec::new();
    mesh.write(&flipped, &mut out).unwrap();
    let header = "ply\n\
format binary_little_endian 1.0\n\
comment Created by depthmesh\n\
element vertex 3\n\
property float x\n\
property float y\n\
property float z\n\
property float s\n\
property float t\n\
element face 1\n\
property list uchar int vertex_indices\n\
end_header\n";
    let mut expected = header.as_bytes().to_vec();
    for i in 0..3u32 {
        expected.extend(le(&[1 + 3 * i, 2 + 3 * i, 3 + 3 * i, 20 + 2 * i, 900 + i]));
    }
    expected.push(3);
    expected.extend(le(&[0, 1, 2]));
    assert_eq!(out, expected);
}

#[test]
fn writes_normals_and_attributes() {
    let mut mesh = triangle_mesh();
    let img = Image { width: 1, height: 1, data: vec![7, 8, 9] };
    mesh.sample("red", &img, 0, &vec![(0, 0); 3]);
    mesh.compute_normal(NormalSource::Computed((50..59).collect()));
    let mut out = Vec::new();
    mesh.write(&vec![0, 0, 0], &mut out).unwrap();
    let text = String::from_utf8_lossy(&out);
    assert!(text.contains(
        "property float z\nproperty float nx\nproperty float ny\nproperty float nz\nproperty float s\nproperty float t\nproperty float red\nelement face 1\n"
    ));
    let header_len = out.windows(11).position(|w| w == b"end_header\n").unwrap() + 11;
    let body = &out[header_len..];
    // 3 coordinates + 3 normal words + 2 texture words + 1 attribute, per vertex
    assert_eq!(body.len(), 3 * 9 * 4 + 13);
    assert_eq!(&body[..36], &le(&[1, 2, 3, 50, 51, 52, 20, 0, 7])[..]);
}

#[test]
fn attributes_of_the_wrong_length_are_not_written() {
    let mut mesh = triangle_mesh();
    let img = Image { width: 1, height: 1, data: vec![7, 8, 9] };
    mesh.sample("blue", &img, 2, &vec![(0, 0); 3]);
    // after dropping a vertex the attribute no longer has one value per vertex
    mesh.optimize(vec![0, 1, 0]);
    let mut out = Vec::new();
    mesh.write(&vec![0, 0], &mut out).unwrap();
    let text = String::from_utf8_lossy(&out);
    assert!(text.contains("element vertex 2\n"));
    assert!(!text.contains("blue"));
    assert!(text.contains("element face 1\n"));
}

#[test]
fn empty_mesh_writes_only_a_header() {
    let g = DepthGrid {
        width: 1,
        height: 1,
        points: vec![1, 2, 3],
        texcoords: vec![4, 5],
        present: vec![false],
        upper_faces: vec![],
        lower_faces: vec![],
    };
    let mesh = Mesh::new(&g).unwrap();
    let mut out = Vec::new();
    mesh.write(&vec![], &mut out).unwrap();
    let text = String::from_utf8(out).unwrap();
    assert!(text.starts_with("ply\n"));
    assert!(text.contains("element vertex 0\nproperty float x\n"));
    assert!(!text.contains("property float s"));
    assert!(text.ends_with("element face 0\nproperty list uchar int vertex_indices\nend_header\n"));
}

#[test]
fn decimal_text_reads_back() {
    for n in [0usize, 9, 10, 99, 100, 4096, 65535, 1_000_001] {
        let mut out = Vec::new();
        push_decimal(&mut out, n);
        let text = String::from_utf8(out).unwrap();
        assert_eq!(text.parse::<usize>().unwrap(), n);
        assert_eq!(text, n.to_string());
    }
}

#[test]
fn words_read_back_little_endian() {
    for x in [0u32, 1, 255, 256, 0xdead_beef, u32::MAX, (-1.5f32).to_bits()] {
        let mut out = Vec::new();
        push_le_u32(&mut out, x);
        assert_eq!(u32::from_le_bytes([out[0], out[1], out[2], out[3]]), x);
    }
}
