use depthmesh::{
    neighbor_counts, remap_index_buffer, remap_vertex_buffer, DepthGrid, Image, Mesh, NormalSource,
};

fn square() -> Mesh {
    let points: Vec<u32> = (0..12u32).map(|w| 100 + w).collect();
    let texcoords: Vec<u32> = (0..8u32).map(|w| 200 + w).collect();
    let g = DepthGrid {
        width: 2,
        height: 2,
        points,
        texcoords,
        present: vec![true; 4],
        upper_faces: vec![true],
        lower_faces: vec![true],
    };
    Mesh::new(&g).unwrap()
}

fn image() -> Image {
    // 3 x 2 pixels, word = 10 * pixel + channel
    let mut data = Vec::new();
    for p in 0..6u32 {
        for c in 0..3u32 {
            data.push(10 * p + c);
        }
    }
    Image { width: 3, height: 2, data }
}

#[test]
fn sample_reads_channel_at_clamped_coordinates() {
    let mut mesh = square();
    let coords = vec![(0, 0), (2, 1), (7, 0), (1, 9)];
    mesh.sample("green", &image(), 1, &coords);
    let attrs = mesh.attributes();
    assert_eq!(attrs.len(), 1);
    assert_eq!(attrs[0].0, "green");
    // (7,0) -> (2,0) = pixel 2; (1,9) -> (1,1) = pixel 4
    assert_eq!(attrs[0].1, vec![1, 51, 21, 41]);
}

#[test]
fn sample_ignores_bad_channel_and_empty_image() {
    let mut mesh = square();
    let coords = vec![(0, 0); 4];
    mesh.sample("alpha", &image(), 3, &coords);
    assert!(mesh.attributes().is_empty());
    let empty = Image { width: 0, height: 5, data: vec![] };
    mesh.sample("red", &empty, 0, &coords);
    assert!(mesh.attributes().is_empty());
}

#[test]
fn compute_normal_from_image_adds_three_channels() {
    let mut mesh = square();
    let coords = vec![(0, 0), (1, 0), (2, 0), (0, 1)];
    mesh.compute_normal(NormalSource::Image(image(), coords));
    let attrs = mesh.attributes();
    let names: Vec<&str> = attrs.iter().map(|a| a.0.as_str()).collect();
    assert_eq!(names, vec!["nx", "ny", "nz"]);
    assert_eq!(attrs[0].1, vec![0, 10, 20, 30]);
    assert_eq!(attrs[2].1, vec![2, 12, 22, 32]);
    assert!(mesh.normals().is_none());
}

#[test]
fn compute_normal_stores_computed_normals() {
    let mut mesh = square();
    let normals: Vec<u32> = (0..12).collect();
    mesh.compute_normal(NormalSource::Computed(normals.clone()));
    assert_eq!(mesh.normals(), Some(&normals));
    assert!(mesh.attributes().is_empty());
}

#[test]
fn set_vertices_replaces_coordinates() {
    let mut mesh = square();
    let moved: Vec<u32> = (0..12).map(|w| w * 2).collect();
    mesh.set_vertices(moved.clone());
    assert_eq!(mesh.vertices(), &moved);
    assert_eq!(mesh.indices(), &vec![0, 1, 2, 1, 3, 2]);
}

#[test]
fn optimize_merges_equal_vertices_and_drops_unused() {
    // four pixels where pixels 1 and 2 have the same coordinates
    let points = vec![1, 1, 1, 5, 5, 5, 5, 5, 5, 9, 9, 9];
    let g = DepthGrid {
        width: 2,
        height: 2,
        points,
        texcoords: vec![10, 11, 20, 21, 30, 31, 40, 41],
        present: vec![true; 4],
        upper_faces: vec![true],
        lower_faces: vec![true],
    };
    let mut mesh = Mesh::new(&g).unwrap();
    // keep only the lower triangle 1, 3, 2, which names vertex 1 and 2 (equal) and 3
    mesh.optimize(vec![1, 3, 2]);
    assert_eq!(mesh.vertices(), &vec![5, 5, 5, 9, 9, 9]);
    assert_eq!(mesh.indices(), &vec![0, 1, 0]);
    // the last vertex mapped to slot 0 is vertex 2
    assert_eq!(mesh.texcoords(), &vec![30, 31, 40, 41]);
}

#[test]
fn optimize_keeps_every_corner_position() {
    let mut mesh = square();
    let before = mesh.vertices().clone();
    let simplified = vec![3, 2, 1, 0, 1, 2];
    mesh.optimize(simplified.clone());
    let after = mesh.vertices();
    for (k, &s) in simplified.iter().enumerate() {
        let n = mesh.indices()[k] as usize;
        assert_eq!(after[3 * n..3 * n + 3], before[3 * s as usize..3 * s as usize + 3]);
    }
    // first use order: 3, 2, 1, 0
    assert_eq!(mesh.indices(), &vec![0, 1, 2, 3, 2, 1]);
}

#[test]
fn neighbor_counts_are_twice_the_uses() {
    let counts = neighbor_counts(&vec![0, 1, 2, 1, 3, 2], 5);
    assert_eq!(counts, vec![2, 4, 4, 2, 0]);
    assert_eq!(neighbor_counts(&vec![], 2), vec![0, 0]);
}

#[test]
fn default_mesh_is_empty() {
    let mesh = Mesh::default();
    assert!(mesh.vertices().is_empty());
    assert!(mesh.indices().is_empty());
    assert!(mesh.texcoords().is_empty());
    assert!(mesh.attributes().is_empty());
    assert!(mesh.normals().is_none());
    let mut out = Vec::new();
    mesh.write(&vec![], &mut out).unwrap();
    assert!(String::from_utf8(out).unwrap().contains("element vertex 0\n"));
}

#[test]
fn remap_vertex_buffer_keeps_last_writer_and_blank() {
    let records = vec![[1u32, 1], [2, 2], [3, 3], [4, 4]];
    let remap = vec![1, u32::MAX, 1, 0];
    let out = remap_vertex_buffer(&records, 3, &remap, [0, 0]);
    assert_eq!(out, vec![[4, 4], [3, 3], [0, 0]]);
}

#[test]
fn remap_index_buffer_translates_every_index() {
    assert_eq!(remap_index_buffer(&vec![2, 0, 2, 1], &vec![7, 8, 9]), vec![9, 7, 9, 8]);
}
