use depthmesh::{DepthGrid, Mesh, MeshError};

fn bits(values: &[f32]) -> Vec<u32> {
    values.iter().map(|v| v.to_bits()).collect()
}

fn grid(width: u32, height: u32, present: Vec<bool>, upper: Vec<bool>, lower: Vec<bool>) -> DepthGrid {
    let n = (width * height) as usize;
    let mut points = Vec::new();
    let mut texcoords = Vec::new();
    for p in 0..n {
        points.extend(bits(&[p as f32, 10.0 + p as f32, -(p as f32)]));
        texcoords.extend(bits(&[0.5 * p as f32, 1.0 - 0.25 * p as f32]));
    }
    DepthGrid { width, height, points, texcoords, present, upper_faces: upper, lower_faces: lower }
}

#[test]
fn full_square_gives_two_triangles() {
    let g = grid(2, 2, vec![true; 4], vec![true], vec![true]);
    let mesh = Mesh::new(&g).unwrap();
    assert_eq!(mesh.indices(), &vec![0, 1, 2, 1, 3, 2]);
    assert_eq!(mesh.vertices(), &g.points);
    assert_eq!(mesh.texcoords(), &g.texcoords);
    assert!(mesh.attributes().is_empty());
    assert!(mesh.normals().is_none());
}

#[test]
fn missing_pixel_drops_vertex_and_lower_triangle() {
    let g = grid(2, 2, vec![true, true, true, false], vec![true], vec![true]);
    let mesh = Mesh::new(&g).unwrap();
    assert_eq!(mesh.vertices().len(), 9);
    assert_eq!(mesh.vertices()[..], g.points[..9]);
    assert_eq!(mesh.indices(), &vec![0, 1, 2]);
}

#[test]
fn missing_first_pixel_renumbers_vertices() {
    let g = grid(2, 2, vec![false, true, true, true], vec![true], vec![true]);
    let mesh = Mesh::new(&g).unwrap();
    assert_eq!(mesh.vertices()[..], g.points[3..]);
    assert_eq!(mesh.texcoords()[..], g.texcoords[2..]);
    // only the lower triangle (pixels 1, 3, 2) survives, renumbered 0, 2, 1
    assert_eq!(mesh.indices(), &vec![0, 2, 1]);
}

#[test]
fn failed_face_tests_drop_triangles() {
    let g = grid(2, 2, vec![true; 4], vec![false], vec![true]);
    assert_eq!(Mesh::new(&g).unwrap().indices(), &vec![1, 3, 2]);
    let g = grid(2, 2, vec![true; 4], vec![true], vec![false]);
    assert_eq!(Mesh::new(&g).unwrap().indices(), &vec![0, 1, 2]);
}

#[test]
fn three_by_two_grid_in_row_major_cell_order() {
    // pixels: 0 1 2 / 3 4 5
    let g = grid(3, 2, vec![true; 6], vec![true, true], vec![true, true]);
    let mesh = Mesh::new(&g).unwrap();
    assert_eq!(mesh.indices(), &vec![0, 1, 3, 1, 4, 3, 1, 2, 4, 2, 5, 4]);
    assert_eq!(mesh.vertices().len(), 18);
}

#[test]
fn two_by_three_grid_rows() {
    // pixels: 0 1 / 2 3 / 4 5, pixel 2 absent
    let g = grid(2, 3, vec![true, true, false, true, true, true], vec![true, true], vec![true, true]);
    let mesh = Mesh::new(&g).unwrap();
    // cell row 0: upper needs pixel 2 (absent); lower 1,3,2 absent. cell row 1: upper 2,3,4 absent;
    // lower 3,5,4 -> vertices 2,4,3
    assert_eq!(mesh.indices(), &vec![2, 4, 3]);
    assert_eq!(mesh.vertices().len(), 15);
}

#[test]
fn single_row_has_no_triangles() {
    let g = grid(4, 1, vec![true, false, true, true], vec![], vec![]);
    let mesh = Mesh::new(&g).unwrap();
    assert!(mesh.indices().is_empty());
    assert_eq!(mesh.vertices().len(), 9);
    let g = grid(0, 1, vec![], vec![], vec![]);
    let mesh = Mesh::new(&g).unwrap();
    assert!(mesh.vertices().is_empty());
}

#[test]
fn mesh_error_is_comparable() {
    assert_eq!(MeshError::TexcoordsMismatch, MeshError::TexcoordsMismatch);
}
