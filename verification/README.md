# depthmesh

Turns a depth image into a triangle mesh and writes it as a binary little-endian PLY file.

- `src/` is the verified library. Floating-point values are carried as their `f32` bit
  patterns, so the library holds the integer decisions: which pixels become vertices and
  how they are numbered (`grid.rs`), the mesh and its operations (`mesh.rs`), the re-indexing
  after simplification through meshoptimizer (`remap.rs`), the PLY layout (`ply.rs`,
  `encoding.rs`) and the neighbour counts of Laplacian smoothing (`smooth.rs`).
- `app/` is the command-line program: argument parsing, image and file I/O, and the
  floating-point geometry (projection, face tests, pose transform, normals, smoothing,
  simplification).
