use rusterix::terrain::{cell_mesh, grid_triangles, CellBounds, Terrain, UNIT_SCALE_BITS};

#[test]
fn empty_terrain_has_no_bounds() {
    let t = Terrain::empty();
    assert!(t.bounds.is_none());
    assert!(t.heights.is_empty());
    assert_eq!(t.scale_x_bits, UNIT_SCALE_BITS);
    assert_eq!(t.scale_x_bits, 1.0f32.to_bits());
}

#[test]
fn set_height_grows_bounds() {
    let mut t = Terrain::new(2.0f32.to_bits(), 2.0f32.to_bits());
    t.set_height(3, -2, 1.5f32.to_bits());
    assert_eq!(t.bounds, Some(CellBounds { min_x: 3, min_y: -2, max_x: 3, max_y: -2 }));
    t.set_height(-1, 4, 2.5f32.to_bits());
    t.set_height(0, 0, 0.5f32.to_bits());
    assert_eq!(t.bounds, Some(CellBounds { min_x: -1, min_y: -2, max_x: 3, max_y: 4 }));
    assert_eq!(t.get_height(-1, 4), 2.5f32.to_bits());
    assert_eq!(t.get_height(7, 7), 0.0f32.to_bits());
}

#[test]
fn set_height_replaces_existing_cell() {
    let mut t = Terrain::empty();
    t.set_height(1, 1, 1.0f32.to_bits());
    t.set_height(1, 1, 4.0f32.to_bits());
    assert_eq!(t.heights.len(), 1);
    assert_eq!(t.get_height(1, 1), 4.0f32.to_bits());
}

#[test]
fn recompute_bounds_matches_incremental_bounds() {
    let mut t = Terrain::empty();
    for (x, y) in [(5, 1), (-3, 2), (0, -8), (2, 2)] {
        t.set_height(x, y, 1.0f32.to_bits());
    }
    let before = t.bounds;
    t.recompute_bounds();
    assert_eq!(t.bounds, before);
    assert_eq!(t.bounds, Some(CellBounds { min_x: -3, min_y: -8, max_x: 5, max_y: 2 }));
}

#[test]
fn recompute_bounds_of_empty_terrain() {
    let mut t = Terrain::empty();
    t.recompute_bounds();
    assert!(t.bounds.is_none());
}

#[test]
fn bilinear_grid_size() {
    let mut t = Terrain::empty();
    assert_eq!(t.bilinear_grid(4), None);
    t.set_height(-1, 0, 0);
    t.set_height(2, 3, 0);
    assert_eq!(t.bilinear_grid(4), Some((12, 12)));
    assert_eq!(t.bilinear_grid(1), Some((3, 3)));
}

#[test]
fn grid_triangles_indices() {
    let tris = grid_triangles(2, 1);
    assert_eq!(tris, vec![(0, 3, 1), (1, 3, 4), (1, 4, 2), (2, 4, 5)]);
}

#[test]
fn grid_triangles_empty_grid() {
    assert!(grid_triangles(0, 5).is_empty());
    assert!(grid_triangles(3, 0).is_empty());
}

#[test]
fn grid_triangles_stay_in_vertex_grid() {
    let (vx, vy) = (3u32, 4u32);
    let tris = grid_triangles(vx, vy);
    assert_eq!(tris.len(), (2 * vx * vy) as usize);
    let n = ((vx + 1) * (vy + 1)) as usize;
    for (a, b, c) in tris {
        assert!(a < n && b < n && c < n);
    }
}

#[test]
fn cell_mesh_shares_corners() {
    let (corners, tris) = cell_mesh(&vec![(0, 0), (1, 0)]);
    assert_eq!(corners, vec![(0, 0), (1, 0), (0, 1), (1, 1), (2, 0), (2, 1)]);
    assert_eq!(tris, vec![(0, 2, 1), (1, 2, 3), (1, 3, 4), (4, 3, 5)]);
}

#[test]
fn batch_mesh_over_heights() {
    let mut t = Terrain::empty();
    t.set_height(5, 5, 1.0f32.to_bits());
    let (corners, tris) = t.batch_mesh();
    assert_eq!(corners, vec![(5, 5), (6, 5), (5, 6), (6, 6)]);
    assert_eq!(tris.len(), 2);
}
