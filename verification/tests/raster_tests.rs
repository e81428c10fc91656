use rusterix::raster::{blit_tile, draw_line, line_pixels, screen_tiles, TileRect};

#[test]
fn line_pixels_shallow_slope() {
    assert_eq!(line_pixels(0, 0, 3, 1), vec![(0, 0), (1, 0), (2, 1)]);
}

#[test]
fn line_pixels_vertical() {
    assert_eq!(line_pixels(0, 0, 0, 3), vec![(0, 0), (0, 1), (0, 2)]);
}

#[test]
fn line_pixels_diagonal_backwards() {
    assert_eq!(line_pixels(5, 5, 2, 2), vec![(5, 5), (4, 4), (3, 3)]);
}

#[test]
fn line_pixels_mixed_directions() {
    assert_eq!(line_pixels(-1, 2, 3, -1), vec![(-1, 2), (0, 1), (1, 1), (2, 0)]);
}

#[test]
fn line_pixels_single_point_is_empty() {
    assert!(line_pixels(2, 2, 2, 2).is_empty());
}

#[test]
fn line_pixels_length_bounds() {
    let pts = line_pixels(-7, 4, 12, -9);
    let dx = 19usize;
    let dy = 13usize;
    assert!(pts.len() >= dx.max(dy));
    assert!(pts.len() <= dx + dy);
    assert_eq!(pts.len(), 19);
    assert_eq!(line_pixels(0, 0, 3, -11).len(), 11);
    assert_eq!(pts[0], (-7, 4));
    for w in pts.windows(2) {
        let (a, b) = (w[0], w[1]);
        assert!((b.0 - a.0).abs() <= 1 && (b.1 - a.1).abs() <= 1);
        assert!(a != b);
    }
}

#[test]
fn draw_line_writes_only_covered_pixels() {
    let tile = TileRect { x: 1, y: 0, width: 3, height: 2 };
    let mut buffer = vec![0u8; 3 * 2 * 4 + 4];
    draw_line(&mut buffer, 0, 0, 3, 1, &tile, [9, 8, 7, 6]);
    // Points (0,0) (outside the tile), (1,0) -> cell 0, (2,1) -> cell 4.
    let mut expected = vec![0u8; 28];
    expected[0..4].copy_from_slice(&[9, 8, 7, 6]);
    expected[16..20].copy_from_slice(&[9, 8, 7, 6]);
    assert_eq!(buffer, expected);
}

#[test]
fn draw_line_outside_tile_changes_nothing() {
    let tile = TileRect { x: 10, y: 10, width: 2, height: 2 };
    let mut buffer = vec![5u8; 16];
    draw_line(&mut buffer, 0, 0, 3, 3, &tile, [1, 2, 3, 4]);
    assert_eq!(buffer, vec![5u8; 16]);
}

#[test]
fn screen_tiles_cut_edges() {
    let tiles = screen_tiles(5, 3, 2);
    assert_eq!(tiles.len(), 6);
    assert_eq!(tiles[0], TileRect { x: 0, y: 0, width: 2, height: 2 });
    assert_eq!(tiles[2], TileRect { x: 4, y: 0, width: 1, height: 2 });
    assert_eq!(tiles[3], TileRect { x: 0, y: 2, width: 2, height: 1 });
    assert_eq!(tiles[5], TileRect { x: 4, y: 2, width: 1, height: 1 });
}

#[test]
fn screen_tiles_partition_every_pixel_once() {
    let (w, h, ts) = (7usize, 5usize, 3usize);
    let tiles = screen_tiles(w, h, ts);
    for py in 0..h {
        for px in 0..w {
            let n = tiles
                .iter()
                .filter(|t| t.x <= px && px < t.x + t.width && t.y <= py && py < t.y + t.height)
                .count();
            assert_eq!(n, 1);
        }
    }
}

#[test]
fn screen_tiles_empty_screen() {
    assert!(screen_tiles(0, 4, 2).is_empty());
}

#[test]
fn blit_tile_copies_rows() {
    let width = 4usize;
    let mut pixels = vec![0u8; width * 3 * 4];
    let tile = TileRect { x: 1, y: 1, width: 2, height: 2 };
    let tile_buffer: Vec<u8> = (1..=16).collect();
    blit_tile(&mut pixels, width, &tile, &tile_buffer);
    let mut expected = vec![0u8; 48];
    expected[20..28].copy_from_slice(&tile_buffer[0..8]);
    expected[36..44].copy_from_slice(&tile_buffer[8..16]);
    assert_eq!(pixels, expected);
}
