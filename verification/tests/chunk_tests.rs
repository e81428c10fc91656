use rusterix::chunks::{chunk_coords, ChunkSchedule};

#[test]
fn chunk_coords_row_by_row() {
    assert_eq!(
        chunk_coords(-1, 0, 1, 2, 16),
        vec![(-16, 0), (0, 0), (-16, 16), (0, 16)]
    );
}

#[test]
fn chunk_coords_empty_range() {
    assert!(chunk_coords(2, 0, 2, 5, 16).is_empty());
    assert!(chunk_coords(0, 3, 4, 1, 16).is_empty());
}

#[test]
fn schedule_builds_every_chunk_once() {
    let mut s = ChunkSchedule::new();
    assert!(s.terrain_modifiers);
    s.set_map(chunk_coords(0, 0, 2, 2, 16));
    assert_eq!(s.total_chunks, 4);
    s.add_dirty(&vec![(0, 0), (64, 64)]);
    assert_eq!(s.dirty.len(), 5);
    assert_eq!(s.all.len(), 5);
    let mut built = Vec::new();
    while let Some((c, last)) = s.next_chunk() {
        built.push(c);
        assert_eq!(last, s.dirty.is_empty());
    }
    built.sort();
    assert_eq!(built, vec![(0, 0), (0, 16), (16, 0), (16, 16), (64, 64)]);
    assert!(s.next_chunk().is_none());
}

#[test]
fn schedule_rebuilds_chunks_once_modifiers_return() {
    let mut s = ChunkSchedule::new();
    s.set_terrain_modifier_state(false);
    s.terrain_chunks_arrived(&vec![(32, 0), (32, 16)]);
    assert_eq!(s.modifier_pending.len(), 2);
    while s.next_chunk().is_some() {}
    s.set_terrain_modifier_state(true);
    assert!(s.modifier_pending.is_empty());
    let mut dirty = s.dirty.clone();
    dirty.sort();
    assert_eq!(dirty, vec![(32, 0), (32, 16)]);
}

#[test]
fn schedule_with_modifiers_on_keeps_nothing_pending() {
    let mut s = ChunkSchedule::new();
    s.terrain_chunks_arrived(&vec![(0, 0)]);
    assert!(s.modifier_pending.is_empty());
    assert_eq!(s.dirty, vec![(0, 0)]);
}
