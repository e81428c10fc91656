use rusterix::map::linedef::Linedef;
use rusterix::map::sector::Sector;
use rusterix::map::vertex::Vertex;
use rusterix::map::{GameMap, MapCamera};

fn bits(v: f32) -> u32 {
    v.to_bits()
}

/// A map with a closed square drawn through `create_linedef`.
fn square_map() -> GameMap {
    let mut m = GameMap::new();
    m.vertices.push(Vertex::new(0, bits(0.0), bits(0.0)));
    m.vertices.push(Vertex::new(1, bits(1.0), bits(0.0)));
    m.vertices.push(Vertex::new(2, bits(1.0), bits(1.0)));
    m.vertices.push(Vertex::new(3, bits(0.0), bits(1.0)));
    assert_eq!(m.create_linedef(0, 1), (0, None));
    assert_eq!(m.create_linedef(1, 2), (1, None));
    assert_eq!(m.create_linedef(2, 3), (2, None));
    assert_eq!(m.create_linedef(3, 0), (3, Some(0)));
    m
}

/// Two sectors sharing linedef 1.
fn two_rooms() -> GameMap {
    let mut m = GameMap::new();
    for i in 0..4u32 {
        m.vertices.push(Vertex::new(i, bits(i as f32), bits(0.0)));
    }
    let mut shared = Linedef::new(1, 1, 2);
    shared.front_sector = Some(10);
    shared.back_sector = Some(20);
    let mut a = Linedef::new(0, 0, 1);
    a.front_sector = Some(10);
    let mut b = Linedef::new(2, 2, 3);
    b.front_sector = Some(20);
    m.linedefs.push(a);
    m.linedefs.push(shared);
    m.linedefs.push(b);
    m.sectors.push(Sector::new(10, vec![0, 1]));
    m.sectors.push(Sector::new(20, vec![1, 2]));
    m
}

#[test]
fn new_map_is_empty() {
    let m = GameMap::new();
    assert_eq!(m.name, "New Map");
    assert!(m.is_empty());
    assert!(!m.has_selection());
    assert_eq!(m.camera, MapCamera::TwoD);
    assert_eq!(m.info(), "V 0, L 0, S 0");
}

#[test]
fn drawing_a_square_closes_a_sector() {
    let m = square_map();
    assert_eq!(m.sectors.len(), 1);
    assert_eq!(m.sectors[0].linedefs, vec![0, 1, 2, 3]);
    assert!(m.possible_polygon.is_empty());
    for l in &m.linedefs {
        assert_eq!(l.front_sector, Some(0));
        assert_eq!(l.back_sector, None);
    }
    assert_eq!(m.info(), "V 4, L 4, S 1");
    assert!(m.is_linedef_in_closed_polygon(2));
    assert!(!m.is_linedef_in_closed_polygon(9));
}

#[test]
fn free_ids_fill_gaps() {
    let mut m = GameMap::new();
    m.vertices.push(Vertex::new(0, 0, 0));
    m.vertices.push(Vertex::new(2, 0, 0));
    assert_eq!(m.find_free_vertex_id(), Some(1));
    assert_eq!(m.find_free_linedef_id(), Some(0));
    assert_eq!(m.find_free_sector_id(), Some(0));
}

#[test]
fn lookups_find_first_match() {
    let m = two_rooms();
    assert_eq!(m.find_linedef(1).map(|l| l.start_vertex), Some(1));
    assert!(m.find_sector(30).is_none());
    assert_eq!(m.vertex_index(3), Some(3));
    assert_eq!(m.sector_index(20), Some(1));
}

#[test]
fn neighbors_through_passable_linedefs() {
    let m = two_rooms();
    assert!(m.is_linedef_passable(1));
    assert!(!m.is_linedef_passable(0));
    assert_eq!(m.get_neighbors(10), vec![20]);
    assert_eq!(m.get_neighbors(20), vec![10]);
    assert!(m.get_neighbors(99).is_empty());
    assert_eq!(m.get_connecting_linedef(10, 20), Some(1));
    assert_eq!(m.get_connecting_linedef(10, 30), None);
}

#[test]
fn selection_adds_once_and_removes_all() {
    let mut m = GameMap::new();
    m.add_to_selection(vec![1, 2, 1], vec![5], vec![]);
    assert_eq!(m.selected_vertices, vec![1, 2]);
    assert!(m.has_selection());
    m.add_to_selection(vec![2, 3], vec![], vec![7]);
    assert_eq!(m.selected_vertices, vec![1, 2, 3]);
    m.remove_from_selection(vec![2], vec![5], vec![]);
    assert_eq!(m.selected_vertices, vec![1, 3]);
    assert!(m.selected_linedefs.is_empty());
    m.clear_selection();
    assert!(!m.has_selection());
}

#[test]
fn delete_sector_takes_its_own_geometry() {
    let mut m = two_rooms();
    m.delete_elements(&[], &[], &[10]);
    // Sector 10 goes; linedef 0 bounded only sector 10, so it goes too, and
    // vertex 0 was only an end of linedef 0.
    assert_eq!(m.sectors.len(), 1);
    assert_eq!(m.sectors[0].id, 20);
    let ids: Vec<u32> = m.linedefs.iter().map(|l| l.id).collect();
    assert_eq!(ids, vec![1, 2]);
    assert_eq!(m.linedefs[0].front_sector, None);
    assert_eq!(m.linedefs[0].back_sector, Some(20));
    let vids: Vec<u32> = m.vertices.iter().map(|v| v.id).collect();
    assert_eq!(vids, vec![1, 2, 3]);
    for s in &m.sectors {
        assert!(!s.linedefs.is_empty());
        for l in &s.linedefs {
            assert!(m.find_linedef(*l).is_some());
        }
    }
}

#[test]
fn delete_linedef_empties_sector() {
    let mut m = square_map();
    m.delete_elements(&[], &[0, 1, 2, 3], &[]);
    assert!(m.linedefs.is_empty());
    assert!(m.sectors.is_empty());
}

#[test]
fn split_linedef_inserts_new_linedef() {
    let mut m = square_map();
    m.vertices.push(Vertex::new(4, bits(0.5), bits(0.0)));
    assert_eq!(m.split_linedef(0, 4), Some(4));
    assert_eq!(m.linedefs.len(), 5);
    assert_eq!(m.linedefs[0].id, 0);
    assert_eq!(m.linedefs[0].end_vertex, 4);
    assert_eq!(m.linedefs[4].id, 4);
    assert_eq!(m.linedefs[4].start_vertex, 4);
    assert_eq!(m.linedefs[4].end_vertex, 1);
    assert_eq!(m.sectors[0].linedefs, vec![0, 4, 1, 2, 3]);
    assert_eq!(m.split_linedef(42, 4), None);
}

#[test]
fn copy_then_paste_duplicates_geometry() {
    let mut m = square_map();
    m.add_to_selection(vec![], vec![], vec![0]);
    let clip = m.copy_selected(false);
    assert_eq!(clip.vertices.len(), 4);
    assert_eq!(clip.linedefs.len(), 4);
    assert_eq!(clip.sectors.len(), 1);
    assert_eq!(clip.sectors[0].linedefs, vec![0, 1, 2, 3]);
    assert!(clip.linedefs.iter().all(|l| l.front_sector.is_none()));
    m.paste(&clip);
    assert_eq!(m.vertices.len(), 8);
    assert_eq!(m.linedefs.len(), 8);
    assert_eq!(m.sectors.len(), 2);
    assert_eq!(m.selected_sectors, vec![1]);
    assert_eq!(m.selected_vertices, vec![4, 5, 6, 7]);
    assert_eq!(m.sectors[1].linedefs, vec![4, 5, 6, 7]);
    for l in &m.linedefs[4..] {
        assert_eq!(l.front_sector, Some(1));
    }
}

#[test]
fn cut_removes_copied_geometry() {
    let mut m = square_map();
    m.add_to_selection(vec![], vec![], vec![0]);
    let clip = m.copy_selected(true);
    assert_eq!(clip.sectors.len(), 1);
    assert!(m.is_empty());
    assert!(!m.has_selection());
}

#[test]
fn copy_without_vertices_is_empty() {
    let mut m = square_map();
    let clip = m.copy_selected(true);
    assert!(clip.is_empty());
    assert_eq!(m.sectors.len(), 1);
}

#[test]
fn geometry_clone_keeps_geometry() {
    let m = two_rooms();
    let g = m.geometry_clone();
    assert_eq!(g.vertices.len(), 4);
    assert_eq!(g.linedefs.len(), 3);
    assert_eq!(g.sectors.len(), 2);
    assert_eq!(g.name, "New Map (geometry_clone)");
}

#[test]
fn rect_sectors_by_vertices() {
    let mut m = square_map();
    assert_eq!(m.find_sectors_with_vertex_indices(&[3, 2, 1, 0]), vec![0]);
    assert!(m.find_sectors_with_vertex_indices(&[0, 1, 2, 2]).is_empty());
    assert!(!m.is_linedef_in_rect(0));
    m.sectors[0].layer = Some(1);
    assert!(m.is_linedef_in_rect(0));
}

#[test]
fn copy_consistency_check() {
    let mut m = square_map();
    m.add_to_selection(vec![], vec![], vec![0]);
    assert!(m.copy_selection_consistent());
    m.sectors[0].linedefs.push(77);
    assert!(!m.copy_selection_consistent());
    let mut n = GameMap::new();
    n.linedefs.push(Linedef::new(0, 5, 6));
    n.add_to_selection(vec![], vec![0], vec![]);
    assert!(!n.copy_selection_consistent());
}

#[test]
fn add_then_remove_selection() {
    let mut m = GameMap::new();
    m.add_to_selection(vec![1, 5], vec![], vec![]);
    m.add_to_selection(vec![5, 6], vec![], vec![]);
    m.remove_from_selection(vec![5, 6], vec![], vec![]);
    assert_eq!(m.selected_vertices, vec![1]);
}

#[test]
fn clear_temp_drops_polygon() {
    let mut m = GameMap::new();
    m.vertices.push(Vertex::new_3d(0, bits(0.0), bits(0.0), bits(2.0)));
    m.vertices.push(Vertex::new(1, bits(1.0), bits(0.0)));
    m.create_linedef(0, 1);
    assert_eq!(m.possible_polygon, vec![0]);
    m.selected_light = Some(3);
    m.clear_temp();
    assert!(m.possible_polygon.is_empty());
    assert_eq!(m.selected_light, None);
    assert_eq!(m.linedefs.len(), 1);
    assert_eq!(m.vertices[0].z_bits, bits(2.0));
}

#[test]
fn pasted_ids_fill_gaps_and_never_repeat() {
    let mut m = GameMap::new();
    m.vertices.push(Vertex::new(0, bits(0.0), bits(0.0)));
    m.vertices.push(Vertex::new(2, bits(2.0), bits(0.0)));
    m.vertices.push(Vertex::new(5, bits(5.0), bits(0.0)));
    let mut clip = GameMap::new();
    for i in 0..4u32 {
        clip.vertices.push(Vertex::new(i, bits(i as f32), bits(1.0)));
    }
    m.paste(&clip);
    assert_eq!(m.selected_vertices, vec![1, 3, 4, 6]);
    let mut ids: Vec<u32> = m.vertices.iter().map(|v| v.id).collect();
    ids.sort();
    ids.dedup();
    assert_eq!(ids.len(), m.vertices.len());
}

#[test]
fn deleting_a_vertex_takes_its_linedefs() {
    let mut m = GameMap::new();
    for i in 0..3u32 {
        m.vertices.push(Vertex::new(i, bits(i as f32), bits(0.0)));
    }
    m.linedefs.push(Linedef::new(0, 0, 1));
    m.linedefs.push(Linedef::new(1, 1, 2));
    m.delete_elements(&[1], &[], &[]);
    let ids: Vec<u32> = m.vertices.iter().map(|v| v.id).collect();
    assert_eq!(ids, vec![0, 2]);
    assert!(m.linedefs.is_empty());
}

#[test]
fn split_linedef_gives_a_new_unique_id() {
    let mut m = GameMap::new();
    m.vertices.push(Vertex::new(0, bits(0.0), bits(0.0)));
    m.vertices.push(Vertex::new(1, bits(4.0), bits(0.0)));
    m.vertices.push(Vertex::new(2, bits(4.0), bits(4.0)));
    m.vertices.push(Vertex::new(3, bits(2.0), bits(0.0)));
    m.linedefs.push(Linedef::new(0, 0, 1));
    m.linedefs.push(Linedef::new(2, 1, 2));
    assert_eq!(m.split_linedef(0, 3), Some(3));
    assert_eq!(m.linedefs.len(), 3);
    assert_eq!(m.linedefs[0].end_vertex, 3);
    assert_eq!(m.linedefs[2].id, 1);
    assert_eq!(m.linedefs[2].start_vertex, 3);
    assert_eq!(m.linedefs[2].end_vertex, 1);
}
