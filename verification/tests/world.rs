use tileworld::game_state::{
    generate_map, load_map, regenerate_map, tile_from_u32, Tile, WorldMap,
};

fn fresh_world(w: usize, h: usize) -> WorldMap {
    let mut m = WorldMap::new(w, h);
    generate_map(&mut m);
    m
}

#[test]
fn map_new_dimensions() {
    let m = WorldMap::new(3, 4);
    assert_eq!(m.width, 3);
    assert_eq!(m.height, 4);
    assert_eq!(m.tiles.len(), 12);
    assert_eq!(m.world_map.len(), 0);
    assert_eq!(m.area_index, 0);
    assert!(!m.rerolled);
}

#[test]
fn generate_map_makes_area_zero() {
    let m = fresh_world(3, 3);
    assert_eq!(m.world_map.len(), 1);
    assert_eq!(m.world_map[0].tiles.len(), 9);
    assert_eq!(m.world_map[0].n, None);
    assert_eq!(m.world_map[0].e, None);
    assert_eq!(m.world_map[0].w, None);
    assert_eq!(m.world_map[0].s, None);
    assert_eq!(m.tiles, m.world_map[0].tiles);
}

#[test]
fn tile_from_u32_exact() {
    assert_eq!(tile_from_u32(0), Tile::Grass1);
    assert_eq!(tile_from_u32(1), Tile::Grass2);
    assert_eq!(tile_from_u32(2), Tile::Water);
}

#[test]
fn regenerate_east_reserves_next_index() {
    // a single area at index 0 with its east link unset
    let mut m = fresh_world(3, 3);
    let (opt, idx) = regenerate_map(&mut m, 0, 'e');
    assert_eq!(idx, 1);
    let na = opt.expect("a new area should have been produced");
    assert_eq!(na.w, Some(0));
    assert_eq!(na.n, None);
    assert_eq!(na.e, None);
    assert_eq!(na.s, None);
    assert_eq!(na.tiles.len(), 9);
    assert_eq!(m.world_map[0].e, Some(1));
    load_map(&mut m, (Some(na), idx));
    assert_eq!(m.world_map.len(), 2);
    assert_eq!(m.world_map[0].e, Some(1));
    assert_eq!(m.world_map[1].w, Some(0));
    assert_eq!(m.area_index, 1);
    assert!(m.rerolled);
    assert_eq!(m.tiles, m.world_map[1].tiles);
}

#[test]
fn regenerate_links_back_in_every_direction() {
    let dirs = [('n', 's'), ('e', 'w'), ('w', 'e'), ('s', 'n')];
    for &(d, _back) in dirs.iter() {
        let mut m = fresh_world(2, 2);
        let (opt, idx) = regenerate_map(&mut m, 0, d);
        assert_eq!(idx, 1);
        let na = opt.expect("new area");
        let back_link = match d {
            'n' => na.s,
            'e' => na.w,
            'w' => na.e,
            _ => na.n,
        };
        assert_eq!(back_link, Some(0));
        load_map(&mut m, (Some(na), idx));
        let fwd = match d {
            'n' => m.world_map[0].n,
            'e' => m.world_map[0].e,
            'w' => m.world_map[0].w,
            _ => m.world_map[0].s,
        };
        assert_eq!(fwd, Some(1));
    }
}

#[test]
fn regenerate_twice_is_idempotent() {
    let mut m = fresh_world(3, 3);
    let (opt, idx) = regenerate_map(&mut m, 0, 'e');
    load_map(&mut m, (opt, idx));
    assert_eq!(m.world_map.len(), 2);
    // the slot is now set: no new area, the existing index comes back
    let (opt2, idx2) = regenerate_map(&mut m, 0, 'e');
    assert!(opt2.is_none());
    assert_eq!(idx2, 1);
    assert_eq!(m.world_map.len(), 2);
    assert_eq!(m.world_map[0].e, Some(1));
    assert_eq!(m.world_map[1].w, Some(0));
}

#[test]
fn load_map_activates_existing_area() {
    let mut m = fresh_world(3, 3);
    let (opt, idx) = regenerate_map(&mut m, 0, 'n');
    load_map(&mut m, (opt, idx));
    assert_eq!(m.area_index, 1);
    // going back south activates area 0 again without growth
    let (opt2, idx2) = regenerate_map(&mut m, 1, 's');
    assert!(opt2.is_none());
    assert_eq!(idx2, 0);
    load_map(&mut m, (opt2, idx2));
    assert_eq!(m.world_map.len(), 2);
    assert_eq!(m.area_index, 0);
    assert_eq!(m.tiles, m.world_map[0].tiles);
}

#[test]
fn is_passable_by_kind_and_bounds() {
    let mut m = WorldMap::new(2, 2);
    m.tiles[0] = Tile::Water;
    m.tiles[1] = Tile::Grass1;
    m.tiles[2] = Tile::Grass2;
    m.tiles[3] = Tile::Water;
    assert!(!m.is_passable((0, 0)));
    assert!(m.is_passable((1, 0)));
    assert!(m.is_passable((0, 1)));
    assert!(!m.is_passable((1, 1)));
    // cells beyond the grid count as open
    assert!(m.is_passable((5, 0)));
    assert!(m.is_passable((0, 9)));
}
