use tileworld::components::Physical;
use tileworld::game_state::{generate_map, Tile, WorldMap, TILE_UNITS};
use tileworld::systems::player::{MapSystem, MoveSystem};

#[test]
fn no_crossing_changes_nothing() {
    let mut m = WorldMap::new(3, 3);
    generate_map(&mut m);
    let mut phys = Physical::new((1, 1));
    let before_len = m.world_map.len();
    MapSystem::run(&mut m, &mut phys, 3 * TILE_UNITS, 3 * TILE_UNITS);
    assert_eq!(phys.get_tile_position(), (1, 1));
    assert_eq!(phys.get_location(), (0, 0));
    assert_eq!(m.world_map.len(), before_len);
    assert_eq!(m.area_index, 0);
}

#[test]
fn crossing_east_grows_and_links_world() {
    let mut m = WorldMap::new(3, 3);
    generate_map(&mut m);
    let stage = 3 * TILE_UNITS;
    let mut phys = Physical::new((1, 1));
    phys.set_x(stage + 1);
    MapSystem::run(&mut m, &mut phys, stage, stage);
    // the player wrapped to the west edge of the new area
    assert_eq!(phys.x, 0);
    assert_eq!(phys.get_location(), (1, 0));
    // the world grew by one bidirectionally linked area
    assert_eq!(m.world_map.len(), 2);
    assert_eq!(m.world_map[0].e, Some(1));
    assert_eq!(m.world_map[1].w, Some(0));
    assert_eq!(m.area_index, 1);
    assert_eq!(m.location, (1, 0));
    assert!(m.rerolled);
}

#[test]
fn crossing_back_west_reuses_the_old_area() {
    let mut m = WorldMap::new(3, 3);
    generate_map(&mut m);
    let stage = 3 * TILE_UNITS;
    let mut phys = Physical::new((1, 1));
    phys.set_x(stage + 1);
    MapSystem::run(&mut m, &mut phys, stage, stage);
    assert_eq!(m.world_map.len(), 2);
    // now walk back west: no growth, area 0 becomes active again
    phys.set_x(-1);
    MapSystem::run(&mut m, &mut phys, stage, stage);
    assert_eq!(phys.x, stage);
    assert_eq!(phys.get_location(), (0, 0));
    assert_eq!(m.world_map.len(), 2);
    assert_eq!(m.area_index, 0);
    assert_eq!(m.location, (0, 0));
}

#[test]
fn input_move_blocked_by_water() {
    let mut m = WorldMap::new(3, 3);
    m.tiles[1] = Tile::Water;  // the cell to the right of the start
    let mut phys = Physical::new((0, 0));
    MoveSystem::run(&m, &mut phys, 500, 0);
    // the probe looks nearly a tile ahead and hits the water cell
    assert_eq!(phys.x, 0);
    assert_eq!(phys.y, 0);
}

#[test]
fn input_move_walks_on_grass() {
    let m = WorldMap::new(3, 3);
    let mut phys = Physical::new((0, 0));
    MoveSystem::run(&m, &mut phys, 500, 300);
    assert_eq!(phys.x, 500);
    assert_eq!(phys.y, 300);
}

#[test]
fn crossing_north_and_south_link_vertically() {
    let mut m = WorldMap::new(3, 3);
    generate_map(&mut m);
    let stage = 3 * TILE_UNITS;
    let mut phys = Physical::new((1, 1));
    phys.set_y(stage + 5);
    MapSystem::run(&mut m, &mut phys, stage, stage);
    assert_eq!(phys.y, 0);
    assert_eq!(phys.get_location(), (0, 1));
    assert_eq!(m.world_map[0].n, Some(1));
    assert_eq!(m.world_map[1].s, Some(0));
    // and back south again
    phys.set_y(-2);
    MapSystem::run(&mut m, &mut phys, stage, stage);
    assert_eq!(phys.y, stage);
    assert_eq!(phys.get_location(), (0, 0));
    assert_eq!(m.world_map.len(), 2);
    assert_eq!(m.area_index, 0);
}

#[test]
fn tile_position_clamps_at_the_origin() {
    assert_eq!(Physical::into_tile_position((-5, 2048)), (0, 2));
    assert_eq!(Physical::into_tile_position((1023, 1024)), (0, 1));
}
