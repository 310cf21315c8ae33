use tileworld::anchors::build_anchor_points;
use tileworld::game_state::{Tile, WorldMap};
use tileworld::search::find_path;

fn grass_world(w: usize, h: usize) -> WorldMap {
    let mut m = WorldMap::new(w, h);
    // `WorldMap::new` fills the cache with grass; adopt it as the active field
    build_anchor_points(&mut m);
    m
}

#[test]
fn anchor_layout_for_open_grid() {
    let m = grass_world(3, 3);
    assert_eq!(m.anchor_points.len(), 4 + 9);
    assert_eq!(m.cell_anchor.len(), 9);
    for slot in m.cell_anchor.iter() {
        assert!(slot.is_some());
    }
    // west, east, north, south gateways at the edge midpoints
    assert_eq!(m.anchor_points[0].pos, (0, 1));
    assert_eq!(m.anchor_points[1].pos, (2, 1));
    assert_eq!(m.anchor_points[2].pos, (1, 2));
    assert_eq!(m.anchor_points[3].pos, (1, 0));
    for k in 0..4 {
        assert!(m.anchor_points[k].gateway);
    }
    for k in 4..m.anchor_points.len() {
        assert!(!m.anchor_points[k].gateway);
    }
    assert!(!m.rerolled);
}

#[test]
fn impassable_cells_have_no_anchor() {
    let mut m = WorldMap::new(3, 3);
    m.tiles[4] = Tile::Water;  // center cell
    build_anchor_points(&mut m);
    assert_eq!(m.anchor_points.len(), 4 + 8);
    assert!(m.cell_anchor[4].is_none());
    // nothing links to the missing center
    for a in m.anchor_points.iter() {
        for &(_, c) in a.succ.iter() {
            assert_eq!(c, 1);
        }
        if !a.gateway {
            assert_ne!(a.pos, (1, 1));
        }
    }
}

#[test]
fn find_path_same_anchor_is_empty_and_free() {
    let m = grass_world(3, 3);
    let o = m.cell_anchor[0].unwrap();
    let r = find_path(&m, o, o);
    let (steps, cost) = r.expect("trivial search succeeds");
    assert_eq!(steps.len(), 0);
    assert_eq!(cost, 0);
}

#[test]
fn find_path_follows_successor_edges_and_sums_costs() {
    let m = grass_world(3, 3);
    let o = m.cell_anchor[0].unwrap();  // cell (0, 0)
    let t = m.cell_anchor[8].unwrap();  // cell (2, 2)
    let (steps, cost) = find_path(&m, o, t).expect("open grid has a path");
    assert!(!steps.is_empty());
    // the walk ends at the goal anchor
    let last = steps.last().unwrap();
    assert_eq!(last.pos, (2, 2));
    // every consecutive pair is a successor edge, and the costs sum up
    let mut prev = o;
    let mut sum = 0usize;
    for s in steps.iter() {
        let k = m.cell_anchor[s.pos.0 + s.pos.1 * m.width].expect("step on passable cell");
        let edge = m.anchor_points[prev]
            .succ
            .iter()
            .find(|e| e.0 == k)
            .expect("consecutive steps share an edge");
        sum += edge.1;
        prev = k;
    }
    assert_eq!(sum, cost);
}

#[test]
fn find_path_fails_across_a_wall() {
    let mut m = WorldMap::new(3, 1);
    m.tiles[1] = Tile::Water;
    build_anchor_points(&mut m);
    let o = m.cell_anchor[0].unwrap();
    let t = m.cell_anchor[2].unwrap();
    assert!(find_path(&m, o, t).is_none());
}

#[test]
fn gateways_connect_to_nearest_passable_edge_cell() {
    let m = grass_world(3, 3);
    // the west gateway links both ways with the midpoint of the west edge
    let west_cell = m.cell_anchor[0 + 1 * 3].unwrap();
    assert!(m.anchor_points[0].succ.iter().any(|e| e.0 == west_cell));
    assert!(m.anchor_points[west_cell].succ.iter().any(|e| e.0 == 0));
}

#[test]
fn blocked_edge_midpoint_shifts_the_gateway_partner() {
    // the west edge midpoint (0, 1) is water: the gateway takes the nearest
    // passable cell of that edge instead, scanning outward from the midpoint
    let mut m = WorldMap::new(3, 3);
    m.tiles[0 + 1 * 3] = Tile::Water;
    build_anchor_points(&mut m);
    let shifted = m.cell_anchor[0 + 2 * 3].unwrap();  // (0, 2), checked first
    assert_eq!(m.anchor_points[0].succ.len(), 1);
    assert_eq!(m.anchor_points[0].succ[0], (shifted, 1));
    assert!(m.anchor_points[shifted].succ.iter().any(|e| e.0 == 0));
}

#[test]
fn all_water_edge_leaves_gateway_unconnected() {
    let mut m = WorldMap::new(3, 3);
    for y in 0..3 {
        m.tiles[0 + y * 3] = Tile::Water;  // whole west edge
    }
    build_anchor_points(&mut m);
    assert!(m.anchor_points[0].succ.is_empty());
}
