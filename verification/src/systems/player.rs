use vstd::prelude::*;
use crate::components::{tile_coord_of, Physical};
use crate::game_state::{
    commit_rel, link_of, load_map, regen_new_rel, regenerate_map, Area, WorldMap,
    AREA_COORD_LIMIT, POS_LIMIT,
};

verus! {

/// Which boundary, if any, a position has crossed: past the east edge, past
/// the west edge, past the north edge, past the south edge — tested in that
/// order.
pub open spec fn crossed(phys: Physical, stage_w: i64, stage_h: i64) -> Option<char> {
    if phys.x > stage_w {
        Some('e')
    } else if phys.x < 0 {
        Some('w')
    } else if phys.y > stage_h {
        Some('n')
    } else if phys.y < 0 {
        Some('s')
    } else {
        None
    }
}

/// Where a crossing entity reappears: wrapped to the opposite edge, with its
/// area coordinate stepped toward the neighbor.
pub open spec fn wrapped(phys: Physical, stage_w: i64, stage_h: i64, d: char) -> Physical {
    if d == 'e' {
        Physical { x: 0, area: ((phys.area.0 + 1) as i32, phys.area.1), ..phys }
    } else if d == 'w' {
        Physical { x: stage_w, area: ((phys.area.0 - 1) as i32, phys.area.1), ..phys }
    } else if d == 'n' {
        Physical { y: 0, area: (phys.area.0, (phys.area.1 + 1) as i32), ..phys }
    } else {
        Physical { y: stage_h, area: (phys.area.0, (phys.area.1 - 1) as i32), ..phys }
    }
}

/// The active area was swapped toward direction `d`: the neighbor was looked
/// up — generated and linked first if its slot was unset — then committed and
/// activated.
pub open spec fn area_swap_rel(pre: WorldMap, post: WorldMap, d: char) -> bool {
    match link_of(pre.world_map@[pre.area_index as int], d) {
        Some(i) => commit_rel(pre, post, (None, i)),
        None => exists|na: Area, mid: WorldMap|
            {
                &&& #[trigger] regen_new_rel(
                    pre,
                    mid,
                    pre.area_index,
                    d,
                    na,
                    pre.world_map@.len() as usize,
                )
                &&& commit_rel(mid, post, (Some(na), pre.world_map@.len() as usize))
            },
    }
}

/// Resolves boundary crossings of the player and grows the world.
pub struct MapSystem;

impl MapSystem {
    /// One transition pass. While the player stays on the stage nothing
    /// happens. When it leaves across an edge, its position wraps to the
    /// opposite edge, its area coordinate steps toward the neighbor, the
    /// neighbor area is looked up — generated and linked on first visit —
    /// committed and activated, and the map's location follows the player.
    pub fn run(map: &mut WorldMap, phys: &mut Physical, stage_w: i64, stage_h: i64)
        requires
            old(map).wf(),
            old(map).active_ok(),
            0 < stage_w <= POS_LIMIT,
            0 < stage_h <= POS_LIMIT,
            -AREA_COORD_LIMIT < old(phys).area.0 < AREA_COORD_LIMIT,
            -AREA_COORD_LIMIT < old(phys).area.1 < AREA_COORD_LIMIT,
        ensures
            final(map).wf(),
            final(map).active_ok(),
            match crossed(*old(phys), stage_w, stage_h) {
                None => *final(phys) == *old(phys) && *final(map) == *old(map),
                Some(d) => {
                    &&& *final(phys) == wrapped(*old(phys), stage_w, stage_h, d)
                    &&& area_swap_rel(*old(map), *final(map), d)
                    &&& final(map).rerolled == true
                    &&& final(map).location == final(phys).area
                },
            },
    {
        let mut dir: char = ' ';
        let mut change = false;
        let (x, y) = phys.get_real_position();
        if x > stage_w {
            phys.set_x(0);
            phys.mut_area_x(1);
            dir = 'e';
            change = true;
        } else if x < 0 {
            phys.set_x(stage_w);
            phys.mut_area_x(-1);
            dir = 'w';
            change = true;
        } else if y > stage_h {
            phys.set_y(0);
            phys.mut_area_y(1);
            dir = 'n';
            change = true;
        } else if y < 0 {
            phys.set_y(stage_h);
            phys.mut_area_y(-1);
            dir = 's';
            change = true;
        }
        if change {
            let ai = map.area_index;
            let ghost pre = *map;
            let to_load = regenerate_map(map, ai, dir);
            let ghost mid = *map;
            load_map(map, to_load);
            map.location = phys.get_location();
            proof {
                match link_of(pre.world_map@[ai as int], dir) {
                    Some(i) => {},
                    None => {
                        let na = to_load.0->Some_0;
                        crate::game_state::lemma_regen_commit_bidirectional(
                            pre,
                            mid,
                            *map,
                            ai,
                            dir,
                            na,
                            to_load.1,
                        );
                        assert(to_load.1 == pre.world_map@.len() as usize);
                        assert(regen_new_rel(
                            pre,
                            mid,
                            pre.area_index,
                            dir,
                            na,
                            pre.world_map@.len() as usize,
                        ));
                        assert(commit_rel(mid, *map, (Some(na), pre.world_map@.len() as usize)));
                    },
                }
            }
        }
    }
}

/// Moves the player from input, gated by terrain passability.
pub struct MoveSystem;

impl MoveSystem {
    /// One movement tick from already-scaled input deltas. Each axis is
    /// tried in turn: the horizontal probe looks a near-tile ahead when
    /// moving right, and an axis moves only if the probed tile is passable.
    pub fn run(map: &WorldMap, phys: &mut Physical, dx: i64, dy: i64)
        requires
            map.dims_ok(),
            -POS_LIMIT <= dx <= POS_LIMIT,
            -POS_LIMIT <= dy <= POS_LIMIT,
            -POS_LIMIT <= old(phys).x <= POS_LIMIT,
            -POS_LIMIT <= old(phys).y <= POS_LIMIT,
        ensures
            final(phys).area == old(phys).area,
            final(phys).x == (if map.is_passable_spec(
                (
                    tile_coord_of(
                        (old(phys).x + dx + (if dx > 0 {
                            crate::game_state::TILE_UNITS - 1
                        } else {
                            0
                        })) as i64,
                    ) as usize,
                    tile_coord_of(old(phys).y) as usize,
                ),
            ) {
                (old(phys).x + dx) as i64
            } else {
                old(phys).x
            }),
            final(phys).y == (if map.is_passable_spec(
                (
                    tile_coord_of(final(phys).x) as usize,
                    tile_coord_of((old(phys).y + dy) as i64) as usize,
                ),
            ) {
                (old(phys).y + dy) as i64
            } else {
                old(phys).y
            }),
    {
        let (x, y) = phys.get_real_position();
        let mut nx = x + dx;
        if dx > 0 {
            nx += crate::game_state::TILE_UNITS - 1;
        }
        let probe = Physical::into_tile_position((nx, y));
        if map.is_passable(probe) {
            phys.set_x(x + dx);
        }
        let (x2, y2) = phys.get_real_position();
        let ny = y2 + dy;
        let probe2 = Physical::into_tile_position((x2, ny));
        if map.is_passable(probe2) {
            phys.set_y(y2 + dy);
        }
    }
}

} // verus!
