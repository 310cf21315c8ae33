use vstd::prelude::*;
use crate::anchors::{
    anchor_like, anchor_ok, graph_wf, lemma_cell_eq_unique, slot_ok, Anchor, GATEWAY_EAST,
    GATEWAY_NORTH, GATEWAY_SOUTH, GATEWAY_WEST,
};
use crate::components::{
    nil_id, tile_coord_of, EntityType, Goal, GoalType, Hunger, Id, Mover, Physical, Plant,
};
use crate::game_state::{
    lemma_cell_index_bound, lemma_grid_product_bound, tile_passable, WorldMap, AREA_COORD_LIMIT,
    DELTA_MAX, POS_LIMIT, SIMPLE_IDLE_PRIORITY, SPEED_LIMIT, TILE_UNITS,
};
use crate::rng::rand_below;
use crate::search::{find_path, planned_steps};

verus! {

/// One coordinate moved toward a target by at most `mv`, clamped at the
/// target.
pub open spec fn move_toward(origin: int, target: int, mv: int) -> int {
    if origin < target {
        if origin + mv <= target {
            origin + mv
        } else {
            target
        }
    } else if origin > target {
        if origin - mv >= target {
            origin - mv
        } else {
            target
        }
    } else {
        origin
    }
}

/// Advances one axis toward a target without ever overshooting it.
pub fn move_axis(origin: i64, target: i64, mv: i64) -> (r: i64)
    requires
        0 <= mv <= SPEED_LIMIT * DELTA_MAX,
        -POS_LIMIT <= origin <= POS_LIMIT,
        -POS_LIMIT <= target <= POS_LIMIT,
    ensures
        r == move_toward(origin as int, target as int, mv as int),
        origin <= target ==> origin <= r <= target,
        origin >= target ==> target <= r <= origin,
{
    if origin < target {
        if target - origin > mv {
            origin + mv
        } else {
            target
        }
    } else if origin > target {
        if origin - target > mv {
            origin - mv
        } else {
            target
        }
    } else {
        origin
    }
}

/// Steps entities along their installed paths.
pub struct MoveSystem;

impl MoveSystem {
    /// One interpolation tick for one entity. If the front step's area no
    /// longer matches the entity's area, the whole step stack is discarded to
    /// force a re-plan. Otherwise the position advances toward the step's
    /// world coordinates by speed times elapsed time along each axis
    /// independently, clamped so as never to overshoot; once both axes equal
    /// the target exactly and the tile position matches, the consumed step is
    /// popped.
    pub fn run(mover: &mut Mover, phys: &mut Physical, delta: i64)
        requires
            old(mover).wf(),
            0 <= delta <= DELTA_MAX,
            -POS_LIMIT <= old(phys).x <= POS_LIMIT,
            -POS_LIMIT <= old(phys).y <= POS_LIMIT,
        ensures
            final(mover).wf(),
            final(mover).goals == old(mover).goals,
            final(mover).speed == old(mover).speed,
            final(phys).area == old(phys).area,
            old(mover).steps@.len() == 0 ==> *final(mover) == *old(mover) && *final(phys) == *old(phys),
            old(mover).steps@.len() > 0 && old(mover).steps@[0].area != old(phys).area ==> final(mover).steps@.len() == 0 && *final(phys) == *old(phys),
            old(mover).steps@.len() > 0 && old(mover).steps@[0].area == old(phys).area ==> ({
                let a = old(mover).steps@[0];
                let mv = old(mover).speed * delta;
                let tx = a.pos.0 * TILE_UNITS;
                let ty = a.pos.1 * TILE_UNITS;
                &&& final(phys).x == move_toward(old(phys).x as int, tx, mv)
                &&& final(phys).y == move_toward(old(phys).y as int, ty, mv)
                &&& (if final(phys).x == tx && final(phys).y == ty && tile_coord_of(final(phys).x)
                    == a.pos.0 && tile_coord_of(final(phys).y) == a.pos.1 {
                    final(mover).steps@ == old(mover).steps@.remove(0)
                } else {
                    final(mover).steps == old(mover).steps
                })
                // the tick never overshoots, on either axis
                &&& (old(phys).x <= tx ==> old(phys).x <= final(phys).x <= tx)
                &&& (old(phys).x >= tx ==> tx <= final(phys).x <= old(phys).x)
                &&& (old(phys).y <= ty ==> old(phys).y <= final(phys).y <= ty)
                &&& (old(phys).y >= ty ==> ty <= final(phys).y <= old(phys).y)
            }),
    {
        let (apos, aarea) = match mover.get_step() {
            None => {
                return ;
            },
            Some(a) => (a.local(), a.area()),
        };
        if aarea.0 == phys.area.0 && aarea.1 == phys.area.1 {
            let sp = mover.speed();
            proof {
                assert(0 <= sp * delta <= SPEED_LIMIT * DELTA_MAX) by (nonlinear_arith)
                    requires 0 <= sp <= SPEED_LIMIT, 0 <= delta <= DELTA_MAX;
            }
            let mv = sp * delta;
            let (ox, oy) = phys.get_real_position();
            let tx = (apos.0 as i64) * TILE_UNITS;
            let ty = (apos.1 as i64) * TILE_UNITS;
            let nx = move_axis(ox, tx, mv);
            let ny = move_axis(oy, ty, mv);
            phys.set_x(nx);
            phys.set_y(ny);
            if nx == tx && ny == ty {
                let tp = phys.get_tile_position();
                if tp.0 == apos.0 && tp.1 == apos.1 {
                    mover.pop_step();
                }
            }
        } else {
            mover.clear_step_vec();
        }
    }
}

/// No entry of the satiety store belongs to this identifier.
pub open spec fn no_hunger(s: Seq<(Id, Hunger)>, u: u64) -> bool {
    forall|j: int| 0 <= j < s.len() ==> (#[trigger] s[j]).0.uuid != u
}

/// `k` is the first entry of the satiety store with this identifier.
pub open spec fn is_first_hunger(s: Seq<(Id, Hunger)>, u: u64, k: int) -> bool {
    &&& 0 <= k < s.len()
    &&& s[k].0.uuid == u
    &&& forall|j: int| 0 <= j < k ==> (#[trigger] s[j]).0.uuid != u
}

/// No entry of the plant store belongs to this identifier.
pub open spec fn no_plant(s: Seq<(Id, Plant)>, u: u64) -> bool {
    forall|j: int| 0 <= j < s.len() ==> (#[trigger] s[j]).0.uuid != u
}

/// `k` is the first entry of the plant store with this identifier.
pub open spec fn is_first_plant(s: Seq<(Id, Plant)>, u: u64, k: int) -> bool {
    &&& 0 <= k < s.len()
    &&& s[k].0.uuid == u
    &&& forall|j: int| 0 <= j < k ==> (#[trigger] s[j]).0.uuid != u
}

/// The meal-consumption effect on the stores: the acting entity's satiety is
/// filled to capacity and its meal reference cleared; if the recorded meal
/// was a plant, that plant's fruit progress is reset to zero; nothing else
/// moves.
pub open spec fn meal_resolution(
    u: u64,
    oh: Seq<(Id, Hunger)>,
    nh: Seq<(Id, Hunger)>,
    op: Seq<(Id, Plant)>,
    np: Seq<(Id, Plant)>,
) -> bool {
    &&& (no_hunger(oh, u) ==> nh == oh && np == op)
    &&& forall|k: int|
        #[trigger] is_first_hunger(oh, u, k) ==> {
            let meal = oh[k].1.meal_id;
            &&& nh == oh.update(
                k,
                (
                    oh[k].0,
                    Hunger { level: oh[k].1.capacity, capacity: oh[k].1.capacity, meal_id: nil_id() },
                ),
            )
            &&& (meal.kind != EntityType::Plant ==> np == op)
            &&& (meal.kind == EntityType::Plant ==> {
                &&& (no_plant(op, meal.uuid) ==> np == op)
                &&& forall|j: int|
                    #[trigger] is_first_plant(op, meal.uuid, j) ==> np == op.update(
                        j,
                        (op[j].0, Plant { fruit_progress: 0 }),
                    )
            })
        }
}

/// The first satiety entry of an identifier, scanning from the front.
fn find_hunger(hungers: &Vec<(Id, Hunger)>, u: u64) -> (r: Option<usize>)
    ensures
        match r {
            Some(k) => is_first_hunger(hungers@, u, k as int),
            None => no_hunger(hungers@, u),
        },
{
    let mut i: usize = 0;
    while i < hungers.len()
        invariant
            i <= hungers@.len(),
            forall|j: int| 0 <= j < i ==> (#[trigger] hungers@[j]).0.uuid != u,
        decreases hungers@.len() - i,
    {
        if hungers[i].0.get_uuid() == u {
            return Some(i);
        }
        i += 1;
    }
    None
}

/// The first plant entry of an identifier, scanning from the front.
fn find_plant(plants: &Vec<(Id, Plant)>, u: u64) -> (r: Option<usize>)
    ensures
        match r {
            Some(k) => is_first_plant(plants@, u, k as int),
            None => no_plant(plants@, u),
        },
{
    let mut i: usize = 0;
    while i < plants.len()
        invariant
            i <= plants@.len(),
            forall|j: int| 0 <= j < i ==> (#[trigger] plants@[j]).0.uuid != u,
        decreases plants@.len() - i,
    {
        if plants[i].0.get_uuid() == u {
            return Some(i);
        }
        i += 1;
    }
    None
}

/// Applies the meal-consumption completion effect for the acting entity.
pub fn resolve_meal(actor: &Id, hungers: &mut Vec<(Id, Hunger)>, plants: &mut Vec<(Id, Plant)>)
    ensures
        meal_resolution(actor.uuid, old(hungers)@, final(hungers)@, old(plants)@, final(plants)@),
{
    match find_hunger(hungers, actor.get_uuid()) {
        None => {},
        Some(k) => {
            let owner = hungers[k].0;
            let cap = hungers[k].1.get_capacity();
            let meal = hungers[k].1.get_meal_id();
            hungers.set(k, (owner, Hunger::new(cap, cap, Id::nil())));
            if meal.get_type() == EntityType::Plant {
                match find_plant(plants, meal.get_uuid()) {
                    None => {},
                    Some(j) => {
                        let pid = plants[j].0;
                        plants.set(j, (pid, Plant::new(0)));
                    },
                }
            }
        },
    }
}

/// The row-major index of the cell an entity stands on.
pub open spec fn mover_cell(m: WorldMap, phys: Physical) -> int {
    tile_coord_of(phys.x) + tile_coord_of(phys.y) * m.width
}

/// Which boundary gateway leads from the current area toward a goal area:
/// the horizontal axis is served before the vertical one.
pub open spec fn gateway_for(cur: (i32, i32), ga: (i32, i32)) -> usize {
    if cur.0 < ga.0 {
        GATEWAY_EAST
    } else if cur.0 > ga.0 {
        GATEWAY_WEST
    } else if cur.1 < ga.1 {
        GATEWAY_NORTH
    } else {
        GATEWAY_SOUTH
    }
}

/// The front goal's target is the cell and area the entity already stands
/// in.
pub open spec fn goal_reached(g: Goal, phys: Physical) -> bool {
    &&& g.anchor.area == phys.area
    &&& g.anchor.pos.0 == tile_coord_of(phys.x)
    &&& g.anchor.pos.1 == tile_coord_of(phys.y)
}

/// The planner abandoned the front goal; no path is installed.
pub open spec fn goal_abandoned(pre: Mover, post: Mover) -> bool {
    &&& post.goals@ == pre.goals@.remove(0)
    &&& post.steps@.len() == 0
}

/// Why no path toward a goal cell of the active area can be installed: the
/// entity's own cell has no anchor, the goal cell lies off the grid or has
/// no anchor, or no edge walk joins the two anchors.
pub open spec fn cell_plan_impossible(m: WorldMap, phys: Physical, g: Goal) -> bool {
    ||| m.cell_anchor@[mover_cell(m, phys)] is None
    ||| !(g.anchor.pos.0 < m.width && g.anchor.pos.1 < m.height)
    ||| m.cell_anchor@[g.anchor.pos.0 + g.anchor.pos.1 * m.width] is None
    ||| (match (
        m.cell_anchor@[mover_cell(m, phys)],
        m.cell_anchor@[g.anchor.pos.0 + g.anchor.pos.1 * m.width],
    ) {
        (Some(o), Some(t)) => forall|steps: Seq<Anchor>, cost: int|
            !(#[trigger] planned_steps(m, o, t, steps, cost)),
        _ => false,
    })
}

/// Why no path toward the selected boundary gateway can be installed: the
/// entity's own cell has no anchor, or no edge walk reaches that gateway.
pub open spec fn gateway_plan_impossible(m: WorldMap, phys: Physical, g: Goal) -> bool {
    ||| m.cell_anchor@[mover_cell(m, phys)] is None
    ||| (match m.cell_anchor@[mover_cell(m, phys)] {
        Some(o) => forall|steps: Seq<Anchor>, cost: int|
            !(#[trigger] planned_steps(
                m,
                o,
                gateway_for(phys.area, g.anchor.area),
                steps,
                cost,
            )),
        None => false,
    })
}

/// The outcome of planning toward a goal cell of the active area: either a
/// path from the entity's cell anchor to the goal cell's anchor is installed,
/// or the goal is abandoned — and only because a cell has no anchor or no
/// path exists.
pub open spec fn plan_to_cell(m: WorldMap, phys: Physical, g: Goal, pre: Mover, post: Mover) -> bool {
    ||| ({
        &&& exists|o: usize, t: usize|
            {
                &&& m.cell_anchor@[mover_cell(m, phys)] == Some(o)
                &&& g.anchor.pos.0 < m.width && g.anchor.pos.1 < m.height
                &&& m.cell_anchor@[g.anchor.pos.0 + g.anchor.pos.1 * m.width] == Some(t)
                &&& #[trigger] planned_steps(m, o, t, post.steps@, post.cost as int)
            }
        &&& post.goals == pre.goals
    })
    ||| (goal_abandoned(pre, post) && cell_plan_impossible(m, phys, g))
}

/// The outcome of planning toward a goal in another area: either a path from
/// the entity's cell anchor to the selected boundary gateway is installed —
/// so a non-empty path ends at that gateway — or the goal is abandoned, and
/// only because a cell has no anchor or the gateway is unreachable.
pub open spec fn plan_to_gateway(
    m: WorldMap,
    phys: Physical,
    g: Goal,
    pre: Mover,
    post: Mover,
) -> bool {
    ||| ({
        &&& exists|o: usize|
            {
                &&& m.cell_anchor@[mover_cell(m, phys)] == Some(o)
                &&& #[trigger] planned_steps(
                    m,
                    o,
                    gateway_for(phys.area, g.anchor.area),
                    post.steps@,
                    post.cost as int,
                )
            }
        &&& (post.steps@.len() > 0 ==> anchor_like(
            m.anchor_points@[gateway_for(phys.area, g.anchor.area) as int],
            post.steps@.last(),
        ))
        &&& post.goals == pre.goals
    })
    ||| (goal_abandoned(pre, post) && gateway_plan_impossible(m, phys, g))
}

/// The anchor of a grid cell, if the cell lies on the active grid and is
/// passable.
fn anchor_at(m: &WorldMap, pos: (usize, usize)) -> (r: Option<usize>)
    requires
        graph_wf(*m),
    ensures
        match r {
            Some(k) => pos.0 < m.width && pos.1 < m.height && m.cell_anchor@[pos.0 + pos.1
                * m.width] == Some(k) && k < m.anchor_points@.len(),
            None => !(pos.0 < m.width && pos.1 < m.height) || m.cell_anchor@[pos.0 + pos.1
                * m.width] is None,
        },
{
    if pos.0 < m.width && pos.1 < m.height {
        proof {
            lemma_cell_index_bound(pos.0 as int, pos.1 as int, m.width as int, m.height as int);
            lemma_grid_product_bound(m.width as int, m.height as int);
        }
        let ci = pos.0 + pos.1 * m.width;
        let slot = m.cell_anchor[ci];
        proof {
            assert(slot_ok(m.tiles@, m.anchor_points@, m.width as int, m.cell_anchor@[ci as int], ci as int));
        }
        slot
    } else {
        None
    }
}

/// Validates goals and plans paths.
pub struct RudderSystem;

impl RudderSystem {
    /// One planning pass for one entity. Nothing happens while a path is
    /// installed or while the entity is outside the active area (paths cannot
    /// be computed for inactive areas, so a pending goal waits). Otherwise the
    /// front goal is served: reached goals fire their completion effect and
    /// are popped; goals elsewhere in the active area are planned toward their
    /// cell; goals in another area are planned toward the boundary gateway
    /// that the relative area offset selects, horizontal axis first. A failed
    /// plan abandons the goal.
    #[verifier::rlimit(100)]
    pub fn run(
        map: &WorldMap,
        mover: &mut Mover,
        phys: &Physical,
        id: &Id,
        hungers: &mut Vec<(Id, Hunger)>,
        plants: &mut Vec<(Id, Plant)>,
    )
        requires
            graph_wf(*map),
            old(mover).wf(),
            -POS_LIMIT <= phys.x <= POS_LIMIT,
            -POS_LIMIT <= phys.y <= POS_LIMIT,
            map.location == phys.area ==> tile_coord_of(phys.x) < map.width && tile_coord_of(
                phys.y,
            ) < map.height,
        ensures
            final(mover).wf(),
            final(mover).speed == old(mover).speed,
            (old(mover).steps@.len() > 0 || map.location != phys.area) ==> (*final(mover) == *old(mover) && *final(hungers) == *old(hungers) && *final(plants) == *old(plants)),
            (old(mover).steps@.len() == 0 && map.location == phys.area && old(mover).goals@.len()
                == 0) ==> (*final(mover) == *old(mover) && *final(hungers) == *old(hungers) && *final(plants) == *old(plants)),
            (old(mover).steps@.len() == 0 && map.location == phys.area && old(mover).goals@.len()
                > 0 && goal_reached(old(mover).goals@[0], *phys)) ==> ({
                let g = old(mover).goals@[0];
                &&& final(mover).goals@ == old(mover).goals@.remove(0)
                &&& final(mover).steps@.len() == 0
                &&& (g.kind == GoalType::MealGoal ==> meal_resolution(
                    id.uuid,
                    old(hungers)@,
                    final(hungers)@,
                    old(plants)@,
                    final(plants)@,
                ))
                &&& (g.kind != GoalType::MealGoal ==> *final(hungers) == *old(hungers)
                    && *final(plants) == *old(plants))
            }),
            (old(mover).steps@.len() == 0 && map.location == phys.area && old(mover).goals@.len()
                > 0 && !goal_reached(old(mover).goals@[0], *phys)) ==> ({
                let g = old(mover).goals@[0];
                &&& *final(hungers) == *old(hungers)
                &&& *final(plants) == *old(plants)
                &&& (g.anchor.area == phys.area ==> plan_to_cell(
                    *map,
                    *phys,
                    g,
                    *old(mover),
                    *final(mover),
                ))
                &&& (g.anchor.area != phys.area ==> plan_to_gateway(
                    *map,
                    *phys,
                    g,
                    *old(mover),
                    *final(mover),
                ))
            }),
    {
        if !mover.is_step_vec_empty() {
            return ;
        }
        if map.location.0 != phys.area.0 || map.location.1 != phys.area.1 {
            return ;
        }
        let (g_pos, g_area, g_kind) = match mover.get_goal() {
            None => {
                return ;
            },
            Some(g) => (g.local(), g.area(), g.kind),
        };
        let tile = phys.get_tile_position();
        let same_area = g_area.0 == phys.area.0 && g_area.1 == phys.area.1;
        if same_area && tile.0 == g_pos.0 && tile.1 == g_pos.1 {
            // goal reached without stepping: fire the completion effect
            match g_kind {
                GoalType::MealGoal => {
                    resolve_meal(id, hungers, plants);
                },
                GoalType::SimpleIdle => {},
                GoalType::MealSearch => {},
            }
            mover.pop_goal();
        } else if same_area {
            let origin = anchor_at(map, tile);
            let target = anchor_at(map, g_pos);
            match (origin, target) {
                (Some(o), Some(t)) => {
                    match find_path(map, o, t) {
                        Some((v, c)) => {
                            mover.set_step_vec(v, c);
                            proof {
                                assert(planned_steps(*map, o, t, mover.steps@, mover.cost as int));
                                assert(plan_to_cell(
                                    *map,
                                    *phys,
                                    old(mover).goals@[0],
                                    *old(mover),
                                    *mover,
                                ));
                            }
                        },
                        None => {
                            mover.pop_goal();
                            proof {
                                assert(cell_plan_impossible(*map, *phys, old(mover).goals@[0]));
                            }
                        },
                    }
                },
                _ => {
                    mover.pop_goal();
                    proof {
                        assert(cell_plan_impossible(*map, *phys, old(mover).goals@[0]));
                    }
                },
            }
        } else {
            // cross-area goal: reach the boundary gateway first
            let gw: usize = if phys.area.0 < g_area.0 {
                GATEWAY_EAST
            } else if phys.area.0 > g_area.0 {
                GATEWAY_WEST
            } else if phys.area.1 < g_area.1 {
                GATEWAY_NORTH
            } else {
                GATEWAY_SOUTH
            };
            let origin = anchor_at(map, tile);
            match origin {
                Some(o) => {
                    match find_path(map, o, gw) {
                        Some((v, c)) => {
                            mover.set_step_vec(v, c);
                            proof {
                                let g = old(mover).goals@[0];
                                assert(gw == gateway_for(phys.area, g.anchor.area));
                                assert(planned_steps(
                                    *map,
                                    o,
                                    gateway_for(phys.area, g.anchor.area),
                                    mover.steps@,
                                    mover.cost as int,
                                ));
                                assert(plan_to_gateway(*map, *phys, g, *old(mover), *mover));
                            }
                        },
                        None => {
                            mover.pop_goal();
                            proof {
                                let g = old(mover).goals@[0];
                                assert(gw == gateway_for(phys.area, g.anchor.area));
                                assert(gateway_plan_impossible(*map, *phys, g));
                            }
                        },
                    }
                },
                None => {
                    mover.pop_goal();
                    proof {
                        assert(gateway_plan_impossible(*map, *phys, old(mover).goals@[0]));
                    }
                },
            }
        }
    }
}

/// A well-formed wander goal: a passable cell of the active grid, in the
/// entity's own area or one of its eight neighbors, queued at the wander
/// priority.
pub open spec fn wander_goal_ok(m: WorldMap, phys: Physical, g: Goal) -> bool {
    &&& g.kind == GoalType::SimpleIdle
    &&& g.priority == SIMPLE_IDLE_PRIORITY
    &&& g.anchor.pos.0 < m.width && g.anchor.pos.1 < m.height
    &&& tile_passable(m.tiles@[g.anchor.pos.0 + g.anchor.pos.1 * m.width])
    &&& phys.area.0 - 1 <= g.anchor.area.0 <= phys.area.0 + 1
    &&& phys.area.1 - 1 <= g.anchor.area.1 <= phys.area.1 + 1
}

/// Generates low-priority wander goals for idle entities.
pub struct SimpleIdle;

impl SimpleIdle {
    /// Turns one set of draws into at most one wander goal: if the drawn cell
    /// has an anchor, exactly one goal is queued, at the wander priority,
    /// targeting that anchor's cell in the area displaced from the entity's
    /// own by the drawn offset; a draw on an impassable cell changes nothing.
    pub fn wander_goal_from(
        map: &WorldMap,
        mover: &mut Mover,
        phys: &Physical,
        ax: i32,
        ay: i32,
        gx: usize,
        gy: usize,
    )
        requires
            graph_wf(*map),
            old(mover).wf(),
            old(mover).goals@.len() == 0,
            -1 <= ax <= 1,
            -1 <= ay <= 1,
            -AREA_COORD_LIMIT < phys.area.0 < AREA_COORD_LIMIT,
            -AREA_COORD_LIMIT < phys.area.1 < AREA_COORD_LIMIT,
            gx < map.width,
            gy < map.height,
        ensures
            final(mover).wf(),
            final(mover).steps == old(mover).steps,
            final(mover).cost == old(mover).cost,
            final(mover).speed == old(mover).speed,
            match map.cell_anchor@[gx + gy * map.width] {
                Some(k) => {
                    &&& final(mover).goals@.len() == 1
                    &&& final(mover).goals@[0].priority == SIMPLE_IDLE_PRIORITY
                    &&& final(mover).goals@[0].kind == GoalType::SimpleIdle
                    &&& final(mover).goals@[0].anchor.pos == (gx, gy)
                    &&& final(mover).goals@[0].anchor.area == (
                        ((phys.area.0 + ax) as i32),
                        ((phys.area.1 + ay) as i32),
                    )
                    &&& final(mover).goals@[0].anchor.succ@ == map.anchor_points@[k as int].succ@
                    &&& final(mover).goals@[0].anchor.gateway == map.anchor_points@[k as int].gateway
                },
                None => *final(mover) == *old(mover),
            },
    {
        proof {
            lemma_cell_index_bound(gx as int, gy as int, map.width as int, map.height as int);
            lemma_grid_product_bound(map.width as int, map.height as int);
        }
        let index = gx + gy * map.width;
        match map.cell_anchor[index] {
            Some(k) => {
                proof {
                    assert(slot_ok(
                        map.tiles@,
                        map.anchor_points@,
                        map.width as int,
                        map.cell_anchor@[index as int],
                        index as int,
                    ));
                    assert(anchor_ok(*map, k as int));
                    let jp = map.anchor_points@[k as int].pos;
                    lemma_cell_eq_unique(
                        jp.0 as int,
                        jp.1 as int,
                        gx as int,
                        gy as int,
                        map.width as int,
                    );
                }
                let mut dest = map.anchor_points[k].duplicate();
                dest.set_area((phys.area.0 + ax, phys.area.1 + ay));
                let goal = Goal::new(SIMPLE_IDLE_PRIORITY, dest, GoalType::SimpleIdle);
                let ghost gv = goal;
                mover.add_goal(goal);
                proof {
                    let ins = choose|ins: int|
                        0 <= ins <= old(mover).goals@.len() && mover.goals@ == old(mover).goals@.insert(ins, gv);
                    assert(ins == 0);
                    assert(mover.goals@[0] == gv);
                }
            },
            None => {},
        }
    }

    /// Gives an entity without a goal a wander goal: a destination cell drawn
    /// uniformly over the active grid, tagged with an area offset that is
    /// (0, 0) with probability 0.8 and otherwise drawn uniformly from the
    /// eight-neighborhood. A draw that lands on an impassable cell produces
    /// no goal this tick. What becomes of given draws is fixed by
    /// `wander_goal_from`, which this only feeds.
    pub fn run(map: &WorldMap, mover: &mut Mover, phys: &Physical)
        requires
            graph_wf(*map),
            old(mover).wf(),
            -AREA_COORD_LIMIT < phys.area.0 < AREA_COORD_LIMIT,
            -AREA_COORD_LIMIT < phys.area.1 < AREA_COORD_LIMIT,
        ensures
            final(mover).wf(),
            final(mover).steps == old(mover).steps,
            final(mover).cost == old(mover).cost,
            final(mover).speed == old(mover).speed,
            old(mover).goals@.len() > 0 ==> final(mover).goals == old(mover).goals,
            old(mover).goals@.len() == 0 ==> (final(mover).goals == old(mover).goals || (final(mover).goals@.len() == 1 && wander_goal_ok(*map, *phys, final(mover).goals@[0]))),
    {
        match mover.get_goal() {
            Some(_) => {
                return ;
            },
            None => {},
        }
        let mut ax: i32 = rand_below(3) as i32 - 1;
        let mut ay: i32 = rand_below(3) as i32 - 1;
        if rand_below(5) < 4 {
            ax = 0;
            ay = 0;
        }
        let gx = rand_below(map.width as u32) as usize;
        let gy = rand_below(map.height as u32) as usize;
        Self::wander_goal_from(map, mover, phys, ax, ay, gx, gy);
        proof {
            lemma_cell_index_bound(gx as int, gy as int, map.width as int, map.height as int);
            match map.cell_anchor@[gx + gy * map.width] {
                Some(k) => {
                    assert(slot_ok(
                        map.tiles@,
                        map.anchor_points@,
                        map.width as int,
                        map.cell_anchor@[gx + gy * map.width],
                        gx + gy * map.width,
                    ));
                    assert(wander_goal_ok(*map, *phys, mover.goals@[0]));
                },
                None => {},
            }
        }
    }
}

} // verus!
