use tileworld::anchors::{build_anchor_points, Anchor};
use tileworld::components::{EntityType, Goal, GoalType, Hunger, Id, Mover, Physical, Plant};
use tileworld::game_state::{WorldMap, SIMPLE_IDLE_PRIORITY, TILE_UNITS};
use tileworld::systems::mover::{move_axis, resolve_meal, MoveSystem, RudderSystem, SimpleIdle};

fn grass_world(w: usize, h: usize) -> WorldMap {
    let mut m = WorldMap::new(w, h);
    build_anchor_points(&mut m);
    m
}

#[test]
fn move_axis_exact_clamping() {
    assert_eq!(move_axis(0, 100, 30), 30);
    assert_eq!(move_axis(0, 100, 200), 100);
    assert_eq!(move_axis(100, 0, 30), 70);
    assert_eq!(move_axis(100, 0, 500), 0);
    assert_eq!(move_axis(5, 5, 10), 5);
    assert_eq!(move_axis(-50, 20, 60), 10);
}

#[test]
fn interpolation_approaches_and_consumes_step() {
    let mut mover = Mover::new(512);
    let mut phys = Physical::new((0, 0));
    mover.set_step_vec(vec![Anchor::new(1, 0, 0, 0)], 1);
    MoveSystem::run(&mut mover, &mut phys, 1);
    assert_eq!(phys.x, 512);
    assert_eq!(phys.y, 0);
    assert_eq!(mover.steps.len(), 1);
    MoveSystem::run(&mut mover, &mut phys, 1);
    // both axes hit the target exactly, the tile matches: step consumed
    assert_eq!(phys.x, TILE_UNITS);
    assert_eq!(mover.steps.len(), 0);
}

#[test]
fn interpolation_never_overshoots() {
    let mut mover = Mover::new(65536);
    let mut phys = Physical::new((0, 0));
    phys.set_x(1000);
    mover.set_step_vec(vec![Anchor::new(1, 0, 0, 0)], 1);
    MoveSystem::run(&mut mover, &mut phys, 1);
    // a huge speed still lands exactly on the target, not past it
    assert_eq!(phys.x, TILE_UNITS);
    let mut mover2 = Mover::new(65536);
    let mut phys2 = Physical::new((2, 0));
    mover2.set_step_vec(vec![Anchor::new(1, 0, 0, 0)], 1);
    MoveSystem::run(&mut mover2, &mut phys2, 1);
    assert_eq!(phys2.x, TILE_UNITS);
}

#[test]
fn stale_area_discards_step_stack() {
    let mut mover = Mover::new(512);
    let mut phys = Physical::new((0, 0));
    mover.set_step_vec(vec![Anchor::new(1, 0, 1, 0)], 1);
    MoveSystem::run(&mut mover, &mut phys, 1);
    assert_eq!(mover.steps.len(), 0);
    assert_eq!(phys.x, 0);
}

#[test]
fn goal_queue_orders_by_priority() {
    let mut mover = Mover::new(100);
    mover.add_goal(Goal::new(10, Anchor::new(0, 0, 0, 0), GoalType::SimpleIdle));
    mover.add_goal(Goal::new(5, Anchor::new(1, 1, 0, 0), GoalType::MealGoal));
    mover.add_goal(Goal::new(7, Anchor::new(2, 2, 0, 0), GoalType::MealSearch));
    assert_eq!(mover.goals.len(), 3);
    assert_eq!(mover.get_goal().unwrap().priority, 5);
    mover.pop_goal();
    assert_eq!(mover.get_goal().unwrap().priority, 7);
    mover.pop_goal();
    assert_eq!(mover.get_goal().unwrap().priority, 10);
}

#[test]
fn meal_resolution_fills_hunger_and_resets_plant() {
    let actor = Id::new(7, EntityType::Person);
    let meal = Id::new(42, EntityType::Plant);
    let mut hungers = vec![(actor, Hunger::new(0, 100, meal))];
    let mut plants = vec![(Id::new(42, EntityType::Plant), Plant::new(700))];
    resolve_meal(&actor, &mut hungers, &mut plants);
    assert_eq!(hungers[0].1.level, 100);
    assert_eq!(hungers[0].1.meal_id, Id::nil());
    assert_eq!(plants[0].1.fruit_progress, 0);
}

#[test]
fn meal_resolution_ignores_non_plant_meal() {
    let actor = Id::new(7, EntityType::Person);
    let meal = Id::new(42, EntityType::Person);
    let mut hungers = vec![(actor, Hunger::new(3, 80, meal))];
    let mut plants = vec![(Id::new(42, EntityType::Plant), Plant::new(700))];
    resolve_meal(&actor, &mut hungers, &mut plants);
    assert_eq!(hungers[0].1.level, 80);
    assert_eq!(plants[0].1.fruit_progress, 700);
}

#[test]
fn reached_meal_goal_resolves_and_pops() {
    // Hunger{level 0, capacity 100, meal 42} and a plant with that id at 0.7
    // ripeness; a mover carrying a meal goal stands on its target
    let m = grass_world(3, 3);
    let actor = Id::new(7, EntityType::Person);
    let meal = Id::new(42, EntityType::Plant);
    let mut hungers = vec![(actor, Hunger::new(0, 100, meal))];
    let mut plants = vec![(Id::new(42, EntityType::Plant), Plant::new(700))];
    let mut mover = Mover::new(512);
    let mut phys = Physical::new((1, 1));
    phys.area = (0, 0);
    mover.add_goal(Goal::new(1, Anchor::new(1, 1, 0, 0), GoalType::MealGoal));
    RudderSystem::run(&m, &mut mover, &phys, &actor, &mut hungers, &mut plants);
    assert_eq!(hungers[0].1.level, 100);
    assert_eq!(hungers[0].1.meal_id, Id::nil());
    assert_eq!(plants[0].1.fruit_progress, 0);
    assert_eq!(mover.goals.len(), 0);
}

#[test]
fn rudder_installs_path_toward_goal_cell() {
    let m = grass_world(3, 3);
    let actor = Id::new(1, EntityType::Person);
    let mut hungers = Vec::new();
    let mut plants = Vec::new();
    let mut mover = Mover::new(512);
    let phys = Physical::new((0, 0));
    mover.add_goal(Goal::new(1, Anchor::new(2, 2, 0, 0), GoalType::SimpleIdle));
    RudderSystem::run(&m, &mut mover, &phys, &actor, &mut hungers, &mut plants);
    assert_eq!(mover.goals.len(), 1);
    assert!(!mover.steps.is_empty());
    assert_eq!(mover.steps.last().unwrap().pos, (2, 2));
}

#[test]
fn cross_area_goal_heads_for_east_gateway() {
    // a goal in area (1, 0) is first planned toward the east gateway,
    // not toward the goal's own cell
    let m = grass_world(3, 3);
    let actor = Id::new(1, EntityType::Person);
    let mut hungers = Vec::new();
    let mut plants = Vec::new();
    let mut mover = Mover::new(512);
    let phys = Physical::new((0, 0));
    mover.add_goal(Goal::new(1, Anchor::new(0, 0, 1, 0), GoalType::SimpleIdle));
    RudderSystem::run(&m, &mut mover, &phys, &actor, &mut hungers, &mut plants);
    assert_eq!(mover.goals.len(), 1);
    assert!(!mover.steps.is_empty());
    let last = mover.steps.last().unwrap();
    assert!(last.gateway);
    assert_eq!(last.pos, (2, 1));  // the east edge midpoint, not (0, 0)
    assert!(last.same_node(&Anchor::new(2, 1, 0, 0)));
}

#[test]
fn unplannable_goal_is_abandoned() {
    // the goal cell is impassable: the search cannot reach it, the goal goes
    let mut m = WorldMap::new(3, 1);
    m.tiles[1] = tileworld::game_state::Tile::Water;
    build_anchor_points(&mut m);
    let actor = Id::new(1, EntityType::Person);
    let mut hungers = Vec::new();
    let mut plants = Vec::new();
    let mut mover = Mover::new(512);
    let phys = Physical::new((0, 0));
    mover.add_goal(Goal::new(1, Anchor::new(1, 0, 0, 0), GoalType::SimpleIdle));
    RudderSystem::run(&m, &mut mover, &phys, &actor, &mut hungers, &mut plants);
    assert_eq!(mover.goals.len(), 0);
    assert!(mover.steps.is_empty());
}

#[test]
fn wander_goal_lands_on_the_grid_near_home() {
    let m = grass_world(4, 4);
    let mut mover = Mover::new(512);
    let phys = Physical::new((0, 0));
    SimpleIdle::run(&m, &mut mover, &phys);
    // on an all-grass grid every draw lands on a passable cell
    assert_eq!(mover.goals.len(), 1);
    let g = mover.get_goal().unwrap();
    assert_eq!(g.priority, SIMPLE_IDLE_PRIORITY);
    assert!(matches!(g.kind, GoalType::SimpleIdle));
    assert!(g.anchor.pos.0 < 4 && g.anchor.pos.1 < 4);
    assert!(g.anchor.area.0 >= -1 && g.anchor.area.0 <= 1);
    assert!(g.anchor.area.1 >= -1 && g.anchor.area.1 <= 1);
}

#[test]
fn wander_goal_from_exact_destination() {
    // fixed draws: offset (1, 0), destination cell (2, 3)
    let m = grass_world(4, 4);
    let mut mover = Mover::new(512);
    let phys = Physical::new((0, 0));
    SimpleIdle::wander_goal_from(&m, &mut mover, &phys, 1, 0, 2, 3);
    assert_eq!(mover.goals.len(), 1);
    let g = mover.get_goal().unwrap();
    assert_eq!(g.priority, SIMPLE_IDLE_PRIORITY);
    assert!(matches!(g.kind, GoalType::SimpleIdle));
    assert_eq!(g.anchor.pos, (2, 3));
    assert_eq!(g.anchor.area, (1, 0));
}

#[test]
fn wander_goal_from_impassable_draw_adds_nothing() {
    let mut m = WorldMap::new(3, 3);
    m.tiles[4] = tileworld::game_state::Tile::Water;
    build_anchor_points(&mut m);
    let mut mover = Mover::new(512);
    let phys = Physical::new((0, 0));
    SimpleIdle::wander_goal_from(&m, &mut mover, &phys, 0, 0, 1, 1);
    assert_eq!(mover.goals.len(), 0);
}

#[test]
fn wander_keeps_existing_goal() {
    let m = grass_world(4, 4);
    let mut mover = Mover::new(512);
    let phys = Physical::new((0, 0));
    mover.add_goal(Goal::new(2, Anchor::new(3, 3, 0, 0), GoalType::MealSearch));
    SimpleIdle::run(&m, &mut mover, &phys);
    assert_eq!(mover.goals.len(), 1);
    assert!(matches!(mover.get_goal().unwrap().kind, GoalType::MealSearch));
}
