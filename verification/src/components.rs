use vstd::prelude::*;
use crate::anchors::{anchor_pos_ok, Anchor};
use crate::game_state::{AREA_COORD_LIMIT, POS_LIMIT, SPEED_LIMIT, TILE_UNITS};

verus! {

/// The kind of entity an `Id` refers to.
#[derive(Clone, Copy, PartialEq, Eq, Structural, Debug)]
pub enum EntityType {
    Nil,
    Person,
    Plant,
}

/// A unique identifier together with the kind of entity it names.
#[derive(Clone, Copy, PartialEq, Eq, Structural, Debug)]
pub struct Id {
    pub uuid: u64,
    pub kind: EntityType,
}

impl Id {
    pub fn new(uuid: u64, kind: EntityType) -> (r: Id)
        ensures
            r.uuid == uuid,
            r.kind == kind,
    {
        Id { uuid, kind }
    }

    /// The reserved identifier that names nothing.
    pub fn nil() -> (r: Id)
        ensures
            r.uuid == 0,
            r.kind == EntityType::Nil,
    {
        Id { uuid: 0, kind: EntityType::Nil }
    }

    pub fn get_uuid(&self) -> (r: u64)
        ensures
            r == self.uuid,
    {
        self.uuid
    }

    pub fn get_type(&self) -> (r: EntityType)
        ensures
            r == self.kind,
    {
        self.kind
    }
}

/// The reserved identifier value that names nothing.
pub open spec fn nil_id() -> Id {
    Id { uuid: 0, kind: EntityType::Nil }
}

/// Satiety level, capacity, and the id of a designated meal target.
#[derive(Clone, Copy, PartialEq, Eq, Structural, Debug)]
pub struct Hunger {
    pub level: u32,
    pub capacity: u32,
    pub meal_id: Id,
}

impl Hunger {
    pub fn new(level: u32, capacity: u32, meal_id: Id) -> (r: Hunger)
        ensures
            r.level == level,
            r.capacity == capacity,
            r.meal_id == meal_id,
    {
        Hunger { level, capacity, meal_id }
    }

    pub fn get_meal_id(&self) -> (r: Id)
        ensures
            r == self.meal_id,
    {
        self.meal_id
    }

    pub fn set_meal_id(&mut self, id: Id)
        ensures
            *final(self) == (Hunger { meal_id: id, ..*old(self) }),
    {
        self.meal_id = id;
    }

    pub fn get_capacity(&self) -> (r: u32)
        ensures
            r == self.capacity,
    {
        self.capacity
    }

    pub fn get_hunger(&self) -> (r: u32)
        ensures
            r == self.level,
    {
        self.level
    }

    pub fn set_hunger(&mut self, level: u32)
        ensures
            *final(self) == (Hunger { level, ..*old(self) }),
    {
        self.level = level;
    }
}

/// Ripeness of an entity's fruit, in thousandths of full ripeness.
#[derive(Clone, Copy, PartialEq, Eq, Structural, Debug)]
pub struct Plant {
    pub fruit_progress: u32,
}

impl Plant {
    pub fn new(fruit_progress: u32) -> (r: Plant)
        ensures
            r.fruit_progress == fruit_progress,
    {
        Plant { fruit_progress }
    }

    pub fn get_fruit_progress(&self) -> (r: u32)
        ensures
            r == self.fruit_progress,
    {
        self.fruit_progress
    }

    pub fn set_fruit_progress(&mut self, p: u32)
        ensures
            final(self).fruit_progress == p,
    {
        self.fruit_progress = p;
    }
}

/// An entity's continuous sub-tile position (in fixed-point units, one tile
/// side being `TILE_UNITS`) and the coordinate of the area it stands in.
#[derive(Clone, Copy, Debug)]
pub struct Physical {
    pub x: i64,
    pub y: i64,
    pub area: (i32, i32),
}

/// The tile column or row that a fixed-point coordinate falls in; coordinates
/// left of or below the area origin count as the first tile.
pub open spec fn tile_coord_of(v: i64) -> int {
    if v <= 0 {
        0
    } else {
        v as int / TILE_UNITS as int
    }
}

impl Physical {
    /// Places the entity at the origin area, at the given tile.
    pub fn new(tile: (usize, usize)) -> (r: Physical)
        requires
            tile.0 * TILE_UNITS <= POS_LIMIT,
            tile.1 * TILE_UNITS <= POS_LIMIT,
        ensures
            r.x == tile.0 * TILE_UNITS,
            r.y == tile.1 * TILE_UNITS,
            r.area == (0i32, 0i32),
    {
        Physical { x: (tile.0 as i64) * TILE_UNITS, y: (tile.1 as i64) * TILE_UNITS, area: (0, 0) }
    }

    /// The tile a continuous position falls in.
    pub fn into_tile_position(p: (i64, i64)) -> (r: (usize, usize))
        requires
            p.0 <= 4 * POS_LIMIT,
            p.1 <= 4 * POS_LIMIT,
        ensures
            r.0 == tile_coord_of(p.0),
            r.1 == tile_coord_of(p.1),
    {
        let tx: i64 = if p.0 <= 0 {
            0
        } else {
            p.0 / TILE_UNITS
        };
        let ty: i64 = if p.1 <= 0 {
            0
        } else {
            p.1 / TILE_UNITS
        };
        (tx as usize, ty as usize)
    }

    pub fn get_real_position(&self) -> (r: (i64, i64))
        ensures
            r == (self.x, self.y),
    {
        (self.x, self.y)
    }

    pub fn get_tile_position(&self) -> (r: (usize, usize))
        requires
            self.x <= 4 * POS_LIMIT,
            self.y <= 4 * POS_LIMIT,
        ensures
            r.0 == tile_coord_of(self.x),
            r.1 == tile_coord_of(self.y),
    {
        Self::into_tile_position((self.x, self.y))
    }

    pub fn get_location(&self) -> (r: (i32, i32))
        ensures
            r == self.area,
    {
        self.area
    }

    pub fn set_x(&mut self, v: i64)
        ensures
            *final(self) == (Physical { x: v, ..*old(self) }),
    {
        self.x = v;
    }

    pub fn set_y(&mut self, v: i64)
        ensures
            *final(self) == (Physical { y: v, ..*old(self) }),
    {
        self.y = v;
    }

    pub fn mut_x(&mut self, d: i64)
        requires
            i64::MIN <= old(self).x + d <= i64::MAX,
        ensures
            *final(self) == (Physical { x: (old(self).x + d) as i64, ..*old(self) }),
    {
        self.x = self.x + d;
    }

    pub fn mut_y(&mut self, d: i64)
        requires
            i64::MIN <= old(self).y + d <= i64::MAX,
        ensures
            *final(self) == (Physical { y: (old(self).y + d) as i64, ..*old(self) }),
    {
        self.y = self.y + d;
    }

    pub fn mut_area_x(&mut self, d: i32)
        requires
            -AREA_COORD_LIMIT <= old(self).area.0 + d <= AREA_COORD_LIMIT,
        ensures
            *final(self) == (Physical {
                area: ((old(self).area.0 + d) as i32, old(self).area.1),
                ..*old(self)
            }),
    {
        self.area = (self.area.0 + d, self.area.1);
    }

    pub fn mut_area_y(&mut self, d: i32)
        requires
            -AREA_COORD_LIMIT <= old(self).area.1 + d <= AREA_COORD_LIMIT,
        ensures
            *final(self) == (Physical {
                area: (old(self).area.0, (old(self).area.1 + d) as i32),
                ..*old(self)
            }),
    {
        self.area = (self.area.0, self.area.1 + d);
    }
}

/// What a goal asks for once its anchor is reached.
#[derive(Clone, Copy, PartialEq, Eq, Structural, Debug)]
pub enum GoalType {
    SimpleIdle,
    MealSearch,
    MealGoal,
}

/// A priority value, a target anchor (with target area coordinate), and a
/// goal-kind tag. Lower priority values are served first.
pub struct Goal {
    pub priority: usize,
    pub anchor: Anchor,
    pub kind: GoalType,
}

impl Goal {
    pub fn new(priority: usize, anchor: Anchor, kind: GoalType) -> (r: Goal)
        ensures
            r.priority == priority,
            r.anchor == anchor,
            r.kind == kind,
    {
        Goal { priority, anchor, kind }
    }

    /// The target grid cell within the target area.
    pub fn local(&self) -> (r: (usize, usize))
        ensures
            r == self.anchor.pos,
    {
        self.anchor.pos
    }

    /// The target area coordinate.
    pub fn area(&self) -> (r: (i32, i32))
        ensures
            r == self.anchor.area,
    {
        self.anchor.area
    }
}

/// The goal queue is kept ordered: most urgent (lowest priority value) first.
pub open spec fn goals_sorted(s: Seq<Goal>) -> bool {
    forall|i: int, j: int| 0 <= i < j < s.len() ==> s[i].priority <= s[j].priority
}

/// A per-entity control state: an ordered-by-priority queue of goals, the
/// current path as a step stack of anchors (front first) with its total cost,
/// and a movement speed in fixed-point units per time unit.
pub struct Mover {
    pub goals: Vec<Goal>,
    pub steps: Vec<Anchor>,
    pub cost: usize,
    pub speed: i64,
}

impl Mover {
    pub open spec fn wf(self) -> bool {
        &&& goals_sorted(self.goals@)
        &&& forall|i: int| 0 <= i < self.steps@.len() ==> anchor_pos_ok(#[trigger] self.steps@[i])
        &&& 0 <= self.speed <= SPEED_LIMIT
    }

    pub fn new(speed: i64) -> (r: Mover)
        requires
            0 <= speed <= SPEED_LIMIT,
        ensures
            r.wf(),
            r.goals@.len() == 0,
            r.steps@.len() == 0,
            r.cost == 0,
            r.speed == speed,
    {
        Mover { goals: Vec::new(), steps: Vec::new(), cost: 0, speed }
    }

    pub fn speed(&self) -> (r: i64)
        ensures
            r == self.speed,
    {
        self.speed
    }

    /// The most urgent goal, if any.
    pub fn get_goal(&self) -> (r: Option<&Goal>)
        ensures
            match r {
                Some(g) => self.goals@.len() > 0 && *g == self.goals@[0],
                None => self.goals@.len() == 0,
            },
    {
        if self.goals.len() > 0 {
            Some(&self.goals[0])
        } else {
            None
        }
    }

    pub fn pop_goal(&mut self)
        requires
            old(self).goals@.len() > 0,
        ensures
            final(self).goals@ == old(self).goals@.remove(0),
            final(self).steps == old(self).steps,
            final(self).cost == old(self).cost,
            final(self).speed == old(self).speed,
            old(self).wf() ==> final(self).wf(),
    {
        self.goals.remove(0);
    }

    /// Inserts a goal, keeping the queue ordered by priority; among equal
    /// priorities the newcomer goes last.
    pub fn add_goal(&mut self, g: Goal)
        requires
            old(self).wf(),
        ensures
            final(self).wf(),
            final(self).goals@.len() == old(self).goals@.len() + 1,
            exists|k: int|
                0 <= k <= old(self).goals@.len() && final(self).goals@ == old(
                    self,
                ).goals@.insert(k, g),
            final(self).steps == old(self).steps,
            final(self).cost == old(self).cost,
            final(self).speed == old(self).speed,
    {
        let mut k: usize = 0;
        while k < self.goals.len() && self.goals[k].priority <= g.priority
            invariant
                k <= self.goals@.len(),
                forall|i: int| 0 <= i < k ==> self.goals@[i].priority <= g.priority,
                *self == *old(self),
            decreases self.goals@.len() - k,
        {
            k += 1;
        }
        proof {
            assert(forall|j: int|
                k <= j < self.goals@.len() ==> g.priority <= #[trigger] self.goals@[j].priority);
        }
        self.goals.insert(k, g);
    }

    /// The next step to walk, if a path is installed.
    pub fn get_step(&self) -> (r: Option<&Anchor>)
        ensures
            match r {
                Some(a) => self.steps@.len() > 0 && *a == self.steps@[0],
                None => self.steps@.len() == 0,
            },
    {
        if self.steps.len() > 0 {
            Some(&self.steps[0])
        } else {
            None
        }
    }

    pub fn pop_step(&mut self)
        requires
            old(self).steps@.len() > 0,
        ensures
            final(self).steps@ == old(self).steps@.remove(0),
            final(self).goals == old(self).goals,
            final(self).cost == old(self).cost,
            final(self).speed == old(self).speed,
            old(self).wf() ==> final(self).wf(),
    {
        self.steps.remove(0);
    }

    /// Installs a freshly planned path and its total cost.
    pub fn set_step_vec(&mut self, v: Vec<Anchor>, c: usize)
        requires
            forall|i: int| 0 <= i < v@.len() ==> anchor_pos_ok(#[trigger] v@[i]),
        ensures
            final(self).steps == v,
            final(self).cost == c,
            final(self).goals == old(self).goals,
            final(self).speed == old(self).speed,
            old(self).wf() ==> final(self).wf(),
    {
        self.steps = v;
        self.cost = c;
    }

    /// Discards the current path, forcing a re-plan.
    pub fn clear_step_vec(&mut self)
        ensures
            final(self).steps@.len() == 0,
            final(self).cost == 0,
            final(self).goals == old(self).goals,
            final(self).speed == old(self).speed,
            old(self).wf() ==> final(self).wf(),
    {
        self.steps = Vec::new();
        self.cost = 0;
    }

    pub fn is_step_vec_empty(&self) -> (r: bool)
        ensures
            r == (self.steps@.len() == 0),
    {
        self.steps.len() == 0
    }
}

} // verus!
