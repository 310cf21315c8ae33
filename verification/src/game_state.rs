use vstd::prelude::*;
use crate::anchors::Anchor;
use crate::components::Id;
use crate::rng::rand_below;

verus! {

/// Side of a square tile in pixels, as the outside stage measures it.
pub const TILE_SIZE: usize = 16;

/// Side of a square tile in the fixed-point units that positions use.
pub const TILE_UNITS: i64 = 1024;

/// Largest area side, in tiles.
pub const GRID_MAX: usize = 4096;

/// Bound on fixed-point coordinates of entities within an area.
pub const POS_LIMIT: i64 = 0x1000_0000;

/// Bound on area coordinates.
pub const AREA_COORD_LIMIT: i32 = 0x1000_0000;

/// Bound on a mover's speed, in fixed-point units per time unit.
pub const SPEED_LIMIT: i64 = 0x10000;

/// Bound on the time units handed to one interpolation tick.
pub const DELTA_MAX: i64 = 0x10000;

/// Fixed size of the per-map entity id table.
pub const ENTITY_LIM: usize = 100;

/// How many wandering persons the outside setup spawns.
pub const PERSON_NUM: u32 = 15;

/// Player speed in fixed-point units per time unit.
pub const PLAYER_SPEED: i64 = 80;

/// Priority value of a wander goal; higher values yield to lower ones.
pub const SIMPLE_IDLE_PRIORITY: usize = 10;

/// Terrain kinds. Passability is a function of the kind alone.
#[derive(Clone, Copy, PartialEq, Eq, Structural, Debug)]
pub enum Tile {
    Grass1,
    Grass2,
    Water,
}

/// How many terrain kinds exist; terrain generation draws uniformly below it.
pub const TILE_KIND_COUNT: u32 = 3;

pub open spec fn tile_from_spec(v: u32) -> Tile {
    if v == 0 {
        Tile::Grass1
    } else if v == 1 {
        Tile::Grass2
    } else {
        Tile::Water
    }
}

pub open spec fn tile_passable(t: Tile) -> bool {
    match t {
        Tile::Grass1 => true,
        Tile::Grass2 => true,
        Tile::Water => false,
    }
}

/// The terrain kind that a drawn number stands for.
pub fn tile_from_u32(v: u32) -> (t: Tile)
    ensures
        t == tile_from_spec(v),
{
    if v == 0 {
        Tile::Grass1
    } else if v == 1 {
        Tile::Grass2
    } else {
        Tile::Water
    }
}

impl Tile {
    pub fn is_passable(&self) -> (r: bool)
        ensures
            r == tile_passable(*self),
    {
        match self {
            Tile::Grass1 => true,
            Tile::Grass2 => true,
            Tile::Water => false,
        }
    }
}

/// One fixed-size tile region of the world. Each neighbor slot is either the
/// index of the adjacent area in the world list or `None` while that neighbor
/// has not been generated yet.
pub struct Area {
    pub tiles: Vec<Tile>,
    pub n: Option<usize>,
    pub e: Option<usize>,
    pub w: Option<usize>,
    pub s: Option<usize>,
}

pub open spec fn is_direction(d: char) -> bool {
    d == 'n' || d == 'e' || d == 'w' || d == 's'
}

pub open spec fn opposite(d: char) -> char {
    if d == 'n' {
        's'
    } else if d == 's' {
        'n'
    } else if d == 'e' {
        'w'
    } else {
        'e'
    }
}

pub open spec fn link_of(a: Area, d: char) -> Option<usize> {
    if d == 'n' {
        a.n
    } else if d == 'e' {
        a.e
    } else if d == 'w' {
        a.w
    } else {
        a.s
    }
}

/// The same area with one neighbor slot replaced.
pub open spec fn with_link(a: Area, d: char, v: Option<usize>) -> Area {
    if d == 'n' {
        Area { n: v, ..a }
    } else if d == 'e' {
        Area { e: v, ..a }
    } else if d == 'w' {
        Area { w: v, ..a }
    } else {
        Area { s: v, ..a }
    }
}

pub open spec fn opt_index_below(o: Option<usize>, n: int) -> bool {
    match o {
        Some(v) => v < n,
        None => true,
    }
}

impl Area {
    pub fn new() -> (a: Area)
        ensures
            a.tiles@.len() == 0,
            a.n is None,
            a.e is None,
            a.w is None,
            a.s is None,
    {
        Area { tiles: Vec::new(), n: None, e: None, w: None, s: None }
    }

    /// The neighbor slot for a direction.
    pub fn link_get(&self, d: char) -> (r: Option<usize>)
        requires
            is_direction(d),
        ensures
            r == link_of(*self, d),
    {
        if d == 'n' {
            self.n
        } else if d == 'e' {
            self.e
        } else if d == 'w' {
            self.w
        } else {
            self.s
        }
    }

    /// Replaces the neighbor slot for a direction.
    pub fn link_set(&mut self, d: char, v: Option<usize>)
        requires
            is_direction(d),
        ensures
            *final(self) == with_link(*old(self), d, v),
    {
        if d == 'n' {
            self.n = v;
        } else if d == 'e' {
            self.e = v;
        } else if d == 'w' {
            self.w = v;
        } else {
            self.s = v;
        }
    }
}

/// The growable world of areas, the index and coordinate of the active one,
/// a cached copy of the active area's tiles, and the navigation graph that is
/// rebuilt whenever the active area changes.
pub struct WorldMap {
    pub width: usize,
    pub height: usize,
    pub tiles: Vec<Tile>,
    pub entities: Vec<Id>,
    pub world_map: Vec<Area>,
    pub area_index: usize,
    pub location: (i32, i32),
    pub rerolled: bool,
    pub anchor_points: Vec<Anchor>,
    pub cell_anchor: Vec<Option<usize>>,
}

impl WorldMap {
    /// The grid dimensions are positive, bounded, and the active tile cache
    /// covers the grid.
    pub open spec fn dims_ok(self) -> bool {
        &&& 1 <= self.width <= GRID_MAX
        &&& 1 <= self.height <= GRID_MAX
        &&& self.tiles@.len() == self.width * self.height
    }

    /// Every committed area carries a full grid of tiles.
    pub open spec fn areas_ok(self) -> bool {
        forall|i: int|
            0 <= i < self.world_map@.len() ==> (#[trigger] self.world_map@[i]).tiles@.len()
                == self.width * self.height
    }

    /// Every set neighbor slot points into the world list.
    pub open spec fn links_ok(self) -> bool {
        forall|i: int|
            0 <= i < self.world_map@.len() ==> {
                let a = #[trigger] self.world_map@[i];
                &&& opt_index_below(a.n, self.world_map@.len() as int)
                &&& opt_index_below(a.e, self.world_map@.len() as int)
                &&& opt_index_below(a.w, self.world_map@.len() as int)
                &&& opt_index_below(a.s, self.world_map@.len() as int)
            }
    }

    pub open spec fn wf(self) -> bool {
        self.dims_ok() && self.areas_ok() && self.links_ok()
    }

    /// The active index denotes a committed area.
    pub open spec fn active_ok(self) -> bool {
        self.area_index < self.world_map@.len()
    }

    pub fn new(width: usize, height: usize) -> (m: WorldMap)
        requires
            1 <= width <= GRID_MAX,
            1 <= height <= GRID_MAX,
        ensures
            m.width == width,
            m.height == height,
            m.dims_ok(),
            m.wf(),
            m.world_map@.len() == 0,
            m.entities@.len() == ENTITY_LIM,
            forall|i: int|
                0 <= i < m.entities@.len() ==> #[trigger] m.entities@[i]
                    == crate::components::nil_id(),
            forall|i: int| 0 <= i < m.tiles@.len() ==> #[trigger] m.tiles@[i] == Tile::Grass1,
            m.area_index == 0,
            m.location == (0i32, 0i32),
            m.rerolled == false,
            m.anchor_points@.len() == 0,
            m.cell_anchor@.len() == 0,
    {
        proof {
            lemma_grid_product_bound(width as int, height as int);
        }
        let nil = Id::nil();
        WorldMap {
            width,
            height,
            tiles: vec![Tile::Grass1; width * height],
            entities: vec![nil; ENTITY_LIM],
            world_map: Vec::new(),
            area_index: 0,
            location: (0, 0),
            rerolled: false,
            anchor_points: Vec::new(),
            cell_anchor: Vec::new(),
        }
    }

    /// Whether an entity may stand on a tile. Cells beyond the active grid
    /// count as open, so that walking off the stage can reach the boundary
    /// crossing that swaps areas.
    pub open spec fn is_passable_spec(self, pos: (usize, usize)) -> bool {
        if pos.0 < self.width && pos.1 < self.height {
            tile_passable(self.tiles@[pos.0 + pos.1 * self.width])
        } else {
            true
        }
    }

    pub fn is_passable(&self, pos: (usize, usize)) -> (r: bool)
        requires
            self.dims_ok(),
        ensures
            r == self.is_passable_spec(pos),
    {
        if pos.0 < self.width && pos.1 < self.height {
            proof {
                lemma_cell_index_bound(pos.0 as int, pos.1 as int, self.width as int, self.height as int);
                lemma_grid_product_bound(self.width as int, self.height as int);
            }
            self.tiles[pos.0 + pos.1 * self.width].is_passable()
        } else {
            true
        }
    }
}

/// The distance between two integers.
pub open spec fn abs_diff_spec(a: int, b: int) -> int {
    if a >= b {
        a - b
    } else {
        b - a
    }
}

/// A bounded grid's cell count fits comfortably in a machine word.
pub proof fn lemma_grid_product_bound(w: int, h: int)
    requires
        0 <= w <= GRID_MAX,
        0 <= h <= GRID_MAX,
    ensures
        0 <= w * h <= GRID_MAX * GRID_MAX,
{
    assert(0 <= w * h <= GRID_MAX * GRID_MAX) by (nonlinear_arith)
        requires 0 <= w <= GRID_MAX && 0 <= h <= GRID_MAX;
}

/// A cell's row-major index lies within the grid.
pub proof fn lemma_cell_index_bound(x: int, y: int, w: int, h: int)
    requires
        0 <= x < w,
        0 <= y < h,
    ensures
        0 <= x + y * w < w * h,
    decreases h,
{
    if y == h - 1 {
        assert(x + y * w < w + y * w);
        assert(w + (h - 1) * w == w * h) by (nonlinear_arith);
    } else {
        lemma_cell_index_bound(x, y, w, h - 1);
        assert(w * (h - 1) <= w * h) by (nonlinear_arith)
            requires w >= 1 && h >= 1;
    }
}

/// What a fresh `regenerate_map` leaves behind: the reserved index equals the
/// world length at call time, the produced area has a full random tile grid
/// and exactly one link, back to the requesting area, the requesting area's
/// slot now holds the reserved index, the active tile cache shows the new
/// tiles, and nothing else moved.
pub open spec fn regen_new_rel(
    pre: WorldMap,
    post: WorldMap,
    area_index: usize,
    d: char,
    na: Area,
    idx: usize,
) -> bool {
    &&& idx == pre.world_map@.len()
    &&& na.tiles@.len() == pre.tiles@.len()
    &&& na.n == (if opposite(d) == 'n' { Some(area_index) } else { None::<usize> })
    &&& na.e == (if opposite(d) == 'e' { Some(area_index) } else { None::<usize> })
    &&& na.w == (if opposite(d) == 'w' { Some(area_index) } else { None::<usize> })
    &&& na.s == (if opposite(d) == 's' { Some(area_index) } else { None::<usize> })
    &&& post.world_map@ == pre.world_map@.update(
        area_index as int,
        with_link(pre.world_map@[area_index as int], d, Some(idx)),
    )
    &&& post.tiles@ == na.tiles@
    &&& post.width == pre.width
    &&& post.height == pre.height
    &&& post.entities == pre.entities
    &&& post.area_index == pre.area_index
    &&& post.location == pre.location
    &&& post.rerolled == pre.rerolled
    &&& post.anchor_points == pre.anchor_points
    &&& post.cell_anchor == pre.cell_anchor
}

/// What `load_map` (the commit-and-activate step) leaves behind: a produced
/// area is appended, the given index becomes active, the active tile cache is
/// copied from the now-active area, and the freshly-activated flag is set.
pub open spec fn commit_rel(pre: WorldMap, post: WorldMap, to_load: (Option<Area>, usize)) -> bool {
    &&& post.world_map@ == (match to_load.0 {
        Some(a) => pre.world_map@.push(a),
        None => pre.world_map@,
    })
    &&& post.area_index == to_load.1
    &&& (to_load.1 as int) < post.world_map@.len()
    &&& post.tiles@ == post.world_map@[to_load.1 as int].tiles@
    &&& post.rerolled == true
    &&& post.width == pre.width
    &&& post.height == pre.height
    &&& post.entities == pre.entities
    &&& post.anchor_points == pre.anchor_points
    &&& post.cell_anchor == pre.cell_anchor
}

/// Looks up the neighbor of an area in a direction. If the slot is set, the
/// existing index comes back and the map is untouched. Otherwise a new area
/// is produced: its tiles are drawn independently and uniformly at random
/// over the terrain kinds, its link opposite to `direction` is set back to
/// `area_index`, the requesting area's slot is set to the reserved index (the
/// current world length), and the active tile cache previews the new tiles.
/// The new area is not yet appended: `load_map` must commit the result in the
/// same logical step.
pub fn regenerate_map(map: &mut WorldMap, area_index: usize, direction: char) -> (r: (
    Option<Area>,
    usize,
))
    requires
        old(map).dims_ok(),
        is_direction(direction),
        area_index < old(map).world_map@.len(),
    ensures
        match link_of(old(map).world_map@[area_index as int], direction) {
            Some(i) => r.0 is None && r.1 == i && *final(map) == *old(map),
            None => r.0 matches Some(na) && regen_new_rel(
                *old(map),
                *final(map),
                area_index,
                direction,
                na,
                r.1,
            ),
        },
{
    let slot = map.world_map[area_index].link_get(direction);
    match slot {
        Some(i) => (None, i),
        None => {
            let mut area = Area::new();
            let len = map.tiles.len();
            let mut i: usize = 0;
            while i < len
                invariant
                    i <= len,
                    len == map.tiles@.len(),
                    map.width == old(map).width,
                    map.height == old(map).height,
                    map.entities == old(map).entities,
                    map.world_map == old(map).world_map,
                    map.area_index == old(map).area_index,
                    map.location == old(map).location,
                    map.rerolled == old(map).rerolled,
                    map.anchor_points == old(map).anchor_points,
                    map.cell_anchor == old(map).cell_anchor,
                    area.tiles@.len() == i,
                    area.n is None,
                    area.e is None,
                    area.w is None,
                    area.s is None,
                    forall|j: int| 0 <= j < i ==> map.tiles@[j] == area.tiles@[j],
                decreases len - i,
            {
                let t = tile_from_u32(rand_below(TILE_KIND_COUNT));
                area.tiles.push(t);
                map.tiles.set(i, t);
                i += 1;
            }
            proof {
                assert(map.tiles@ =~= area.tiles@);
            }
            area.link_set(opposite_dir(direction), Some(area_index));
            let reserved = map.world_map.len();
            let slot_area = &mut map.world_map[area_index];
            slot_area.link_set(direction, Some(reserved));
            proof {
                assert(map.world_map@ =~= old(map).world_map@.update(
                    area_index as int,
                    with_link(old(map).world_map@[area_index as int], direction, Some(reserved)),
                ));
            }
            (Some(area), reserved)
        },
    }
}

/// The executable mirror of `opposite`.
pub fn opposite_dir(d: char) -> (r: char)
    requires
        is_direction(d),
    ensures
        r == opposite(d),
        is_direction(r),
{
    if d == 'n' {
        's'
    } else if d == 's' {
        'n'
    } else if d == 'e' {
        'w'
    } else {
        'e'
    }
}

/// Commits the outcome of `regenerate_map` and activates the area: a produced
/// area is appended at the reserved index, the index becomes active, the
/// active tile cache is copied from that area, and the map is marked freshly
/// activated so the anchor graph gets rebuilt.
pub fn load_map(map: &mut WorldMap, to_load: (Option<Area>, usize))
    requires
        old(map).dims_ok(),
        match to_load.0 {
            Some(a) => to_load.1 == old(map).world_map@.len() && a.tiles@.len() == old(
                map,
            ).tiles@.len(),
            None => to_load.1 < old(map).world_map@.len() && old(map).world_map@[to_load.1 as int].tiles@.len()
                == old(map).tiles@.len(),
        },
    ensures
        commit_rel(*old(map), *final(map), to_load),
        final(map).location == old(map).location,
        final(map).dims_ok(),
        old(map).wf() && (match to_load.0 {
            Some(a) => {
                &&& opt_index_below(a.n, old(map).world_map@.len() as int + 1)
                &&& opt_index_below(a.e, old(map).world_map@.len() as int + 1)
                &&& opt_index_below(a.w, old(map).world_map@.len() as int + 1)
                &&& opt_index_below(a.s, old(map).world_map@.len() as int + 1)
            },
            None => true,
        }) ==> final(map).wf() && final(map).active_ok(),
{
    match to_load.0 {
        Some(a) => {
            map.world_map.push(a);
        },
        None => {},
    }
    let idx = to_load.1;
    let len = map.tiles.len();
    let mut i: usize = 0;
    while i < len
        invariant
            i <= len,
            len == map.tiles@.len(),
            idx < map.world_map@.len(),
            map.world_map@[idx as int].tiles@.len() == len,
            map.width == old(map).width,
            map.height == old(map).height,
            map.entities == old(map).entities,
            map.world_map@ == (match to_load.0 {
                Some(a) => old(map).world_map@.push(a),
                None => old(map).world_map@,
            }),
            map.area_index == old(map).area_index,
            map.location == old(map).location,
            map.rerolled == old(map).rerolled,
            map.anchor_points == old(map).anchor_points,
            map.cell_anchor == old(map).cell_anchor,
            forall|j: int| 0 <= j < i ==> map.tiles@[j] == map.world_map@[idx as int].tiles@[j],
        decreases len - i,
    {
        let t = map.world_map[idx].tiles[i];
        map.tiles.set(i, t);
        i += 1;
    }
    proof {
        assert(map.tiles@ =~= map.world_map@[idx as int].tiles@);
    }
    map.area_index = idx;
    map.rerolled = true;
}

/// Creates the very first area with random terrain, shows its tiles in the
/// active cache, and appends it as area zero.
pub fn generate_map(map: &mut WorldMap)
    requires
        old(map).dims_ok(),
        old(map).world_map@.len() == 0,
    ensures
        final(map).world_map@.len() == 1,
        final(map).world_map@[0].tiles@ == final(map).tiles@,
        final(map).world_map@[0].n is None,
        final(map).world_map@[0].e is None,
        final(map).world_map@[0].w is None,
        final(map).world_map@[0].s is None,
        final(map).tiles@.len() == old(map).tiles@.len(),
        final(map).width == old(map).width,
        final(map).height == old(map).height,
        final(map).entities == old(map).entities,
        final(map).area_index == old(map).area_index,
        final(map).location == old(map).location,
        final(map).rerolled == old(map).rerolled,
        final(map).anchor_points == old(map).anchor_points,
        final(map).cell_anchor == old(map).cell_anchor,
        final(map).wf(),
{
    let mut area = Area::new();
    let len = map.tiles.len();
    let mut i: usize = 0;
    while i < len
        invariant
            i <= len,
            len == map.tiles@.len(),
            map.width == old(map).width,
            map.height == old(map).height,
            map.entities == old(map).entities,
            map.world_map == old(map).world_map,
            map.area_index == old(map).area_index,
            map.location == old(map).location,
            map.rerolled == old(map).rerolled,
            map.anchor_points == old(map).anchor_points,
            map.cell_anchor == old(map).cell_anchor,
            area.tiles@.len() == i,
            area.n is None,
            area.e is None,
            area.w is None,
            area.s is None,
            forall|j: int| 0 <= j < i ==> map.tiles@[j] == area.tiles@[j],
        decreases len - i,
    {
        let t = tile_from_u32(rand_below(TILE_KIND_COUNT));
        area.tiles.push(t);
        map.tiles.set(i, t);
        i += 1;
    }
    proof {
        assert(map.tiles@ =~= area.tiles@);
    }
    map.world_map.push(area);
}

/// Law: after `regenerate_map` produces a new area for direction `d` and
/// `load_map` commits it, the two areas link to each other: the new area's
/// slot opposite to `d` holds the requesting index, and the requesting
/// area's slot for `d` holds the new area's index, which is the world length
/// at regeneration time. Well-formedness carries over.
pub proof fn lemma_regen_commit_bidirectional(
    pre: WorldMap,
    mid: WorldMap,
    post: WorldMap,
    area_index: usize,
    d: char,
    na: Area,
    idx: usize,
)
    requires
        is_direction(d),
        area_index < pre.world_map@.len(),
        regen_new_rel(pre, mid, area_index, d, na, idx),
        commit_rel(mid, post, (Some(na), idx)),
        pre.wf(),
    ensures
        idx == pre.world_map@.len(),
        post.world_map@.len() == pre.world_map@.len() + 1,
        link_of(post.world_map@[idx as int], opposite(d)) == Some(area_index),
        link_of(post.world_map@[area_index as int], d) == Some(idx),
        post.wf(),
        post.active_ok(),
{
    assert(post.world_map@[idx as int] == na);
    assert(post.world_map@[area_index as int] == with_link(
        pre.world_map@[area_index as int],
        d,
        Some(idx),
    ));
    assert forall|i: int| 0 <= i < post.world_map@.len() implies {
        let a = #[trigger] post.world_map@[i];
        &&& a.tiles@.len() == post.width * post.height
        &&& opt_index_below(a.n, post.world_map@.len() as int)
        &&& opt_index_below(a.e, post.world_map@.len() as int)
        &&& opt_index_below(a.w, post.world_map@.len() as int)
        &&& opt_index_below(a.s, post.world_map@.len() as int)
    } by {
        if i == idx {
            assert(post.world_map@[i] == na);
        } else if i == area_index {
            assert(pre.world_map@[i].tiles@.len() == pre.width * pre.height);
        } else {
            assert(post.world_map@[i] == pre.world_map@[i]);
            assert(pre.world_map@[i].tiles@.len() == pre.width * pre.height);
        }
    }
}

/// Law: once a (area, direction) pair has been regenerated and committed, the
/// slot holds the new index, so by `regenerate_map`'s contract a repeated call
/// for the same pair returns the existing index, produces no new area, and
/// leaves the map unchanged.
pub proof fn lemma_regen_idempotent(
    pre: WorldMap,
    mid: WorldMap,
    post: WorldMap,
    area_index: usize,
    d: char,
    na: Area,
    idx: usize,
)
    requires
        is_direction(d),
        area_index < pre.world_map@.len(),
        regen_new_rel(pre, mid, area_index, d, na, idx),
        commit_rel(mid, post, (Some(na), idx)),
    ensures
        link_of(post.world_map@[area_index as int], d) == Some(idx),
{
    assert(post.world_map@[area_index as int] == with_link(
        pre.world_map@[area_index as int],
        d,
        Some(idx),
    ));
}

} // verus!
