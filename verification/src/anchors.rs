use vstd::prelude::*;
use crate::game_state::{
    abs_diff_spec, lemma_cell_index_bound, lemma_grid_product_bound, tile_passable, Tile, WorldMap,
    GRID_MAX, TILE_UNITS,
};

verus! {

/// Index of the west boundary gateway in every anchor list.
pub const GATEWAY_WEST: usize = 0;

/// Index of the east boundary gateway.
pub const GATEWAY_EAST: usize = 1;

/// Index of the north boundary gateway.
pub const GATEWAY_NORTH: usize = 2;

/// Index of the south boundary gateway.
pub const GATEWAY_SOUTH: usize = 3;

/// How many boundary gateways an area has.
pub const GATEWAY_COUNT: usize = 4;

/// A navigation node of the active area's pathfinding graph: a grid position,
/// the area coordinate it belongs to, the weighted successor edges (pairs of
/// anchor index and traversal cost), and a tag marking the four boundary
/// gateway nodes.
pub struct Anchor {
    pub pos: (usize, usize),
    pub area: (i32, i32),
    pub succ: Vec<(usize, usize)>,
    pub gateway: bool,
}

/// The grid position fits the largest supported area, so that fixed-point
/// world coordinates derived from it cannot overflow.
pub open spec fn anchor_pos_ok(a: Anchor) -> bool {
    a.pos.0 < GRID_MAX && a.pos.1 < GRID_MAX
}

/// Two anchors carry the same data (their edge lists are compared as
/// sequences).
pub open spec fn anchor_like(a: Anchor, b: Anchor) -> bool {
    &&& a.pos == b.pos
    &&& a.area == b.area
    &&& a.succ@ == b.succ@
    &&& a.gateway == b.gateway
}

impl Anchor {
    pub fn new(x: usize, y: usize, ax: i32, ay: i32) -> (r: Anchor)
        ensures
            r.pos == (x, y),
            r.area == (ax, ay),
            r.succ@.len() == 0,
            r.gateway == false,
    {
        Anchor { pos: (x, y), area: (ax, ay), succ: Vec::new(), gateway: false }
    }

    /// The area coordinate pair this anchor belongs to.
    pub fn area(&self) -> (r: (i32, i32))
        ensures
            r == self.area,
    {
        self.area
    }

    /// The grid cell of this anchor within its area.
    pub fn local(&self) -> (r: (usize, usize))
        ensures
            r == self.pos,
    {
        self.pos
    }

    /// The fixed-point world coordinates of this anchor's cell origin.
    pub fn real_local(&self) -> (r: (i64, i64))
        requires
            anchor_pos_ok(*self),
        ensures
            r.0 == self.pos.0 * TILE_UNITS,
            r.1 == self.pos.1 * TILE_UNITS,
    {
        ((self.pos.0 as i64) * TILE_UNITS, (self.pos.1 as i64) * TILE_UNITS)
    }

    pub fn set_area(&mut self, a: (i32, i32))
        ensures
            final(self).area == a,
            final(self).pos == old(self).pos,
            final(self).succ == old(self).succ,
            final(self).gateway == old(self).gateway,
    {
        self.area = a;
    }

    /// Equality as the planner's goal test uses it: by position and area.
    pub fn same_node(&self, other: &Anchor) -> (r: bool)
        ensures
            r == (self.pos == other.pos && self.area == other.area),
    {
        self.pos.0 == other.pos.0 && self.pos.1 == other.pos.1 && self.area.0 == other.area.0
            && self.area.1 == other.area.1
    }

    /// An element-by-element copy of this anchor.
    pub fn duplicate(&self) -> (r: Anchor)
        ensures
            anchor_like(*self, r),
    {
        let mut succ: Vec<(usize, usize)> = Vec::new();
        let mut i: usize = 0;
        while i < self.succ.len()
            invariant
                i <= self.succ@.len(),
                succ@ == self.succ@.subrange(0, i as int),
            decreases self.succ@.len() - i,
        {
            succ.push(self.succ[i]);
            i += 1;
        }
        proof {
            assert(succ@ =~= self.succ@);
        }
        Anchor { pos: self.pos, area: self.area, succ, gateway: self.gateway }
    }
}

/// Two grid cells share an edge (4-directional adjacency).
pub open spec fn adjacent(p: (usize, usize), q: (usize, usize)) -> bool {
    ||| (p.0 == q.0 && (p.1 == q.1 + 1 || q.1 == p.1 + 1))
    ||| (p.1 == q.1 && (p.0 == q.0 + 1 || q.0 == p.0 + 1))
}

/// A successor entry points into the anchor list and carries the uniform
/// traversal cost.
pub open spec fn edge_ok(anchors: Seq<Anchor>, e: (usize, usize)) -> bool {
    e.0 < anchors.len() && e.1 == 1
}

/// What a cell's slot in the cell-to-anchor table may hold: an anchor index
/// for a passable cell, placed at that cell, and nothing for an impassable
/// one.
pub open spec fn slot_ok(
    tiles: Seq<Tile>,
    anchors: Seq<Anchor>,
    w: int,
    slot: Option<usize>,
    ci: int,
) -> bool {
    match slot {
        Some(k) => {
            &&& tile_passable(tiles[ci])
            &&& GATEWAY_COUNT <= k < anchors.len()
            &&& anchors[k as int].pos.0 + anchors[k as int].pos.1 * w == ci
        },
        None => !tile_passable(tiles[ci]),
    }
}

/// The first four anchors are the boundary gateways, one per cardinal
/// direction, placed at the midpoint of their edge.
pub open spec fn gateway_layout(anchors: Seq<Anchor>, w: int, h: int, loc: (i32, i32)) -> bool {
    &&& anchors.len() >= GATEWAY_COUNT
    &&& anchors[GATEWAY_WEST as int].pos.0 == 0 && anchors[GATEWAY_WEST as int].pos.1 == h / 2
    &&& anchors[GATEWAY_EAST as int].pos.0 == w - 1 && anchors[GATEWAY_EAST as int].pos.1 == h / 2
    &&& anchors[GATEWAY_NORTH as int].pos.0 == w / 2 && anchors[GATEWAY_NORTH as int].pos.1 == h
        - 1
    &&& anchors[GATEWAY_SOUTH as int].pos.0 == w / 2 && anchors[GATEWAY_SOUTH as int].pos.1 == 0
    &&& forall|k: int|
        0 <= k < GATEWAY_COUNT ==> (#[trigger] anchors[k]).gateway && anchors[k].area == loc
}

/// One well-formed anchor: placed on the grid, belonging to the active area,
/// tagged as a gateway exactly in the first four slots, every edge valid, and
/// every edge between two cell anchors joining 4-adjacent cells.
pub open spec fn anchor_ok(m: WorldMap, k: int) -> bool {
    let a = m.anchor_points@[k];
    &&& a.pos.0 < m.width
    &&& a.pos.1 < m.height
    &&& a.area == m.location
    &&& a.gateway == (k < GATEWAY_COUNT)
    &&& forall|j: int| 0 <= j < a.succ@.len() ==> edge_ok(m.anchor_points@, #[trigger] a.succ@[j])
    &&& (k >= GATEWAY_COUNT ==> forall|j: int|
        0 <= j < a.succ@.len() && (#[trigger] a.succ@[j]).0 >= GATEWAY_COUNT ==> adjacent(
            a.pos,
            m.anchor_points@[a.succ@[j].0 as int].pos,
        ))
}

/// The navigation graph of the active area is well formed: four gateways at
/// the edge midpoints, one anchor per passable cell reachable through the
/// cell-to-anchor table, and only valid edges.
pub open spec fn graph_wf(m: WorldMap) -> bool {
    &&& m.dims_ok()
    &&& GATEWAY_COUNT <= m.anchor_points@.len()
    &&& m.anchor_points@.len() <= GATEWAY_COUNT + m.width * m.height
    &&& gateway_layout(m.anchor_points@, m.width as int, m.height as int, m.location)
    &&& forall|k: int| 0 <= k < m.anchor_points@.len() ==> #[trigger] anchor_ok(m, k)
    &&& m.cell_anchor@.len() == m.width * m.height
    &&& forall|ci: int|
        0 <= ci < m.cell_anchor@.len() ==> slot_ok(
            m.tiles@,
            m.anchor_points@,
            m.width as int,
            #[trigger] m.cell_anchor@[ci],
            ci,
        )
}

/// A grid cell holds passable terrain.
pub open spec fn passable_at(m: WorldMap, x: int, y: int) -> bool {
    tile_passable(m.tiles@[x + y * m.width])
}

/// What a gateway's partner search along a column promises: a hit is a
/// passable cell of that column with no passable cell strictly nearer the
/// starting row; a miss means the whole column is impassable.
pub open spec fn partner_ok_column(m: WorldMap, x: int, mid: int, r: Option<(usize, usize)>) -> bool {
    &&& (r matches Some(p) ==> p.0 == x && p.1 < m.height && passable_at(m, x, p.1 as int)
        && (forall|y2: int|
        0 <= y2 < m.height && abs_diff_spec(y2, mid) < abs_diff_spec(p.1 as int, mid)
            ==> !#[trigger] passable_at(m, x, y2)))
    &&& (r is None ==> forall|y2: int| 0 <= y2 < m.height ==> !#[trigger] passable_at(m, x, y2))
}

/// The row-wise counterpart of `partner_ok_column`.
pub open spec fn partner_ok_row(m: WorldMap, y: int, mid: int, r: Option<(usize, usize)>) -> bool {
    &&& (r matches Some(p) ==> p.1 == y && p.0 < m.width && passable_at(m, p.0 as int, y)
        && (forall|x2: int|
        0 <= x2 < m.width && abs_diff_spec(x2, mid) < abs_diff_spec(p.0 as int, mid)
            ==> !#[trigger] passable_at(m, x2, y)))
    &&& (r is None ==> forall|x2: int| 0 <= x2 < m.width ==> !#[trigger] passable_at(m, x2, y))
}

/// The passable cell in a column that is nearest to a starting row, if the
/// column has one.
fn nearest_passable_in_column(m: &WorldMap, x: usize, mid_y: usize) -> (r: Option<(usize, usize)>)
    requires
        m.dims_ok(),
        x < m.width,
        mid_y < m.height,
    ensures
        partner_ok_column(*m, x as int, mid_y as int, r),
{
    let mut d: usize = 0;
    while d < m.height
        invariant
            m.dims_ok(),
            x < m.width,
            mid_y < m.height,
            forall|y2: int|
                0 <= y2 < m.height && abs_diff_spec(y2, mid_y as int) < d
                    ==> !#[trigger] passable_at(*m, x as int, y2),
        decreases m.height - d,
    {
        if mid_y + d < m.height {
            let y = mid_y + d;
            proof {
                lemma_cell_index_bound(x as int, y as int, m.width as int, m.height as int);
                lemma_grid_product_bound(m.width as int, m.height as int);
            }
            if m.tiles[x + y * m.width].is_passable() {
                return Some((x, y));
            }
        }
        if mid_y >= d {
            let y = mid_y - d;
            proof {
                lemma_cell_index_bound(x as int, y as int, m.width as int, m.height as int);
                lemma_grid_product_bound(m.width as int, m.height as int);
            }
            if m.tiles[x + y * m.width].is_passable() {
                return Some((x, y));
            }
        }
        proof {
            assert forall|y2: int|
                0 <= y2 < m.height && abs_diff_spec(y2, mid_y as int) < d + 1 implies !passable_at(
                *m,
                x as int,
                y2,
            ) by {
                if abs_diff_spec(y2, mid_y as int) == d {
                    assert(y2 == mid_y + d || y2 == mid_y - d);
                }
            }
        }
        d += 1;
    }
    None
}

/// The passable cell in a row that is nearest to a starting column, if the
/// row has one.
fn nearest_passable_in_row(m: &WorldMap, y: usize, mid_x: usize) -> (r: Option<(usize, usize)>)
    requires
        m.dims_ok(),
        y < m.height,
        mid_x < m.width,
    ensures
        partner_ok_row(*m, y as int, mid_x as int, r),
{
    let mut d: usize = 0;
    while d < m.width
        invariant
            m.dims_ok(),
            y < m.height,
            mid_x < m.width,
            forall|x2: int|
                0 <= x2 < m.width && abs_diff_spec(x2, mid_x as int) < d
                    ==> !#[trigger] passable_at(*m, x2, y as int),
        decreases m.width - d,
    {
        if mid_x + d < m.width {
            let x = mid_x + d;
            proof {
                lemma_cell_index_bound(x as int, y as int, m.width as int, m.height as int);
                lemma_grid_product_bound(m.width as int, m.height as int);
            }
            if m.tiles[x + y * m.width].is_passable() {
                return Some((x, y));
            }
        }
        if mid_x >= d {
            let x = mid_x - d;
            proof {
                lemma_cell_index_bound(x as int, y as int, m.width as int, m.height as int);
                lemma_grid_product_bound(m.width as int, m.height as int);
            }
            if m.tiles[x + y * m.width].is_passable() {
                return Some((x, y));
            }
        }
        proof {
            assert forall|x2: int|
                0 <= x2 < m.width && abs_diff_spec(x2, mid_x as int) < d + 1 implies !passable_at(
                *m,
                x2,
                y as int,
            ) by {
                if abs_diff_spec(x2, mid_x as int) == d {
                    assert(x2 == mid_x + d || x2 == mid_x - d);
                }
            }
        }
        d += 1;
    }
    None
}

/// A cell anchor before its edges are wired: placed on the grid, in the
/// active area, untagged, with no edges yet.
pub open spec fn raw_cell_anchor_ok(
    anchors: Seq<Anchor>,
    w: int,
    h: int,
    loc: (i32, i32),
    k: int,
) -> bool {
    let a = anchors[k];
    &&& a.pos.0 < w
    &&& a.pos.1 < h
    &&& a.area == loc
    &&& !a.gateway
    &&& a.succ@.len() == 0
}

/// A wired anchor mirrors its raw twin and carries only valid edges; edges
/// between two cell anchors join adjacent cells.
pub open spec fn built_ok(anchors: Seq<Anchor>, result: Seq<Anchor>, kk: int, n: int) -> bool {
    let a = result[kk];
    &&& a.pos == anchors[kk].pos
    &&& a.area == anchors[kk].area
    &&& a.gateway == anchors[kk].gateway
    &&& forall|j: int|
        0 <= j < a.succ@.len() ==> (#[trigger] a.succ@[j]).0 < n && a.succ@[j].1 == 1
    &&& (kk >= GATEWAY_COUNT ==> forall|j: int|
        0 <= j < a.succ@.len() && (#[trigger] a.succ@[j]).0 >= GATEWAY_COUNT ==> adjacent(
            a.pos,
            anchors[a.succ@[j].0 as int].pos,
        ))
}

/// A successor list reaches the anchor in a neighbor slot, when that slot is
/// filled.
pub open spec fn has_target(succ: Seq<(usize, usize)>, slot: Option<usize>) -> bool {
    match slot {
        Some(j) => succ.contains((j, 1)),
        None => true,
    }
}

/// A cell anchor's successor list reaches every 4-adjacent passable cell.
pub open spec fn wired_cell(
    cells: Seq<Option<usize>>,
    succ: Seq<(usize, usize)>,
    pos: (usize, usize),
    w: int,
    h: int,
) -> bool {
    let ci = pos.0 + pos.1 * w;
    &&& (pos.0 + 1 < w ==> has_target(succ, cells[ci + 1]))
    &&& (pos.0 > 0 ==> has_target(succ, cells[ci - 1]))
    &&& (pos.1 + 1 < h ==> has_target(succ, cells[ci + w]))
    &&& (pos.1 > 0 ==> has_target(succ, cells[ci - w]))
}

/// The anchor of the cell at (x, y), if there is one, has an edge to each
/// 4-adjacent passable cell's anchor.
pub open spec fn cell_neighbors_linked(m: WorldMap, x: int, y: int) -> bool {
    let ci = x + y * m.width;
    match m.cell_anchor@[ci] {
        Some(k) => {
            let succ = m.anchor_points@[k as int].succ@;
            &&& (x + 1 < m.width ==> has_target(succ, m.cell_anchor@[ci + 1]))
            &&& (x > 0 ==> has_target(succ, m.cell_anchor@[ci - 1]))
            &&& (y + 1 < m.height ==> has_target(succ, m.cell_anchor@[ci + m.width]))
            &&& (y > 0 ==> has_target(succ, m.cell_anchor@[ci - m.width]))
        },
        None => true,
    }
}

/// No edge between adjacent passable cells is missing.
pub open spec fn edges_complete(m: WorldMap) -> bool {
    forall|x: int, y: int|
        0 <= x < m.width && 0 <= y < m.height ==> #[trigger] cell_neighbors_linked(m, x, y)
}

/// The one successor a gateway gets: the anchor of the partner cell that the
/// edge scan produced, or nothing when the scan failed (or the partner cell
/// has no anchor, which cannot happen for a passable partner).
pub open spec fn gateway_succ_of(
    cells: Seq<Option<usize>>,
    partner: Option<(usize, usize)>,
    w: int,
) -> Seq<(usize, usize)> {
    match partner {
        Some(p) => match cells[p.0 + p.1 * w] {
            Some(j) => seq![(j, 1usize)],
            None => Seq::<(usize, usize)>::empty(),
        },
        None => Seq::<(usize, usize)>::empty(),
    }
}

pub open spec fn column_has_passable(m: WorldMap, x: int) -> bool {
    exists|y: int| 0 <= y < m.height && #[trigger] passable_at(m, x, y)
}

pub open spec fn row_has_passable(m: WorldMap, y: int) -> bool {
    exists|x: int| 0 <= x < m.width && #[trigger] passable_at(m, x, y)
}

/// A cell anchor links back to each gateway whose partner cell it occupies.
pub open spec fn gateway_recip_ok(
    succ: Seq<(usize, usize)>,
    pos: (usize, usize),
    pw: Option<(usize, usize)>,
    pe: Option<(usize, usize)>,
    pn: Option<(usize, usize)>,
    ps: Option<(usize, usize)>,
) -> bool {
    &&& (pw == Some(pos) ==> succ.contains((GATEWAY_WEST, 1usize)))
    &&& (pe == Some(pos) ==> succ.contains((GATEWAY_EAST, 1usize)))
    &&& (pn == Some(pos) ==> succ.contains((GATEWAY_NORTH, 1usize)))
    &&& (ps == Some(pos) ==> succ.contains((GATEWAY_SOUTH, 1usize)))
}

/// The gateway at index `g`, guarding the column edge `x` around row `mid`:
/// if the edge has a passable cell, the gateway and the anchor of a nearest
/// such cell point at each other — the gateway's edge list is exactly that
/// one edge; an all-impassable edge leaves the gateway unconnected.
pub open spec fn gateway_wired_column(m: WorldMap, g: int, x: int, mid: int) -> bool {
    if column_has_passable(m, x) {
        exists|y: int|
            {
                &&& 0 <= y < m.height
                &&& #[trigger] passable_at(m, x, y)
                &&& (forall|y2: int|
                    0 <= y2 < m.height && abs_diff_spec(y2, mid) < abs_diff_spec(y, mid)
                        ==> !#[trigger] passable_at(m, x, y2))
                &&& (match m.cell_anchor@[x + y * m.width] {
                    Some(j) => {
                        &&& m.anchor_points@[g].succ@ == seq![(j, 1usize)]
                        &&& m.anchor_points@[j as int].succ@.contains((g as usize, 1usize))
                    },
                    None => false,
                })
            }
    } else {
        m.anchor_points@[g].succ@.len() == 0
    }
}

/// The row-wise counterpart of `gateway_wired_column`.
pub open spec fn gateway_wired_row(m: WorldMap, g: int, y: int, mid: int) -> bool {
    if row_has_passable(m, y) {
        exists|x: int|
            {
                &&& 0 <= x < m.width
                &&& #[trigger] passable_at(m, x, y)
                &&& (forall|x2: int|
                    0 <= x2 < m.width && abs_diff_spec(x2, mid) < abs_diff_spec(x, mid)
                        ==> !#[trigger] passable_at(m, x2, y))
                &&& (match m.cell_anchor@[x + y * m.width] {
                    Some(j) => {
                        &&& m.anchor_points@[g].succ@ == seq![(j, 1usize)]
                        &&& m.anchor_points@[j as int].succ@.contains((g as usize, 1usize))
                    },
                    None => false,
                })
            }
    } else {
        m.anchor_points@[g].succ@.len() == 0
    }
}

/// Every gateway is wired both ways with the passable cell of its edge
/// nearest the midpoint, when its edge has one.
pub open spec fn gateways_wired(m: WorldMap) -> bool {
    &&& gateway_wired_column(m, GATEWAY_WEST as int, 0, m.height as int / 2)
    &&& gateway_wired_column(m, GATEWAY_EAST as int, m.width as int - 1, m.height as int / 2)
    &&& gateway_wired_row(m, GATEWAY_NORTH as int, m.height as int - 1, m.width as int / 2)
    &&& gateway_wired_row(m, GATEWAY_SOUTH as int, 0, m.width as int / 2)
}

/// The edges of one cell anchor toward its 4-adjacent passable neighbors,
/// each of cost one.
#[verifier::rlimit(100)]
fn neighbor_edges(
    m: &WorldMap,
    cells: &Vec<Option<usize>>,
    anchors: &Vec<Anchor>,
    loc: (i32, i32),
    ax: usize,
    ay: usize,
) -> (succ: Vec<(usize, usize)>)
    requires
        m.dims_ok(),
        GATEWAY_COUNT <= anchors@.len(),
        cells@.len() == m.width * m.height,
        forall|j: int|
            0 <= j < cells@.len() ==> slot_ok(
                m.tiles@,
                anchors@,
                m.width as int,
                #[trigger] cells@[j],
                j,
            ),
        forall|kk: int|
            GATEWAY_COUNT <= kk < anchors@.len() ==> #[trigger] raw_cell_anchor_ok(
                anchors@,
                m.width as int,
                m.height as int,
                loc,
                kk,
            ),
        ax < m.width,
        ay < m.height,
    ensures
        forall|j: int|
            0 <= j < succ@.len() ==> (#[trigger] succ@[j]).0 < anchors@.len() && succ@[j].1 == 1,
        forall|j: int|
            0 <= j < succ@.len() && (#[trigger] succ@[j]).0 >= GATEWAY_COUNT ==> adjacent(
                (ax, ay),
                anchors@[succ@[j].0 as int].pos,
            ),
        wired_cell(cells@, succ@, (ax, ay), m.width as int, m.height as int),
{
    let w = m.width;
    let h = m.height;
    let mut succ: Vec<(usize, usize)> = Vec::new();
    proof {
        lemma_cell_index_bound(ax as int, ay as int, w as int, h as int);
        lemma_grid_product_bound(w as int, h as int);
    }
    let aci = ax + ay * w;
    let ghost mut li: int = -1;
    let ghost mut lj: usize = 0;
    let ghost mut ri: int = -1;
    let ghost mut rj: usize = 0;
    let ghost mut di: int = -1;
    let ghost mut dj: usize = 0;
    let ghost mut ui: int = -1;
    let ghost mut uj: usize = 0;
    if ax > 0 {
        match cells[aci - 1] {
            Some(j) => {
                proof {
                    assert(slot_ok(m.tiles@, anchors@, w as int, cells@[aci - 1], aci - 1));
                    assert(raw_cell_anchor_ok(anchors@, w as int, h as int, loc, j as int));
                    let jp = anchors@[j as int].pos;
                    lemma_cell_eq_unique(jp.0 as int, jp.1 as int, ax - 1, ay as int, w as int);
                    li = succ@.len() as int;
                    lj = j;
                }
                succ.push((j, 1));
            },
            None => {},
        }
    }
    if ax + 1 < w {
        proof {
            lemma_cell_index_bound(ax as int + 1, ay as int, w as int, h as int);
        }
        match cells[aci + 1] {
            Some(j) => {
                proof {
                    assert(slot_ok(m.tiles@, anchors@, w as int, cells@[aci + 1], aci + 1));
                    assert(raw_cell_anchor_ok(anchors@, w as int, h as int, loc, j as int));
                    let jp = anchors@[j as int].pos;
                    lemma_cell_eq_unique(jp.0 as int, jp.1 as int, ax + 1, ay as int, w as int);
                    ri = succ@.len() as int;
                    rj = j;
                }
                succ.push((j, 1));
            },
            None => {},
        }
    }
    if ay > 0 {
        proof {
            assert(aci >= w && aci - w == ax + (ay - 1) * w) by (nonlinear_arith)
                requires aci == ax + ay * w, ay >= 1, w >= 1, ax >= 0;
        }
        match cells[aci - w] {
            Some(j) => {
                proof {
                    assert(slot_ok(m.tiles@, anchors@, w as int, cells@[aci - w], aci - w));
                    assert(raw_cell_anchor_ok(anchors@, w as int, h as int, loc, j as int));
                    let jp = anchors@[j as int].pos;
                    lemma_cell_eq_unique(jp.0 as int, jp.1 as int, ax as int, ay - 1, w as int);
                    di = succ@.len() as int;
                    dj = j;
                }
                succ.push((j, 1));
            },
            None => {},
        }
    }
    if ay + 1 < h {
        proof {
            lemma_cell_index_bound(ax as int, ay as int + 1, w as int, h as int);
            assert(aci + w == ax + (ay + 1) * w) by (nonlinear_arith)
                requires aci == ax + ay * w;
        }
        match cells[aci + w] {
            Some(j) => {
                proof {
                    assert(slot_ok(m.tiles@, anchors@, w as int, cells@[aci + w], aci + w));
                    assert(raw_cell_anchor_ok(anchors@, w as int, h as int, loc, j as int));
                    let jp = anchors@[j as int].pos;
                    lemma_cell_eq_unique(jp.0 as int, jp.1 as int, ax as int, ay + 1, w as int);
                    ui = succ@.len() as int;
                    uj = j;
                }
                succ.push((j, 1));
            },
            None => {},
        }
    }
    proof {
        if ax > 0 {
            match cells@[aci - 1] {
                Some(j) => {
                    assert(succ@[li] == (lj, 1usize));
                    assert(succ@.contains((j, 1)));
                },
                None => {},
            }
        }
        if ax + 1 < w {
            match cells@[aci + 1] {
                Some(j) => {
                    assert(succ@[ri] == (rj, 1usize));
                    assert(succ@.contains((j, 1)));
                },
                None => {},
            }
        }
        if ay > 0 {
            match cells@[aci - w] {
                Some(j) => {
                    assert(succ@[di] == (dj, 1usize));
                    assert(succ@.contains((j, 1)));
                },
                None => {},
            }
        }
        if ay + 1 < h {
            match cells@[aci + w] {
                Some(j) => {
                    assert(succ@[ui] == (uj, 1usize));
                    assert(succ@.contains((j, 1)));
                },
                None => {},
            }
        }
        assert(wired_cell(cells@, succ@, (ax, ay), w as int, h as int));
    }
    succ
}

/// A successor list stays wired when an edge is appended.
pub proof fn lemma_wired_cell_push(
    cells: Seq<Option<usize>>,
    succ: Seq<(usize, usize)>,
    e: (usize, usize),
    pos: (usize, usize),
    w: int,
    h: int,
)
    requires
        wired_cell(cells, succ, pos, w, h),
    ensures
        wired_cell(cells, succ.push(e), pos, w, h),
{
    let ci = pos.0 + pos.1 * w;
    if pos.0 + 1 < w {
        lemma_has_target_push(succ, e, cells[ci + 1]);
    }
    if pos.0 > 0 {
        lemma_has_target_push(succ, e, cells[ci - 1]);
    }
    if pos.1 + 1 < h {
        lemma_has_target_push(succ, e, cells[ci + w]);
    }
    if pos.1 > 0 {
        lemma_has_target_push(succ, e, cells[ci - w]);
    }
}

proof fn lemma_has_target_push(succ: Seq<(usize, usize)>, e: (usize, usize), slot: Option<usize>)
    requires
        has_target(succ, slot),
    ensures
        has_target(succ.push(e), slot),
{
    match slot {
        Some(j) => {
            let i = choose|i: int| 0 <= i < succ.len() && succ[i] == (j, 1usize);
            assert(succ.push(e)[i] == (j, 1usize));
        },
        None => {},
    }
}

/// Wires one cell anchor: the neighbor edges, plus an edge to each gateway
/// whose nearest edge cell this is.
fn wire_cell_succ(
    m: &WorldMap,
    cells: &Vec<Option<usize>>,
    anchors: &Vec<Anchor>,
    loc: (i32, i32),
    pw: Option<(usize, usize)>,
    pe: Option<(usize, usize)>,
    pn: Option<(usize, usize)>,
    ps: Option<(usize, usize)>,
    ax: usize,
    ay: usize,
) -> (succ: Vec<(usize, usize)>)
    requires
        m.dims_ok(),
        GATEWAY_COUNT <= anchors@.len(),
        cells@.len() == m.width * m.height,
        forall|j: int|
            0 <= j < cells@.len() ==> slot_ok(
                m.tiles@,
                anchors@,
                m.width as int,
                #[trigger] cells@[j],
                j,
            ),
        forall|kk: int|
            GATEWAY_COUNT <= kk < anchors@.len() ==> #[trigger] raw_cell_anchor_ok(
                anchors@,
                m.width as int,
                m.height as int,
                loc,
                kk,
            ),
        ax < m.width,
        ay < m.height,
    ensures
        forall|j: int|
            0 <= j < succ@.len() ==> (#[trigger] succ@[j]).0 < anchors@.len() && succ@[j].1 == 1,
        forall|j: int|
            0 <= j < succ@.len() && (#[trigger] succ@[j]).0 >= GATEWAY_COUNT ==> adjacent(
                (ax, ay),
                anchors@[succ@[j].0 as int].pos,
            ),
        wired_cell(cells@, succ@, (ax, ay), m.width as int, m.height as int),
        gateway_recip_ok(succ@, (ax, ay), pw, pe, pn, ps),
{
    let w = m.width;
    let h = m.height;
    let mut succ = neighbor_edges(m, cells, anchors, loc, ax, ay);
    let ghost mut gwi: int = -1;
    let ghost mut gei: int = -1;
    let ghost mut gni: int = -1;
    let ghost mut gsi: int = -1;
    match pw {
        Some(p) => {
            if p.0 == ax && p.1 == ay {
                let ghost s0 = succ@;
                proof {
                    gwi = succ@.len() as int;
                }
                succ.push((GATEWAY_WEST, 1));
                proof {
                    lemma_wired_cell_push(
                        cells@,
                        s0,
                        (GATEWAY_WEST, 1usize),
                        (ax, ay),
                        w as int,
                        h as int,
                    );
                }
            }
        },
        None => {},
    }
    match pe {
        Some(p) => {
            if p.0 == ax && p.1 == ay {
                let ghost s0 = succ@;
                proof {
                    gei = succ@.len() as int;
                }
                succ.push((GATEWAY_EAST, 1));
                proof {
                    lemma_wired_cell_push(
                        cells@,
                        s0,
                        (GATEWAY_EAST, 1usize),
                        (ax, ay),
                        w as int,
                        h as int,
                    );
                }
            }
        },
        None => {},
    }
    match pn {
        Some(p) => {
            if p.0 == ax && p.1 == ay {
                let ghost s0 = succ@;
                proof {
                    gni = succ@.len() as int;
                }
                succ.push((GATEWAY_NORTH, 1));
                proof {
                    lemma_wired_cell_push(
                        cells@,
                        s0,
                        (GATEWAY_NORTH, 1usize),
                        (ax, ay),
                        w as int,
                        h as int,
                    );
                }
            }
        },
        None => {},
    }
    match ps {
        Some(p) => {
            if p.0 == ax && p.1 == ay {
                let ghost s0 = succ@;
                proof {
                    gsi = succ@.len() as int;
                }
                succ.push((GATEWAY_SOUTH, 1));
                proof {
                    lemma_wired_cell_push(
                        cells@,
                        s0,
                        (GATEWAY_SOUTH, 1usize),
                        (ax, ay),
                        w as int,
                        h as int,
                    );
                }
            }
        },
        None => {},
    }
    proof {
        match pw {
            Some(p) => {
                if p == (ax, ay) {
                    assert(succ@[gwi] == (GATEWAY_WEST, 1usize));
                    assert(succ@.contains((GATEWAY_WEST, 1usize)));
                }
            },
            None => {},
        }
        match pe {
            Some(p) => {
                if p == (ax, ay) {
                    assert(succ@[gei] == (GATEWAY_EAST, 1usize));
                    assert(succ@.contains((GATEWAY_EAST, 1usize)));
                }
            },
            None => {},
        }
        match pn {
            Some(p) => {
                if p == (ax, ay) {
                    assert(succ@[gni] == (GATEWAY_NORTH, 1usize));
                    assert(succ@.contains((GATEWAY_NORTH, 1usize)));
                }
            },
            None => {},
        }
        match ps {
            Some(p) => {
                if p == (ax, ay) {
                    assert(succ@[gsi] == (GATEWAY_SOUTH, 1usize));
                    assert(succ@.contains((GATEWAY_SOUTH, 1usize)));
                }
            },
            None => {},
        }
        assert(gateway_recip_ok(succ@, (ax, ay), pw, pe, pn, ps));
    }
    succ
}

/// The scan's verdict depends only on the terrain, so it carries over to any
/// map with the same tiles and dimensions.
proof fn lemma_partner_ok_column_same_terrain(
    m1: WorldMap,
    m2: WorldMap,
    x: int,
    mid: int,
    r: Option<(usize, usize)>,
)
    requires
        m1.tiles == m2.tiles,
        m1.width == m2.width,
        m1.height == m2.height,
        partner_ok_column(m1, x, mid, r),
    ensures
        partner_ok_column(m2, x, mid, r),
{
    match r {
        Some(p) => {
            assert forall|y2: int|
                0 <= y2 < m2.height && abs_diff_spec(y2, mid) < abs_diff_spec(p.1 as int, mid)
                    implies !passable_at(m2, x, y2) by {
                assert(!passable_at(m1, x, y2));
            }
        },
        None => {
            assert forall|y2: int| 0 <= y2 < m2.height implies !passable_at(m2, x, y2) by {
                assert(!passable_at(m1, x, y2));
            }
        },
    }
}

/// The row-wise counterpart of `lemma_partner_ok_column_same_terrain`.
proof fn lemma_partner_ok_row_same_terrain(
    m1: WorldMap,
    m2: WorldMap,
    y: int,
    mid: int,
    r: Option<(usize, usize)>,
)
    requires
        m1.tiles == m2.tiles,
        m1.width == m2.width,
        m1.height == m2.height,
        partner_ok_row(m1, y, mid, r),
    ensures
        partner_ok_row(m2, y, mid, r),
{
    match r {
        Some(p) => {
            assert forall|x2: int|
                0 <= x2 < m2.width && abs_diff_spec(x2, mid) < abs_diff_spec(p.0 as int, mid)
                    implies !passable_at(m2, x2, y) by {
                assert(!passable_at(m1, x2, y));
            }
        },
        None => {
            assert forall|x2: int| 0 <= x2 < m2.width implies !passable_at(m2, x2, y) by {
                assert(!passable_at(m1, x2, y));
            }
        },
    }
}

/// `partner` is the edge-scan result that belongs to gateway `g`.
pub open spec fn gateway_partner_match(
    g: int,
    partner: Option<(usize, usize)>,
    pw: Option<(usize, usize)>,
    pe: Option<(usize, usize)>,
    pn: Option<(usize, usize)>,
    ps: Option<(usize, usize)>,
) -> bool {
    &&& 0 <= g < GATEWAY_COUNT
    &&& (g == GATEWAY_WEST ==> partner == pw)
    &&& (g == GATEWAY_EAST ==> partner == pe)
    &&& (g == GATEWAY_NORTH ==> partner == pn)
    &&& (g == GATEWAY_SOUTH ==> partner == ps)
}

/// From the builder's invariants — the scan's verdict on the edge, the
/// gateway's one-edge list, and every cell anchor's reciprocal edges — the
/// gateway on a column edge is wired as promised.
proof fn lemma_gateway_wired_column(
    m: WorldMap,
    anchors: Seq<Anchor>,
    loc: (i32, i32),
    g: int,
    x: int,
    mid: int,
    partner: Option<(usize, usize)>,
    pw: Option<(usize, usize)>,
    pe: Option<(usize, usize)>,
    pn: Option<(usize, usize)>,
    ps: Option<(usize, usize)>,
)
    requires
        m.dims_ok(),
        0 <= x < m.width,
        m.cell_anchor@.len() == m.width * m.height,
        m.anchor_points@.len() == anchors.len(),
        forall|j: int|
            0 <= j < m.cell_anchor@.len() ==> slot_ok(
                m.tiles@,
                anchors,
                m.width as int,
                #[trigger] m.cell_anchor@[j],
                j,
            ),
        forall|kk: int|
            GATEWAY_COUNT <= kk < anchors.len() ==> #[trigger] raw_cell_anchor_ok(
                anchors,
                m.width as int,
                m.height as int,
                loc,
                kk,
            ),
        forall|kk: int|
            GATEWAY_COUNT <= kk < anchors.len() ==> #[trigger] gateway_recip_ok(
                m.anchor_points@[kk].succ@,
                anchors[kk].pos,
                pw,
                pe,
                pn,
                ps,
            ),
        partner_ok_column(m, x, mid, partner),
        gateway_partner_match(g, partner, pw, pe, pn, ps),
        m.anchor_points@[g].succ@ == gateway_succ_of(m.cell_anchor@, partner, m.width as int),
    ensures
        gateway_wired_column(m, g, x, mid),
{
    let w = m.width as int;
    if column_has_passable(m, x) {
        match partner {
            None => {
                let y = choose|y: int| 0 <= y < m.height && #[trigger] passable_at(m, x, y);
                assert(!passable_at(m, x, y));
                assert(false);
            },
            Some(p) => {
                lemma_cell_index_bound(p.0 as int, p.1 as int, w, m.height as int);
                let pci = p.0 + p.1 * w;
                assert(slot_ok(m.tiles@, anchors, w, m.cell_anchor@[pci], pci));
                match m.cell_anchor@[pci] {
                    None => {
                        assert(false);
                    },
                    Some(j) => {
                        assert(raw_cell_anchor_ok(anchors, w, m.height as int, loc, j as int));
                        let jp = anchors[j as int].pos;
                        lemma_cell_eq_unique(jp.0 as int, jp.1 as int, p.0 as int, p.1 as int, w);
                        assert(jp == p);
                        assert(gateway_recip_ok(m.anchor_points@[j as int].succ@, jp, pw, pe, pn, ps));
                        assert(m.anchor_points@[j as int].succ@.contains((g as usize, 1usize)));
                        assert(passable_at(m, x, p.1 as int));
                    },
                }
            },
        }
    } else {
        match partner {
            Some(p) => {
                assert(passable_at(m, x, p.1 as int));
                assert(column_has_passable(m, x));
                assert(false);
            },
            None => {
                assert(m.anchor_points@[g].succ@.len() == 0);
            },
        }
    }
}

/// The row-wise counterpart of `lemma_gateway_wired_column`.
proof fn lemma_gateway_wired_row(
    m: WorldMap,
    anchors: Seq<Anchor>,
    loc: (i32, i32),
    g: int,
    y: int,
    mid: int,
    partner: Option<(usize, usize)>,
    pw: Option<(usize, usize)>,
    pe: Option<(usize, usize)>,
    pn: Option<(usize, usize)>,
    ps: Option<(usize, usize)>,
)
    requires
        m.dims_ok(),
        0 <= y < m.height,
        m.cell_anchor@.len() == m.width * m.height,
        m.anchor_points@.len() == anchors.len(),
        forall|j: int|
            0 <= j < m.cell_anchor@.len() ==> slot_ok(
                m.tiles@,
                anchors,
                m.width as int,
                #[trigger] m.cell_anchor@[j],
                j,
            ),
        forall|kk: int|
            GATEWAY_COUNT <= kk < anchors.len() ==> #[trigger] raw_cell_anchor_ok(
                anchors,
                m.width as int,
                m.height as int,
                loc,
                kk,
            ),
        forall|kk: int|
            GATEWAY_COUNT <= kk < anchors.len() ==> #[trigger] gateway_recip_ok(
                m.anchor_points@[kk].succ@,
                anchors[kk].pos,
                pw,
                pe,
                pn,
                ps,
            ),
        partner_ok_row(m, y, mid, partner),
        gateway_partner_match(g, partner, pw, pe, pn, ps),
        m.anchor_points@[g].succ@ == gateway_succ_of(m.cell_anchor@, partner, m.width as int),
    ensures
        gateway_wired_row(m, g, y, mid),
{
    let w = m.width as int;
    if row_has_passable(m, y) {
        match partner {
            None => {
                let x = choose|x: int| 0 <= x < m.width && #[trigger] passable_at(m, x, y);
                assert(!passable_at(m, x, y));
                assert(false);
            },
            Some(p) => {
                lemma_cell_index_bound(p.0 as int, p.1 as int, w, m.height as int);
                let pci = p.0 + p.1 * w;
                assert(slot_ok(m.tiles@, anchors, w, m.cell_anchor@[pci], pci));
                match m.cell_anchor@[pci] {
                    None => {
                        assert(false);
                    },
                    Some(j) => {
                        assert(raw_cell_anchor_ok(anchors, w, m.height as int, loc, j as int));
                        let jp = anchors[j as int].pos;
                        lemma_cell_eq_unique(jp.0 as int, jp.1 as int, p.0 as int, p.1 as int, w);
                        assert(jp == p);
                        assert(gateway_recip_ok(m.anchor_points@[j as int].succ@, jp, pw, pe, pn, ps));
                        assert(m.anchor_points@[j as int].succ@.contains((g as usize, 1usize)));
                        assert(passable_at(m, p.0 as int, y));
                    },
                }
            },
        }
    } else {
        match partner {
            Some(p) => {
                assert(passable_at(m, p.0 as int, y));
                assert(row_has_passable(m, y));
                assert(false);
            },
            None => {
                assert(m.anchor_points@[g].succ@.len() == 0);
            },
        }
    }
}

/// Rebuilds the navigation graph of the active area from its tile field: one
/// anchor per passable cell at its grid position, four boundary gateway
/// anchors at the midpoints of the edges, edges of uniform cost one between
/// 4-adjacent passable cells, and each gateway wired both ways to the
/// passable cell of its edge nearest the midpoint. Clears the
/// freshly-activated flag.
#[verifier::rlimit(100)]
pub fn build_anchor_points(map: &mut WorldMap)
    requires
        old(map).dims_ok(),
    ensures
        graph_wf(*final(map)),
        edges_complete(*final(map)),
        gateways_wired(*final(map)),
        final(map).rerolled == false,
        final(map).width == old(map).width,
        final(map).height == old(map).height,
        final(map).tiles == old(map).tiles,
        final(map).entities == old(map).entities,
        final(map).world_map == old(map).world_map,
        final(map).area_index == old(map).area_index,
        final(map).location == old(map).location,
{
    let w = map.width;
    let h = map.height;
    let loc = map.location;
    proof {
        lemma_grid_product_bound(w as int, h as int);
    }
    let total = w * h;

    let mut anchors: Vec<Anchor> = Vec::new();
    anchors.push(Anchor { pos: (0, h / 2), area: loc, succ: Vec::new(), gateway: true });
    anchors.push(Anchor { pos: (w - 1, h / 2), area: loc, succ: Vec::new(), gateway: true });
    anchors.push(Anchor { pos: (w / 2, h - 1), area: loc, succ: Vec::new(), gateway: true });
    anchors.push(Anchor { pos: (w / 2, 0), area: loc, succ: Vec::new(), gateway: true });

    let mut cells: Vec<Option<usize>> = Vec::new();
    let mut x: usize = 0;
    let mut y: usize = 0;
    let mut ci: usize = 0;
    while ci < total
        invariant
            *map == *old(map),
            map.dims_ok(),
            w == map.width,
            h == map.height,
            loc == map.location,
            total == w * h,
            ci <= total,
            x < w,
            y <= h,
            x + y * w == ci,
            cells@.len() == ci,
            GATEWAY_COUNT <= anchors@.len() <= GATEWAY_COUNT + ci,
            gateway_layout(anchors@, w as int, h as int, loc),
            forall|k: int|
                GATEWAY_COUNT <= k < anchors@.len() ==> #[trigger] raw_cell_anchor_ok(
                    anchors@,
                    w as int,
                    h as int,
                    loc,
                    k,
                ),
            forall|j: int|
                0 <= j < ci ==> slot_ok(map.tiles@, anchors@, w as int, #[trigger] cells@[j], j),
        decreases total - ci,
    {
        proof {
            assert(y < h) by (nonlinear_arith)
                requires x + y * w == ci, ci < total, total == w * h, 0 <= x, 0 <= y, w >= 1;
        }
        let ghost prev_anchors = anchors@;
        let ghost prev_cells = cells@;
        let t = map.tiles[ci];
        if t.is_passable() {
            let k = anchors.len();
            cells.push(Some(k));
            anchors.push(Anchor { pos: (x, y), area: loc, succ: Vec::new(), gateway: false });
        } else {
            cells.push(None);
        }
        proof {
            assert forall|kk: int|
                GATEWAY_COUNT <= kk < anchors@.len() implies #[trigger] raw_cell_anchor_ok(
                anchors@,
                w as int,
                h as int,
                loc,
                kk,
            ) by {
                if kk < prev_anchors.len() {
                    assert(raw_cell_anchor_ok(prev_anchors, w as int, h as int, loc, kk));
                    assert(anchors@[kk] == prev_anchors[kk]);
                }
            }
            assert forall|j: int| 0 <= j < cells@.len() implies slot_ok(
                map.tiles@,
                anchors@,
                w as int,
                #[trigger] cells@[j],
                j,
            ) by {
                if j < prev_cells.len() {
                    assert(slot_ok(map.tiles@, prev_anchors, w as int, prev_cells[j], j));
                    assert(cells@[j] == prev_cells[j]);
                    match prev_cells[j] {
                        Some(kk) => {
                            assert(anchors@[kk as int] == prev_anchors[kk as int]);
                        },
                        None => {},
                    }
                }
            }
        }
        ci += 1;
        if x + 1 == w {
            proof {
                assert((y + 1) * w == y * w + w) by (nonlinear_arith);
            }
            x = 0;
            y += 1;
        } else {
            x += 1;
        }
    }

    let pw = nearest_passable_in_column(map, 0, h / 2);
    let pe = nearest_passable_in_column(map, w - 1, h / 2);
    let pn = nearest_passable_in_row(map, h - 1, w / 2);
    let ps = nearest_passable_in_row(map, 0, w / 2);

    let n = anchors.len();
    let mut result: Vec<Anchor> = Vec::new();
    let mut k: usize = 0;
    while k < n
        invariant
            *map == *old(map),
            map.dims_ok(),
            w == map.width,
            h == map.height,
            loc == map.location,
            total == w * h,
            n == anchors@.len(),
            GATEWAY_COUNT <= n <= GATEWAY_COUNT + total,
            cells@.len() == total,
            gateway_layout(anchors@, w as int, h as int, loc),
            forall|kk: int|
                GATEWAY_COUNT <= kk < n ==> #[trigger] raw_cell_anchor_ok(
                    anchors@,
                    w as int,
                    h as int,
                    loc,
                    kk,
                ),
            forall|j: int|
                0 <= j < total ==> slot_ok(map.tiles@, anchors@, w as int, #[trigger] cells@[j], j),
            partner_ok_column(*map, 0, h as int / 2, pw),
            partner_ok_column(*map, w as int - 1, h as int / 2, pe),
            partner_ok_row(*map, h as int - 1, w as int / 2, pn),
            partner_ok_row(*map, 0, w as int / 2, ps),
            k <= n,
            result@.len() == k,
            k > GATEWAY_WEST ==> result@[GATEWAY_WEST as int].succ@ == gateway_succ_of(
                cells@,
                pw,
                w as int,
            ),
            k > GATEWAY_EAST ==> result@[GATEWAY_EAST as int].succ@ == gateway_succ_of(
                cells@,
                pe,
                w as int,
            ),
            k > GATEWAY_NORTH ==> result@[GATEWAY_NORTH as int].succ@ == gateway_succ_of(
                cells@,
                pn,
                w as int,
            ),
            k > GATEWAY_SOUTH ==> result@[GATEWAY_SOUTH as int].succ@ == gateway_succ_of(
                cells@,
                ps,
                w as int,
            ),
            forall|kk: int| 0 <= kk < k ==> #[trigger] built_ok(anchors@, result@, kk, n as int),
            forall|kk: int|
                GATEWAY_COUNT <= kk < k ==> #[trigger] wired_cell(
                    cells@,
                    result@[kk].succ@,
                    anchors@[kk].pos,
                    w as int,
                    h as int,
                ),
            forall|kk: int|
                GATEWAY_COUNT <= kk < k ==> #[trigger] gateway_recip_ok(
                    result@[kk].succ@,
                    anchors@[kk].pos,
                    pw,
                    pe,
                    pn,
                    ps,
                ),
        decreases n - k,
    {
        let mut succ: Vec<(usize, usize)> = Vec::new();
        if k < GATEWAY_COUNT {
            let partner: Option<(usize, usize)> = if k == GATEWAY_WEST {
                pw
            } else if k == GATEWAY_EAST {
                pe
            } else if k == GATEWAY_NORTH {
                pn
            } else {
                ps
            };
            match partner {
                Some(p) => {
                    proof {
                        lemma_cell_index_bound(p.0 as int, p.1 as int, w as int, h as int);
                    }
                    let pci = p.0 + p.1 * w;
                    match cells[pci] {
                        Some(j) => {
                            succ.push((j, 1));
                        },
                        None => {},
                    }
                },
                None => {},
            }
            proof {
                assert(succ@ =~= gateway_succ_of(cells@, partner, w as int));
            }
        } else {
            proof {
                assert(raw_cell_anchor_ok(anchors@, w as int, h as int, loc, k as int));
            }
            let ax = anchors[k].pos.0;
            let ay = anchors[k].pos.1;
            succ = wire_cell_succ(map, &cells, &anchors, loc, pw, pe, pn, ps, ax, ay);
        }
        let ghost prev_result = result@;
        result.push(
            Anchor { pos: anchors[k].pos, area: anchors[k].area, succ, gateway: anchors[k].gateway },
        );
        proof {
            assert forall|kk: int| 0 <= kk < result@.len() implies #[trigger] built_ok(
                anchors@,
                result@,
                kk,
                n as int,
            ) by {
                if kk < prev_result.len() {
                    assert(built_ok(anchors@, prev_result, kk, n as int));
                    assert(result@[kk] == prev_result[kk]);
                } else {
                    assert(result@[kk].succ@ == succ@);
                }
            }
            assert forall|kk: int|
                GATEWAY_COUNT <= kk < result@.len() implies #[trigger] wired_cell(
                cells@,
                result@[kk].succ@,
                anchors@[kk].pos,
                w as int,
                h as int,
            ) by {
                if kk < prev_result.len() {
                    assert(wired_cell(
                        cells@,
                        prev_result[kk].succ@,
                        anchors@[kk].pos,
                        w as int,
                        h as int,
                    ));
                    assert(result@[kk] == prev_result[kk]);
                } else {
                    assert(result@[kk].succ@ == succ@);
                }
            }
            assert forall|kk: int|
                GATEWAY_COUNT <= kk < result@.len() implies #[trigger] gateway_recip_ok(
                result@[kk].succ@,
                anchors@[kk].pos,
                pw,
                pe,
                pn,
                ps,
            ) by {
                if kk < prev_result.len() {
                    assert(gateway_recip_ok(prev_result[kk].succ@, anchors@[kk].pos, pw, pe, pn, ps));
                    assert(result@[kk] == prev_result[kk]);
                } else {
                    assert(result@[kk].succ@ == succ@);
                }
            }
            if k > GATEWAY_WEST {
                assert(result@[GATEWAY_WEST as int] == prev_result[GATEWAY_WEST as int]);
            }
            if k > GATEWAY_EAST {
                assert(result@[GATEWAY_EAST as int] == prev_result[GATEWAY_EAST as int]);
            }
            if k > GATEWAY_NORTH {
                assert(result@[GATEWAY_NORTH as int] == prev_result[GATEWAY_NORTH as int]);
            }
            if k > GATEWAY_SOUTH {
                assert(result@[GATEWAY_SOUTH as int] == prev_result[GATEWAY_SOUTH as int]);
            }
        }
        k += 1;
    }

    map.anchor_points = result;
    map.cell_anchor = cells;
    map.rerolled = false;

    proof {
        assert(built_ok(anchors@, map.anchor_points@, 0, n as int));
        assert(built_ok(anchors@, map.anchor_points@, 1, n as int));
        assert(built_ok(anchors@, map.anchor_points@, 2, n as int));
        assert(built_ok(anchors@, map.anchor_points@, 3, n as int));
        assert(gateway_layout(map.anchor_points@, w as int, h as int, loc));
        assert forall|kk: int| 0 <= kk < map.anchor_points@.len() implies #[trigger] anchor_ok(
            *map,
            kk,
        ) by {
            assert(built_ok(anchors@, map.anchor_points@, kk, n as int));
            if kk >= GATEWAY_COUNT {
                assert(raw_cell_anchor_ok(anchors@, w as int, h as int, loc, kk));
            }
            assert forall|j: int|
                0 <= j < map.anchor_points@[kk].succ@.len() && (#[trigger] map.anchor_points@[kk].succ@[j]).0
                    >= GATEWAY_COUNT && kk >= GATEWAY_COUNT implies adjacent(
                map.anchor_points@[kk].pos,
                map.anchor_points@[map.anchor_points@[kk].succ@[j].0 as int].pos,
            ) by {
                let tgt = map.anchor_points@[kk].succ@[j].0 as int;
                assert(built_ok(anchors@, map.anchor_points@, tgt, n as int));
            }
        }
        assert forall|x: int, y: int|
            0 <= x < map.width && 0 <= y < map.height implies #[trigger] cell_neighbors_linked(
            *map,
            x,
            y,
        ) by {
            let wi = w as int;
            lemma_cell_index_bound(x, y, wi, h as int);
            let ci = x + y * wi;
            assert(slot_ok(map.tiles@, anchors@, wi, cells@[ci], ci));
            match map.cell_anchor@[ci] {
                Some(kk) => {
                    assert(raw_cell_anchor_ok(anchors@, wi, h as int, loc, kk as int));
                    let kp = anchors@[kk as int].pos;
                    lemma_cell_eq_unique(kp.0 as int, kp.1 as int, x, y, wi);
                    assert(wired_cell(
                        cells@,
                        map.anchor_points@[kk as int].succ@,
                        anchors@[kk as int].pos,
                        wi,
                        h as int,
                    ));
                },
                None => {},
            }
        }
        assert forall|j: int| 0 <= j < map.cell_anchor@.len() implies slot_ok(
            map.tiles@,
            map.anchor_points@,
            w as int,
            #[trigger] map.cell_anchor@[j],
            j,
        ) by {
            assert(slot_ok(map.tiles@, anchors@, w as int, map.cell_anchor@[j], j));
            match map.cell_anchor@[j] {
                Some(kk) => {
                    assert(built_ok(anchors@, map.anchor_points@, kk as int, n as int));
                },
                None => {},
            }
        }
        lemma_partner_ok_column_same_terrain(*old(map), *map, 0, h as int / 2, pw);
        lemma_partner_ok_column_same_terrain(*old(map), *map, w as int - 1, h as int / 2, pe);
        lemma_partner_ok_row_same_terrain(*old(map), *map, h as int - 1, w as int / 2, pn);
        lemma_partner_ok_row_same_terrain(*old(map), *map, 0, w as int / 2, ps);
        lemma_gateway_wired_column(*map, anchors@, loc, GATEWAY_WEST as int, 0, h as int / 2, pw, pw, pe, pn, ps);
        lemma_gateway_wired_column(
            *map,
            anchors@,
            loc,
            GATEWAY_EAST as int,
            w as int - 1,
            h as int / 2,
            pe,
            pw,
            pe,
            pn,
            ps,
        );
        lemma_gateway_wired_row(
            *map,
            anchors@,
            loc,
            GATEWAY_NORTH as int,
            h as int - 1,
            w as int / 2,
            pn,
            pw,
            pe,
            pn,
            ps,
        );
        lemma_gateway_wired_row(*map, anchors@, loc, GATEWAY_SOUTH as int, 0, w as int / 2, ps, pw, pe, pn, ps);
    }
}

/// Two cells with the same row-major index are the same cell.
pub proof fn lemma_cell_eq_unique(x1: int, y1: int, x2: int, y2: int, w: int)
    requires
        0 <= x1 < w,
        0 <= x2 < w,
        y1 >= 0,
        y2 >= 0,
        x1 + y1 * w == x2 + y2 * w,
    ensures
        x1 == x2,
        y1 == y2,
{
    assert(x1 == x2 && y1 == y2) by (nonlinear_arith)
        requires
            0 <= x1 < w,
            0 <= x2 < w,
            y1 >= 0,
            y2 >= 0,
            x1 + y1 * w == x2 + y2 * w,
    ;
}

} // verus!
