use vstd::prelude::*;
use crate::anchors::{anchor_like, anchor_ok, anchor_pos_ok, graph_wf, Anchor};
use crate::game_state::{abs_diff_spec, WorldMap};

verus! {

/// Divisor applied to the Manhattan distance in the search heuristic. It
/// assumes a typical edge cost; deliberately loose, it trades optimality for
/// speed.
pub const HEURISTIC_SCALE: usize = 3;

/// An edge of the active navigation graph from anchor `a` to anchor `b` at
/// cost `c`.
pub open spec fn has_edge(m: WorldMap, a: int, b: usize, c: usize) -> bool {
    &&& 0 <= a < m.anchor_points@.len()
    &&& m.anchor_points@[a].succ@.contains((b, c))
}

/// The index sequence walks the graph's successor edges and its edge costs
/// sum to `total`.
pub open spec fn path_ok(m: WorldMap, p: Seq<usize>, total: int) -> bool
    decreases p.len(),
{
    if p.len() == 0 {
        false
    } else if p.len() == 1 {
        total == 0
    } else {
        exists|c: usize|
            has_edge(m, p[0] as int, p[1], c) && path_ok(m, p.drop_first(), total - c)
    }
}

/// `steps` are copies of the anchors that an edge walk `p` from `origin`
/// visits after leaving `origin`, and the walk's costs sum to `cost`.
pub open spec fn lifts_path(
    m: WorldMap,
    origin: usize,
    p: Seq<usize>,
    steps: Seq<Anchor>,
    cost: int,
) -> bool {
    &&& p.len() == steps.len() + 1
    &&& p[0] == origin
    &&& path_ok(m, p, cost)
    &&& forall|i: int| 0 <= i < p.len() ==> #[trigger] p[i] < m.anchor_points@.len()
    &&& forall|i: int|
        0 <= i < steps.len() ==> anchor_like(m.anchor_points@[p[i + 1] as int], #[trigger] steps[i])
}

/// A planned step list: some edge walk from `origin` to `goal` lifts to it.
pub open spec fn planned_steps(
    m: WorldMap,
    origin: usize,
    goal: usize,
    steps: Seq<Anchor>,
    cost: int,
) -> bool {
    exists|p: Seq<usize>| #[trigger] lifts_path(m, origin, p, steps, cost) && p.last() == goal
}

/// The successor edges of an anchor, by index; anchors outside the list have
/// none.
fn successors_of(m: &WorldMap, i: usize) -> (r: Vec<(usize, usize)>)
    ensures
        i < m.anchor_points@.len() ==> r@ == m.anchor_points@[i as int].succ@,
        i >= m.anchor_points@.len() ==> r@.len() == 0,
{
    if i < m.anchor_points.len() {
        let a = m.anchor_points[i].duplicate();
        a.succ
    } else {
        Vec::new()
    }
}

/// The Manhattan distance between two anchors' grid positions, scaled down by
/// the heuristic divisor.
pub open spec fn heuristic_spec(p: (usize, usize), q: (usize, usize)) -> int {
    (abs_diff_spec(p.0 as int, q.0 as int) + abs_diff_spec(p.1 as int, q.1 as int))
        / HEURISTIC_SCALE as int
}

/// The search heuristic: scaled Manhattan distance between two anchors of the
/// active graph, zero for indices outside it.
fn heuristic_between(m: &WorldMap, i: usize, goal: usize) -> (r: usize)
    requires
        graph_wf(*m),
    ensures
        i < m.anchor_points@.len() && goal < m.anchor_points@.len() ==> r == heuristic_spec(
            m.anchor_points@[i as int].pos,
            m.anchor_points@[goal as int].pos,
        ),
{
    if i < m.anchor_points.len() && goal < m.anchor_points.len() {
        proof {
            assert(anchor_ok(*m, i as int));
            assert(anchor_ok(*m, goal as int));
        }
        let p = m.anchor_points[i].pos;
        let q = m.anchor_points[goal].pos;
        let dx = if p.0 >= q.0 {
            p.0 - q.0
        } else {
            q.0 - p.0
        };
        let dy = if p.1 >= q.1 {
            p.1 - q.1
        } else {
            q.1 - p.1
        };
        (dx + dy) / HEURISTIC_SCALE
    } else {
        0
    }
}

/// Relies on `pathfinding::prelude::astar`: a returned path starts at the
/// start node, ends at the first node that passes the success test, follows
/// only edges that the successors closure produced, and comes with the sum of
/// the traversed edge costs. `None` comes back only when the search has
/// drained its frontier without reaching the goal, which on this finite graph
/// means no walk along the successors' edges leads from start to goal. The
/// closures hand the search this graph's edges, the scaled Manhattan
/// heuristic, and an index-equality goal test.
#[verifier::external_body]
fn astar_indices(m: &WorldMap, start: usize, goal: usize) -> (r: Option<(Vec<usize>, usize)>)
    requires
        graph_wf(*m),
        start < m.anchor_points@.len(),
        goal < m.anchor_points@.len(),
    ensures
        r matches Some(pc) ==> {
            &&& pc.0@.len() >= 1
            &&& pc.0@[0] == start
            &&& pc.0@.last() == goal
            &&& forall|i: int| 0 <= i < pc.0@.len() ==> #[trigger] pc.0@[i] < m.anchor_points@.len()
            &&& path_ok(*m, pc.0@, pc.1 as int)
        },
        r is None ==> forall|p: Seq<usize>, c: int|
            !(p.len() >= 1 && p[0] == start && p.last() == goal && #[trigger] path_ok(*m, p, c)),
{
    pathfinding::prelude::astar(
        &start,
        |i: &usize| successors_of(m, *i),
        |i: &usize| heuristic_between(m, *i, goal),
        |i: &usize| *i == goal,
    )
}

/// A* search over the active navigation graph between two anchors, given by
/// index. Equal origin and goal succeed at once with an empty step list and
/// zero cost; otherwise a success carries copies of the anchors to walk, in
/// order, ending at the goal, together with the summed edge cost.
pub fn find_path(m: &WorldMap, origin: usize, goal: usize) -> (r: Option<(Vec<Anchor>, usize)>)
    requires
        graph_wf(*m),
        origin < m.anchor_points@.len(),
        goal < m.anchor_points@.len(),
    ensures
        origin == goal ==> (r matches Some(pc) && pc.0@.len() == 0 && pc.1 == 0),
        r matches Some(pc) ==> planned_steps(*m, origin, goal, pc.0@, pc.1 as int),
        r matches Some(pc) ==> forall|i: int|
            0 <= i < pc.0@.len() ==> anchor_pos_ok(#[trigger] pc.0@[i]) && pc.0@[i].area
                == m.location,
        r matches Some(pc) ==> (pc.0@.len() > 0 ==> anchor_like(
            m.anchor_points@[goal as int],
            pc.0@.last(),
        )),
        r is None ==> forall|steps: Seq<Anchor>, cost: int|
            !(#[trigger] planned_steps(*m, origin, goal, steps, cost)),
{
    if origin == goal {
        let v: Vec<Anchor> = Vec::new();
        proof {
            let p = seq![origin];
            assert(path_ok(*m, p, 0));
            assert(v@ =~= Seq::<Anchor>::empty());
            assert(lifts_path(*m, origin, p, v@, 0));
            assert(p.last() == goal);
        }
        return Some((v, 0));
    }
    match astar_indices(m, origin, goal) {
        None => {
            proof {
                assert forall|steps: Seq<Anchor>, cost: int|
                    !(#[trigger] planned_steps(*m, origin, goal, steps, cost)) by {
                    if planned_steps(*m, origin, goal, steps, cost) {
                        let p = choose|p: Seq<usize>|
                            #[trigger] lifts_path(*m, origin, p, steps, cost) && p.last() == goal;
                        assert(p.len() >= 1 && p[0] == origin && p.last() == goal);
                        assert(path_ok(*m, p, cost));
                        assert(false);
                    }
                }
            }
            None
        },
        Some((ip, c)) => {
            let mut steps: Vec<Anchor> = Vec::new();
            let mut i: usize = 1;
            while i < ip.len()
                invariant
                    graph_wf(*m),
                    1 <= i <= ip@.len(),
                    ip@.len() >= 1,
                    forall|j: int| 0 <= j < ip@.len() ==> #[trigger] ip@[j] < m.anchor_points@.len(),
                    steps@.len() == i - 1,
                    forall|j: int|
                        0 <= j < steps@.len() ==> anchor_like(
                            m.anchor_points@[ip@[j + 1] as int],
                            #[trigger] steps@[j],
                        ),
                    forall|j: int|
                        0 <= j < steps@.len() ==> anchor_pos_ok(#[trigger] steps@[j])
                            && steps@[j].area == m.location,
                decreases ip@.len() - i,
            {
                proof {
                    assert(anchor_ok(*m, ip@[i as int] as int));
                }
                let a = m.anchor_points[ip[i]].duplicate();
                steps.push(a);
                i += 1;
            }
            proof {
                assert(steps@.len() == ip@.len() - 1);
                assert(lifts_path(*m, origin, ip@, steps@, c as int));
                assert(ip@.last() == goal);
                if steps@.len() > 0 {
                    assert(anchor_like(
                        m.anchor_points@[ip@[steps@.len() - 1 + 1] as int],
                        steps@[steps@.len() - 1],
                    ));
                }
            }
            Some((steps, c))
        },
    }
}

} // verus!

