use vstd::prelude::*;

use crate::grid::grid::PathfindingGrid;
use crate::path::position_map::PositionMap;
use crate::primitive::vector::{clamped_sum, spec_step, spec_step_n, Vec3I};

verus! {

/// A node on the open list: a position and the priority it was pushed with.
#[derive(Clone, Copy)]
struct JpsINode {
    position: Vec3I,
    cost: u128,
}

/// The six axis-aligned unit directions the search scans, in scan order.
pub open spec fn spec_directions() -> Seq<Vec3I> {
    seq![
        Vec3I { x: 1i64, y: 0i64, z: 0i64 },
        Vec3I { x: -1i64, y: 0i64, z: 0i64 },
        Vec3I { x: 0i64, y: 1i64, z: 0i64 },
        Vec3I { x: 0i64, y: -1i64, z: 0i64 },
        Vec3I { x: 0i64, y: 0i64, z: 1i64 },
        Vec3I { x: 0i64, y: 0i64, z: -1i64 },
    ]
}

/// Every direction has unit components.
proof fn lemma_direction_components(d: Vec3I)
    requires
        spec_directions().contains(d),
    ensures
        -1 <= d.x <= 1,
        -1 <= d.y <= 1,
        -1 <= d.z <= 1,
{
    let i = choose|i: int| 0 <= i < spec_directions().len() && spec_directions()[i] == d;
    assert(0 <= i < 6);
}

/// Every cell stepped over between `a` (exclusive) and `a + k*d` (inclusive)
/// lies in the walkable set `w`.
pub open spec fn spec_run_walkable(w: Set<Vec3I>, a: Vec3I, d: Vec3I, k: int) -> bool {
    forall|j: int| 1 <= j <= k ==> w.contains(#[trigger] spec_step_n(a, d, j))
}

/// `b` is reached from `a` by a straight walkable run: at least one step in
/// one of the six scan directions, every stepped cell walkable.
pub open spec fn spec_jump_connected(w: Set<Vec3I>, a: Vec3I, b: Vec3I) -> bool {
    exists|di: int, k: int|
        0 <= di < 6 && 1 <= k && b == #[trigger] spec_step_n(a, spec_directions()[di], k)
            && spec_run_walkable(w, a, spec_directions()[di], k)
}

/// The far end of a straight walkable run is itself walkable.
proof fn lemma_jump_connected_valid(w: Set<Vec3I>, a: Vec3I, b: Vec3I)
    requires
        spec_jump_connected(w, a, b),
    ensures
        w.contains(b),
{
    let (di, k): (int, int) = choose|di: int, k: int|
        0 <= di < 6 && 1 <= k && b == #[trigger] spec_step_n(a, spec_directions()[di], k)
            && spec_run_walkable(w, a, spec_directions()[di], k);
    assert(w.contains(spec_step_n(a, spec_directions()[di], k)));
}

/// The 90-degree left turn of `d` within the plane orthogonal to the
/// vertical axis.
pub open spec fn spec_turn_left(d: Vec3I) -> Vec3I {
    Vec3I { x: (0 - d.z as int) as i64, y: d.y, z: d.x }
}

/// The 90-degree right turn of `d` within the plane orthogonal to the
/// vertical axis.
pub open spec fn spec_turn_right(d: Vec3I) -> Vec3I {
    Vec3I { x: d.z, y: d.y, z: (0 - d.x as int) as i64 }
}

/// First horizontal direction orthogonal to `d`.
pub open spec fn spec_ortho_a(d: Vec3I) -> Vec3I {
    Vec3I { x: (0 - d.z as int) as i64, y: 0i64, z: d.x }
}

/// Second horizontal direction orthogonal to `d`.
pub open spec fn spec_ortho_b(d: Vec3I) -> Vec3I {
    Vec3I { x: d.z, y: 0i64, z: (0 - d.x as int) as i64 }
}

/// An obstacle at the diagonal `p + d + o` forces a direction change through
/// `p` when the adjacent cell `p + o` is itself walkable.
pub open spec fn spec_forced_along(w: Set<Vec3I>, p: Vec3I, d: Vec3I, o: Vec3I) -> bool {
    !w.contains(spec_step(spec_step(p, d), o)) && w.contains(spec_step(p, o))
}

/// `p` has a forced neighbor for test direction `d`: one of the two
/// horizontal directions orthogonal to `d` is walkable while its diagonal
/// is not.
pub open spec fn spec_has_forced_neighbors(w: Set<Vec3I>, p: Vec3I, d: Vec3I) -> bool {
    spec_forced_along(w, p, d, spec_ortho_a(d)) || spec_forced_along(w, p, d, spec_ortho_b(d))
}

/// `p` is a jump point for scan direction `d`: it has a forced neighbor
/// along `d` itself or along one of the two horizontal turns of `d`.
pub open spec fn spec_is_jump_point(w: Set<Vec3I>, p: Vec3I, d: Vec3I) -> bool {
    spec_has_forced_neighbors(w, p, d) || spec_has_forced_neighbors(w, p, spec_turn_left(d))
        || spec_has_forced_neighbors(w, p, spec_turn_right(d))
}

/// Manhattan distance between `a` and `b`, clamped to the cost range.
pub open spec fn spec_heuristic(a: Vec3I, b: Vec3I) -> int {
    let m = vstd::math::abs(a.x - b.x) + vstd::math::abs(a.y - b.y) + vstd::math::abs(a.z - b.z);
    if m > u64::MAX {
        u64::MAX as int
    } else {
        m as int
    }
}

/// A well-formed predecessor map: every recorded predecessor is itself a key.
pub open spec fn spec_pred_map_wf(m: Map<Vec3I, Option<Vec3I>>) -> bool {
    forall|n: Vec3I|
        #[trigger] m.contains_key(n) ==> (m[n] matches Option::Some(c) ==> m.contains_key(c))
}

/// `rank` strictly decreases along predecessor links of `m`, which rules out
/// cycles; the accumulated-cost map of the search is such a rank.
pub open spec fn spec_pred_map_ranked(m: Map<Vec3I, Option<Vec3I>>, rank: Map<Vec3I, u128>) -> bool {
    forall|n: Vec3I|
        #[trigger] m.contains_key(n) ==> (m[n] matches Option::Some(c) ==> rank.contains_key(n)
            && rank.contains_key(c) && rank[c] < rank[n])
}

/// A returned waypoint sequence is a path over the walkable set `w`: it
/// leads from `start` to `goal`, every consecutive pair is connected by a
/// straight walkable run, and every waypoint after the first is walkable.
pub open spec fn spec_path_ok(w: Set<Vec3I>, start: Vec3I, goal: Vec3I, p: Seq<Vec3I>) -> bool {
    &&& p.len() >= 1
    &&& p[0] == start
    &&& p[p.len() - 1] == goal
    &&& forall|i: int| 0 <= i < p.len() - 1 ==> spec_jump_connected(w, #[trigger] p[i], p[i + 1])
    &&& forall|i: int| 1 <= i < p.len() ==> w.contains(#[trigger] p[i])
}

/// Path validity in full: a path that is valid in the sense of
/// `spec_path_ok` starts at `start`, ends at `goal`, and — whenever `start`
/// is itself walkable — every one of its waypoints is walkable. (When
/// `start` is not walkable the search may still scan outward from it, so
/// only the first waypoint can be an obstacle.)
pub proof fn lemma_path_waypoints_walkable(
    w: Set<Vec3I>,
    start: Vec3I,
    goal: Vec3I,
    p: Seq<Vec3I>,
)
    requires
        spec_path_ok(w, start, goal, p),
        w.contains(start),
    ensures
        forall|i: int| 0 <= i < p.len() ==> w.contains(#[trigger] p[i]),
{
    assert forall|i: int| 0 <= i < p.len() implies w.contains(#[trigger] p[i]) by {
        if i == 0 {
            assert(p[0] == start);
        }
    }
}

/// What a path query over the walkable set `w` promises. A returned path is
/// valid in the sense of `spec_path_ok`; a query with `start == goal` always
/// returns the single-waypoint path; when the goal itself is not walkable no
/// path is ever returned; and "no path" is answered only when the goal is
/// not jump-point reachable from the start, so success is owed on every
/// query the scan discipline can solve.
pub open spec fn spec_jps_post(
    w: Set<Vec3I>,
    start: Vec3I,
    goal: Vec3I,
    r: Option<Vec<Vec3I>>,
) -> bool {
    &&& (start == goal ==> r is Some)
    &&& (start != goal && !w.contains(goal) ==> r is None)
    &&& (r is None ==> !spec_jps_reachable(w, start, goal))
    &&& match r {
        Option::Some(p) => spec_path_ok(w, start, goal, p@) && (start == goal ==> p@ =~= seq![
            start,
        ]),
        Option::None => true,
    }
}


/// The machine-bounded region walkable cells live in (one cell of slack
/// beyond the bound every grid promises through `is_valid_path_node_i`).
pub open spec fn spec_in_coord_box(p: Vec3I) -> bool {
    &&& -0x4000_0000 <= p.x <= 0x4000_0000
    &&& -0x4000_0000 <= p.y <= 0x4000_0000
    &&& -0x4000_0000 <= p.z <= 0x4000_0000
}

/// The number of positions in the coordinate box: its side, cubed.
pub open spec fn spec_box_volume() -> int {
    0x8000_0001int * 0x8000_0001int * 0x8000_0001int
}

/// An upper bound on the number of distinct positions the search can ever
/// record: every box position, plus the start.
pub open spec fn spec_key_bound() -> int {
    spec_box_volume() + 1
}

/// An upper bound on the accumulated cost of one straight scan.
pub open spec fn spec_jump_bound() -> int {
    0x8000_0004int
}

/// An upper bound on every cost the search records.
pub open spec fn spec_value_bound() -> int {
    spec_key_bound() * spec_jump_bound()
}

/// An injective code for the positions the search can record: box positions
/// pack into `[0, spec_box_volume())`, the start takes the one code above
/// them.
pub open spec fn spec_key_code(start: Vec3I, p: Vec3I) -> int {
    if p == start {
        spec_box_volume()
    } else {
        (p.x + 0x4000_0000) + (p.z + 0x4000_0000) * 0x8000_0001int + (p.y + 0x4000_0000) * (
        0x8000_0001int * 0x8000_0001int)
    }
}

/// Key codes stay in `[0, spec_box_volume()]`, strictly below the start's
/// code for any box position other than the start.
proof fn lemma_key_code_range(start: Vec3I, p: Vec3I)
    requires
        p == start || spec_in_coord_box(p),
    ensures
        0 <= spec_key_code(start, p) <= spec_box_volume(),
        p != start ==> spec_key_code(start, p) < spec_box_volume(),
{
    if p != start {
        let w = 0x8000_0001int;
        let a = p.x + 0x4000_0000;
        let b = p.z + 0x4000_0000;
        let c = p.y + 0x4000_0000;
        assert(a + b * w + c * (w * w) >= 0 && a + b * w + c * (w * w) < w * w * w)
            by (nonlinear_arith)
            requires
                0 <= a < w,
                0 <= b < w,
                0 <= c < w,
        ;
    }
}

/// Distinct recordable positions have distinct key codes.
proof fn lemma_key_code_injective(start: Vec3I, p: Vec3I, q: Vec3I)
    requires
        p == start || spec_in_coord_box(p),
        q == start || spec_in_coord_box(q),
        spec_key_code(start, p) == spec_key_code(start, q),
    ensures
        p == q,
{
    lemma_key_code_range(start, p);
    lemma_key_code_range(start, q);
    if p != start && q != start {
        let w = 0x8000_0001int;
        crate::grid::voxel::static_sized_voxel_grid::lemma_pack_unpack(
            w,
            w,
            p.x + 0x4000_0000,
            p.z + 0x4000_0000,
            p.y + 0x4000_0000,
        );
        crate::grid::voxel::static_sized_voxel_grid::lemma_pack_unpack(
            w,
            w,
            q.x + 0x4000_0000,
            q.z + 0x4000_0000,
            q.y + 0x4000_0000,
        );
    }
}

/// The projection of `p` onto scan direction `d`; it advances by one per
/// exact step.
pub open spec fn spec_dot(p: Vec3I, d: Vec3I) -> int {
    p.x * d.x + p.y * d.y + p.z * d.z
}

/// A step that lands inside the coordinate box cannot have clamped, so the
/// direction projection advanced by exactly one and stays within the box
/// bound.
proof fn lemma_step_dot(prev: Vec3I, d: Vec3I, next: Vec3I)
    requires
        spec_directions().contains(d),
        next == spec_step(prev, d),
        spec_in_coord_box(next),
    ensures
        spec_dot(next, d) == spec_dot(prev, d) + 1,
        -0x4000_0000 <= spec_dot(next, d) <= 0x4000_0000,
{
    let dirs = spec_directions();
    let i = choose|i: int| 0 <= i < dirs.len() && dirs[i] == d;
    assert(0 <= i < 6);
    assert(dirs[0] == Vec3I { x: 1i64, y: 0i64, z: 0i64 });
    assert(dirs[1] == Vec3I { x: -1i64, y: 0i64, z: 0i64 });
    assert(dirs[2] == Vec3I { x: 0i64, y: 1i64, z: 0i64 });
    assert(dirs[3] == Vec3I { x: 0i64, y: -1i64, z: 0i64 });
    assert(dirs[4] == Vec3I { x: 0i64, y: 0i64, z: 1i64 });
    assert(dirs[5] == Vec3I { x: 0i64, y: 0i64, z: -1i64 });
    if d.x == 1 {
        assert(next.y == prev.y && next.z == prev.z && next.x == prev.x + 1);
        assert(spec_dot(next, d) == next.x && spec_dot(prev, d) == prev.x);
    } else if d.x == -1 {
        assert(next.y == prev.y && next.z == prev.z && next.x == prev.x - 1);
        assert(spec_dot(next, d) == -next.x && spec_dot(prev, d) == -prev.x);
    } else if d.y == 1 {
        assert(next.x == prev.x && next.z == prev.z && next.y == prev.y + 1);
        assert(spec_dot(next, d) == next.y && spec_dot(prev, d) == prev.y);
    } else if d.y == -1 {
        assert(next.x == prev.x && next.z == prev.z && next.y == prev.y - 1);
        assert(spec_dot(next, d) == -next.y && spec_dot(prev, d) == -prev.y);
    } else if d.z == 1 {
        assert(next.x == prev.x && next.y == prev.y && next.z == prev.z + 1);
        assert(spec_dot(next, d) == next.z && spec_dot(prev, d) == prev.z);
    } else {
        assert(d.z == -1);
        assert(next.x == prev.x && next.y == prev.y && next.z == prev.z - 1);
        assert(spec_dot(next, d) == -next.z && spec_dot(prev, d) == -prev.z);
    }
}

/// `m` is the first jump point reached from `n` by a straight walkable scan
/// in direction `d`: it is `k` walkable steps out, and no earlier stepped
/// cell is a jump point.
pub open spec fn spec_first_jump_at(w: Set<Vec3I>, n: Vec3I, d: Vec3I, m: Vec3I, k: int) -> bool {
    &&& 1 <= k
    &&& m == spec_step_n(n, d, k)
    &&& spec_run_walkable(w, n, d, k)
    &&& spec_is_jump_point(w, m, d)
    &&& forall|j: int| 1 <= j < k ==> !spec_is_jump_point(w, #[trigger] spec_step_n(n, d, j), d)
}

/// The scan successor relation: what one straight-line scan of the search
/// discovers from `n` in direction `d`.
pub open spec fn spec_jump_successor(w: Set<Vec3I>, n: Vec3I, d: Vec3I, m: Vec3I) -> bool {
    exists|k: int| spec_first_jump_at(w, n, d, m, k)
}

/// Each scan discovers at most one successor per direction.
proof fn lemma_jump_successor_unique(w: Set<Vec3I>, n: Vec3I, d: Vec3I, m1: Vec3I, m2: Vec3I)
    requires
        spec_jump_successor(w, n, d, m1),
        spec_jump_successor(w, n, d, m2),
    ensures
        m1 == m2,
{
    let k1 = choose|k: int| spec_first_jump_at(w, n, d, m1, k);
    let k2 = choose|k: int| spec_first_jump_at(w, n, d, m2, k);
    if k1 < k2 {
        assert(!spec_is_jump_point(w, spec_step_n(n, d, k1), d));
        assert(false);
    } else if k2 < k1 {
        assert(!spec_is_jump_point(w, spec_step_n(n, d, k2), d));
        assert(false);
    }
}

/// Every scan successor of `n` is already recorded in `m`.
pub open spec fn spec_expanded(w: Set<Vec3I>, m: Map<Vec3I, u128>, n: Vec3I) -> bool {
    forall|di: int, s: Vec3I|
        0 <= di < 6 && #[trigger] spec_jump_successor(w, n, spec_directions()[di], s)
            ==> m.contains_key(s)
}

/// Recording one more node cannot un-expand a node.
proof fn lemma_expanded_insert(
    w: Set<Vec3I>,
    m: Map<Vec3I, u128>,
    key: Vec3I,
    value: u128,
    n: Vec3I,
)
    requires
        spec_expanded(w, m, n),
    ensures
        spec_expanded(w, m.insert(key, value), n),
{
    assert forall|di: int, s: Vec3I|
        0 <= di < 6 && #[trigger] spec_jump_successor(w, n, spec_directions()[di], s) implies m
        .insert(key, value).contains_key(s) by {
        assert(m.contains_key(s));
    }
}

/// Consecutive elements are scan successors in one of the six directions.
pub open spec fn spec_successor_chain(w: Set<Vec3I>, chain: Seq<Vec3I>) -> bool {
    forall|i: int|
        0 <= i < chain.len() - 1 ==> exists|di: int|
            0 <= di < 6 && spec_jump_successor(
                w,
                #[trigger] chain[i],
                spec_directions()[di],
                chain[i + 1],
            )
}

/// `g` is reachable from `s` by the search's own scan discipline: it is `s`
/// itself, or a finite chain of scan successors leads from `s` to `g`. The
/// search owes a path exactly on these queries; a goal the forced-neighbor
/// rule never surfaces as a jump point is outside this relation.
pub open spec fn spec_jps_reachable(w: Set<Vec3I>, s: Vec3I, g: Vec3I) -> bool {
    ||| s == g
    ||| exists|chain: Seq<Vec3I>|
        #![trigger spec_successor_chain(w, chain)]
        spec_successor_chain(w, chain) && chain.len() >= 2 && chain[0] == s && chain[chain.len()
            - 1] == g
}

/// Every node of a successor chain that starts inside a successor-closed
/// record is itself recorded.
proof fn lemma_chain_settled(w: Set<Vec3I>, m: Map<Vec3I, u128>, chain: Seq<Vec3I>, i: int)
    requires
        spec_successor_chain(w, chain),
        0 <= i < chain.len(),
        m.contains_key(chain[0]),
        forall|n: Vec3I| #[trigger] m.contains_key(n) ==> spec_expanded(w, m, n),
    ensures
        m.contains_key(chain[i]),
    decreases i,
{
    if i > 0 {
        lemma_chain_settled(w, m, chain, i - 1);
        let di = choose|di: int|
            0 <= di < 6 && spec_jump_successor(w, chain[i - 1], spec_directions()[di], chain[i]);
        assert(spec_expanded(w, m, chain[i - 1]));
        assert(m.contains_key(chain[i]));
    }
}

/// A successor-closed record that contains the start but not the goal
/// shows the goal is not scan-reachable.
proof fn lemma_none_unreachable(w: Set<Vec3I>, m: Map<Vec3I, u128>, start: Vec3I, goal: Vec3I)
    requires
        m.contains_key(start),
        !m.contains_key(goal),
        start != goal,
        forall|n: Vec3I| #[trigger] m.contains_key(n) ==> spec_expanded(w, m, n),
    ensures
        !spec_jps_reachable(w, start, goal),
{
    if spec_jps_reachable(w, start, goal) {
        let chain = choose|chain: Seq<Vec3I>|
            #![trigger spec_successor_chain(w, chain)]
            spec_successor_chain(w, chain) && chain.len() >= 2 && chain[0] == start
                && chain[chain.len() - 1] == goal;
        lemma_chain_settled(w, m, chain, chain.len() - 1);
        assert(false);
    }
}

/// The cost values recorded in an entry list, summed.
pub open spec fn spec_cost_sum(s: Seq<(Vec3I, u128)>) -> int
    decreases s.len(),
{
    if s.len() == 0 {
        0
    } else {
        spec_cost_sum(s.drop_last()) + s.last().1
    }
}

proof fn lemma_cost_sum_nonneg(s: Seq<(Vec3I, u128)>)
    ensures
        spec_cost_sum(s) >= 0,
    decreases s.len(),
{
    if s.len() > 0 {
        lemma_cost_sum_nonneg(s.drop_last());
    }
}

proof fn lemma_cost_sum_update(s: Seq<(Vec3I, u128)>, i: int, e: (Vec3I, u128))
    requires
        0 <= i < s.len(),
    ensures
        spec_cost_sum(s.update(i, e)) == spec_cost_sum(s) - s[i].1 + e.1,
    decreases s.len(),
{
    let t = s.update(i, e);
    if i == s.len() - 1 {
        assert(t.drop_last() == s.drop_last());
    } else {
        lemma_cost_sum_update(s.drop_last(), i, e);
        assert(t.drop_last() == s.drop_last().update(i, e));
        assert(t.last() == s.last());
    }
}

/// The search measure is non-negative while the key count stays within the
/// coded range.
proof fn lemma_measure_nonneg(ol_len: int, entries: Seq<(Vec3I, u128)>)
    requires
        ol_len >= 0,
        entries.len() <= spec_key_bound(),
    ensures
        spec_search_measure(ol_len, entries) >= 0,
{
    lemma_cost_sum_nonneg(entries);
    assert(0x8000_0001int * 0x8000_0001int * 0x8000_0001int >= 0) by (nonlinear_arith);
    assert(spec_box_volume() == 0x8000_0001int * 0x8000_0001int * 0x8000_0001int);
    assert(spec_value_bound() >= 0) by (nonlinear_arith)
        requires
            spec_value_bound() == spec_key_bound() * spec_jump_bound(),
            spec_key_bound() >= 1,
            spec_jump_bound() >= 0,
    ;
    assert((spec_key_bound() - entries.len()) * (spec_value_bound() + 2) >= 0)
        by (nonlinear_arith)
        requires
            entries.len() <= spec_key_bound(),
            spec_value_bound() >= 0,
    ;
}

/// The termination measure of the search: open nodes, plus recorded cost,
/// plus a reserve that pays for every position not yet recorded. Every
/// iteration settles one open node and each push either spends reserve (a
/// fresh position) or strictly lowers a recorded cost.
pub open spec fn spec_search_measure(ol_len: int, entries: Seq<(Vec3I, u128)>) -> int {
    ol_len + spec_cost_sum(entries) + (spec_key_bound() - entries.len()) * (spec_value_bound()
        + 2)
}

/// The six scan directions as values.
pub fn jps_i_directions() -> (r: Vec<Vec3I>)
    ensures
        r@ == spec_directions(),
{
    let mut dirs: Vec<Vec3I> = Vec::new();
    dirs.push(Vec3I { x: 1, y: 0, z: 0 });
    dirs.push(Vec3I { x: -1, y: 0, z: 0 });
    dirs.push(Vec3I { x: 0, y: 1, z: 0 });
    dirs.push(Vec3I { x: 0, y: -1, z: 0 });
    dirs.push(Vec3I { x: 0, y: 0, z: 1 });
    dirs.push(Vec3I { x: 0, y: 0, z: -1 });
    proof {
        assert(dirs@ =~= spec_directions());
    }
    dirs
}

/// One step from `position` in `direction`, clamped at the ends of the
/// coordinate range (which no addressable cell can reach).
pub fn jps_i_move_in_direction(position: Vec3I, direction: Vec3I) -> (r: Vec3I)
    ensures
        r == spec_step(position, direction),
{
    Vec3I {
        x: clamped_sum(position.x, direction.x),
        y: clamped_sum(position.y, direction.y),
        z: clamped_sum(position.z, direction.z),
    }
}

/// Manhattan-distance estimate from `a` to `b`, clamped to the cost range;
/// admissible for unit-cost axis-aligned movement.
fn jps_i_heuristic(a: &Vec3I, b: &Vec3I) -> (r: u64)
    ensures
        r as int == spec_heuristic(*a, *b),
{
    let dx = a.x as i128 - b.x as i128;
    let dx = if dx < 0 {
        -dx
    } else {
        dx
    };
    let dy = a.y as i128 - b.y as i128;
    let dy = if dy < 0 {
        -dy
    } else {
        dy
    };
    let dz = a.z as i128 - b.z as i128;
    let dz = if dz < 0 {
        -dz
    } else {
        dz
    };
    let m = dx + dy + dz;
    if m > u64::MAX as i128 {
        u64::MAX
    } else {
        m as u64
    }
}

/// The grid's walkability predicate; a walkable answer also confirms that
/// the position lies in the machine-bounded searchable region.
fn jps_i_is_valid_position<G: PathfindingGrid>(grid: &G, position: &Vec3I) -> (r: bool)
    ensures
        r == grid.spec_walkable().contains(*position),
        r ==> spec_in_coord_box(*position),
{
    grid.is_valid_path_node_i(position)
}

/// The complement of the walkability predicate.
fn jps_i_is_obstacle<G: PathfindingGrid>(grid: &G, position: &Vec3I) -> (r: bool)
    ensures
        r == !grid.spec_walkable().contains(*position),
{
    !jps_i_is_valid_position(grid, position)
}

/// Whether `position` has a forced neighbor for test direction `direction`.
fn jps_i_has_forced_neighors<G: PathfindingGrid>(
    grid: &G,
    position: Vec3I,
    direction: Vec3I,
) -> (r: bool)
    requires
        -1 <= direction.x <= 1,
        -1 <= direction.y <= 1,
        -1 <= direction.z <= 1,
    ensures
        r == spec_has_forced_neighbors(grid.spec_walkable(), position, direction),
{
    let ortho_a = Vec3I { x: -direction.z, y: 0, z: direction.x };
    let ortho_b = Vec3I { x: direction.z, y: 0, z: -direction.x };
    proof {
        assert(ortho_a == spec_ortho_a(direction));
        assert(ortho_b == spec_ortho_b(direction));
    }
    let next_pos = jps_i_move_in_direction(position, direction);

    let check_a = jps_i_move_in_direction(next_pos, ortho_a);
    if jps_i_is_obstacle(grid, &check_a) && jps_i_is_valid_position(
        grid,
        &jps_i_move_in_direction(position, ortho_a),
    ) {
        return true;
    }

    let check_b = jps_i_move_in_direction(next_pos, ortho_b);
    if jps_i_is_obstacle(grid, &check_b) && jps_i_is_valid_position(
        grid,
        &jps_i_move_in_direction(position, ortho_b),
    ) {
        return true;
    }

    false
}

/// Whether `position` is a jump point for scan direction `direction`.
fn jps_i_is_jump_point<G: PathfindingGrid>(grid: &G, position: Vec3I, direction: Vec3I) -> (r:
    bool)
    requires
        -1 <= direction.x <= 1,
        -1 <= direction.y <= 1,
        -1 <= direction.z <= 1,
    ensures
        r == spec_is_jump_point(grid.spec_walkable(), position, direction),
{
    let left = Vec3I { x: -direction.z, y: direction.y, z: direction.x };
    let right = Vec3I { x: direction.z, y: direction.y, z: -direction.x };
    proof {
        assert(left == spec_turn_left(direction));
        assert(right == spec_turn_right(direction));
    }

    let current = position;

    jps_i_has_forced_neighors(grid, current, direction) || jps_i_has_forced_neighors(
        grid,
        current,
        left,
    ) || jps_i_has_forced_neighors(grid, current, right)
}

/// Removes and returns an open node of lowest priority.
fn pop_lowest_cost(open_list: &mut Vec<JpsINode>) -> (r: JpsINode)
    requires
        old(open_list)@.len() >= 1,
    ensures
        old(open_list)@.contains(r),
        final(open_list)@.len() == old(open_list)@.len() - 1,
        forall|i: int|
            0 <= i < final(open_list)@.len() ==> old(open_list)@.contains(
                #[trigger] final(open_list)@[i],
            ),
        forall|i: int|
            0 <= i < old(open_list)@.len() ==> r.cost <= (#[trigger] old(open_list)@[i]).cost,
        forall|j: int|
            0 <= j < old(open_list)@.len() && (#[trigger] old(open_list)@[j]).position
                != r.position ==> exists|i: int|
                0 <= i < final(open_list)@.len() && (#[trigger] final(open_list)@[i]).position
                    == old(open_list)@[j].position,
{
    let mut best: usize = 0;
    let mut i: usize = 1;
    while i < open_list.len()
        invariant
            1 <= open_list@.len(),
            0 <= best < i,
            i <= open_list@.len(),
            open_list@ == old(open_list)@,
            forall|j: int|
                0 <= j < i ==> open_list@[best as int].cost <= (#[trigger] open_list@[j]).cost,
        decreases open_list@.len() - i,
    {
        if open_list[i].cost < open_list[best].cost {
            best = i;
        }
        i = i + 1;
    }
    let r = open_list.swap_remove(best);
    proof {
        assert forall|j: int| 0 <= j < final(open_list)@.len() implies old(open_list)@.contains(
            #[trigger] final(open_list)@[j],
        ) by {
            if j == best {
                assert(final(open_list)@[j] == old(open_list)@[old(open_list)@.len() - 1]);
            } else {
                assert(final(open_list)@[j] == old(open_list)@[j]);
            }
        }
        assert(old(open_list)@.contains(r)) by {
            assert(old(open_list)@[best as int] == r);
        }
        let n = old(open_list)@.len() as int;
        assert forall|j: int|
            0 <= j < n && (#[trigger] old(open_list)@[j]).position != r.position implies exists|
            i: int,
        |
            0 <= i < final(open_list)@.len() && (#[trigger] final(open_list)@[i]).position == old(
                open_list,
            )@[j].position by {
            if j < n - 1 {
                assert((#[trigger] final(open_list)@[j]).position == old(
                    open_list,
                )@[j].position);
            } else {
                assert((#[trigger] final(open_list)@[best as int]).position == old(
                    open_list,
                )@[j].position);
            }
        }
    }
    r
}

/// Rebuilds the waypoint sequence by following predecessor links from
/// `goal` back to the key that records no predecessor (the search start),
/// then reversing into start-to-goal order.
pub fn jps_i_reconstruct_path(came_from: PositionMap<Option<Vec3I>>, goal: Vec3I) -> (r: Vec<Vec3I>)
    requires
        came_from.wf(),
        came_from@.contains_key(goal),
        spec_pred_map_wf(came_from@),
        exists|rank: Map<Vec3I, u128>| spec_pred_map_ranked(came_from@, rank),
    ensures
        r@.len() >= 1,
        r@[r@.len() - 1] == goal,
        came_from@.contains_key(r@[0]),
        came_from@[r@[0]] is None,
        forall|i: int|
            0 <= i < r@.len() - 1 ==> came_from@.contains_key(#[trigger] r@[i + 1])
                && came_from@[r@[i + 1]] == Option::Some(r@[i]),
{
    let ghost rank = choose|rank: Map<Vec3I, u128>| spec_pred_map_ranked(came_from@, rank);
    let mut current = goal;
    let mut path: Vec<Vec3I> = Vec::new();
    path.push(current);

    loop
        invariant
            came_from.wf(),
            spec_pred_map_wf(came_from@),
            spec_pred_map_ranked(came_from@, rank),
            came_from@.contains_key(goal),
            path@.len() >= 1,
            path@[0] == goal,
            path@[path@.len() - 1] == current,
            came_from@.contains_key(current),
            forall|i: int|
                0 <= i < path@.len() - 1 ==> came_from@.contains_key(#[trigger] path@[i])
                    && came_from@[path@[i]] == Option::Some(path@[i + 1]),
        ensures
            path@.len() >= 1,
            path@[0] == goal,
            path@[path@.len() - 1] == current,
            came_from@.contains_key(current),
            came_from@[current] is None,
            forall|i: int|
                0 <= i < path@.len() - 1 ==> came_from@.contains_key(#[trigger] path@[i])
                    && came_from@[path@[i]] == Option::Some(path@[i + 1]),
        decreases (if rank.contains_key(current) {
            rank[current] as int
        } else {
            0
        }),
    {
        let link = came_from.get(&current);
        match link {
            Option::Some(l) => {
                match l {
                    Option::Some(prev) => {
                        current = *prev;
                        path.push(current);
                    },
                    Option::None => {
                        break ;
                    },
                }
            },
            Option::None => {
                break ;
            },
        }
    }

    let mut result: Vec<Vec3I> = Vec::new();
    let mut i: usize = path.len();
    while i > 0
        invariant
            i <= path@.len(),
            result@.len() == path@.len() - i,
            forall|j: int|
                0 <= j < result@.len() ==> #[trigger] result@[j] == path@[path@.len() - 1 - j],
        decreases i,
    {
        i = i - 1;
        result.push(path[i]);
    }
    proof {
        let n = path@.len() as int;
        assert(result@[0] == path@[n - 1]);
        assert(result@[n - 1] == path@[0]);
        assert forall|k: int|
            0 <= k < n - 1 implies came_from@.contains_key(#[trigger] result@[k + 1])
            && came_from@[result@[k + 1]] == Option::Some(result@[k]) by {
            assert(result@[k + 1] == path@[n - 2 - k]);
            assert(result@[k] == path@[n - 1 - k]);
            assert(came_from@[path@[n - 2 - k]] == Option::Some(path@[n - 1 - k]));
        }
    }
    result
}

/// 3D Jump Point Search over a grid's walkability predicate.
///
/// Best-first search on a min-priority open list; from each expanded node
/// it scans straight lines in the six axis-aligned directions and enqueues
/// only jump points. Returns the waypoint sequence from `start` to `goal`
/// inclusive, or `None` when the open list empties without reaching `goal`,
/// which per the contract happens only when `goal` is not scan-reachable.
#[verifier::loop_isolation(false)]
#[verifier::rlimit(100)]
pub fn jps_i<G: PathfindingGrid>(start: &Vec3I, goal: &Vec3I, grid: &G) -> (r: Option<Vec<Vec3I>>)
    ensures
        spec_jps_post(grid.spec_walkable(), *start, *goal, r),
{
    let ghost walk = grid.spec_walkable();

    let mut open_list: Vec<JpsINode> = Vec::new();
    let mut came_from: PositionMap<Option<Vec3I>> = PositionMap::new();
    let mut cost_so_far: PositionMap<u128> = PositionMap::new();

    open_list.push(JpsINode { position: *start, cost: 0 });
    came_from.insert(*start, Option::None);
    cost_so_far.insert(*start, 0);

    let ghost mut codes: Set<int> = Set::<int>::empty().insert(spec_key_code(*start, *start));

    proof {
        vstd::set::axiom_set_insert_len(Set::<int>::empty(), spec_key_code(*start, *start));
        lemma_key_code_range(*start, *start);
        assert(0x8000_0001int * 0x8000_0001int * 0x8000_0001int >= 8) by (nonlinear_arith);
        assert(spec_box_volume() == 0x8000_0001int * 0x8000_0001int * 0x8000_0001int);
        let ce = cost_so_far.spec_entries();
        assert(ce == Seq::<(Vec3I, u128)>::empty().push((*start, 0u128)));
        assert(ce.len() == 1 && ce[0] == (*start, 0u128));
        assert(ce.drop_last() == Seq::<(Vec3I, u128)>::empty());
        assert(spec_cost_sum(Seq::<(Vec3I, u128)>::empty()) == 0);
        assert(spec_cost_sum(ce) == 0);
        assert forall|x: int| #[trigger] codes.contains(x) implies exists|j: int|
            0 <= j < cost_so_far.spec_entries().len() && spec_key_code(
                *start,
                (#[trigger] cost_so_far.spec_entries()[j]).0,
            ) == x by {
            assert(spec_key_code(*start, (#[trigger] cost_so_far.spec_entries()[0]).0) == x);
        }
        assert(spec_jump_bound() >= 0);
        assert(1int * spec_jump_bound() == spec_jump_bound()) by (nonlinear_arith);
        lemma_measure_nonneg(open_list@.len() as int, cost_so_far.spec_entries());
        assert((#[trigger] open_list@[0]).position == *start);
    }

    while open_list.len() > 0
        invariant
            came_from.wf(),
            cost_so_far.wf(),
            came_from@.contains_key(*start),
            came_from@[*start] is None,
            cost_so_far@.contains_key(*start),
            cost_so_far@[*start] == 0,
            forall|n: Vec3I| #[trigger]
                came_from@.contains_key(n) ==> cost_so_far@.contains_key(n),
            forall|n: Vec3I| #[trigger]
                cost_so_far@.contains_key(n) ==> came_from@.contains_key(n),
            forall|n: Vec3I| #[trigger]
                came_from@.contains_key(n) ==> (came_from@[n] is None ==> n == *start),
            forall|n: Vec3I| #[trigger]
                came_from@.contains_key(n) ==> (came_from@[n] matches Option::Some(c)
                    ==> came_from@.contains_key(c) && spec_jump_connected(walk, c, n)
                    && cost_so_far@[c] < cost_so_far@[n]),
            forall|i: int|
                0 <= i < open_list@.len() ==> cost_so_far@.contains_key(
                    (#[trigger] open_list@[i]).position,
                ),
            *start == *goal ==> open_list@.len() == 1 && open_list@[0].position == *start,
            codes.finite(),
            codes.len() == cost_so_far.spec_entries().len(),
            forall|j: int|
                0 <= j < cost_so_far.spec_entries().len() ==> codes.contains(
                    spec_key_code(*start, (#[trigger] cost_so_far.spec_entries()[j]).0),
                ),
            forall|x: int| #[trigger]
                codes.contains(x) ==> exists|j: int|
                    0 <= j < cost_so_far.spec_entries().len() && spec_key_code(
                        *start,
                        (#[trigger] cost_so_far.spec_entries()[j]).0,
                    ) == x,
            forall|x: int| #[trigger] codes.contains(x) ==> 0 <= x <= spec_box_volume(),
            forall|j: int|
                0 <= j < cost_so_far.spec_entries().len() ==> ((
                #[trigger] cost_so_far.spec_entries()[j]).0 == *start || spec_in_coord_box(
                    cost_so_far.spec_entries()[j].0,
                )),
            forall|j: int|
                0 <= j < cost_so_far.spec_entries().len() ==> ((
                #[trigger] cost_so_far.spec_entries()[j]).1 as int)
                    <= cost_so_far.spec_entries().len() * spec_jump_bound(),
            cost_so_far.spec_entries().len() <= spec_key_bound(),
            spec_search_measure(open_list@.len() as int, cost_so_far.spec_entries()) >= 0,
            forall|n: Vec3I| #[trigger]
                cost_so_far@.contains_key(n) ==> ((exists|i: int|
                    0 <= i < open_list@.len() && (#[trigger] open_list@[i]).position == n)
                    || spec_expanded(walk, cost_so_far@, n)),
            cost_so_far@.contains_key(*goal) ==> exists|i: int|
                0 <= i < open_list@.len() && (#[trigger] open_list@[i]).position == *goal,
        decreases spec_search_measure(open_list@.len() as int, cost_so_far.spec_entries()),
    {
        let current = pop_lowest_cost(&mut open_list);

        if current.position == *goal {
            let ghost cf = came_from@;
            proof {
                assert(spec_pred_map_ranked(cf, cost_so_far@));
            }
            let path = jps_i_reconstruct_path(came_from, *goal);
            proof {
                assert(path@[0] == *start);
                assert forall|i: int|
                    0 <= i < path@.len() - 1 implies spec_jump_connected(
                    walk,
                    #[trigger] path@[i],
                    path@[i + 1],
                ) by {
                    assert(cf.contains_key(path@[i + 1]));
                    assert(cf[path@[i + 1]] == Option::Some(path@[i]));
                }
                assert forall|i: int| 1 <= i < path@.len() implies walk.contains(
                    #[trigger] path@[i],
                ) by {
                    assert(spec_jump_connected(walk, path@[i - 1], path@[i]));
                    lemma_jump_connected_valid(walk, path@[i - 1], path@[i]);
                }
                if *start == *goal {
                    if path@.len() >= 2 {
                        assert(cf.contains_key(path@[(path@.len() - 1) as int]));
                        assert(cf[path@[(path@.len() - 1) as int]] == Option::Some(
                            path@[path@.len() - 2],
                        ));
                        assert(false);
                    }
                    assert(path@ =~= seq![*start]);
                }
            }
            return Option::Some(path);
        }

        let current_cost = match cost_so_far.get(&current.position) {
            Option::Some(c) => *c,
            Option::None => {
                proof {
                    assert(false);
                }
                0
            },
        };

        let ghost p0 = spec_search_measure(
            open_list@.len() as int,
            cost_so_far.spec_entries(),
        );
        proof {
            lemma_measure_nonneg(open_list@.len() as int, cost_so_far.spec_entries());
            // positions other than the popped one survive the pop
            assert forall|n: Vec3I| #[trigger]
                cost_so_far@.contains_key(n) implies (n == current.position || (exists|i: int|
                0 <= i < open_list@.len() && (#[trigger] open_list@[i]).position == n)
                || spec_expanded(walk, cost_so_far@, n)) by {}
        }

        let directions = jps_i_directions();
        let mut di: usize = 0;
        while di < directions.len()
            invariant
                came_from.wf(),
                cost_so_far.wf(),
                came_from@.contains_key(*start),
                came_from@[*start] is None,
                cost_so_far@.contains_key(*start),
                cost_so_far@[*start] == 0,
                forall|n: Vec3I| #[trigger]
                    came_from@.contains_key(n) ==> cost_so_far@.contains_key(n),
                forall|n: Vec3I| #[trigger]
                    cost_so_far@.contains_key(n) ==> came_from@.contains_key(n),
                forall|n: Vec3I| #[trigger]
                    came_from@.contains_key(n) ==> (came_from@[n] is None ==> n == *start),
                forall|n: Vec3I| #[trigger]
                    came_from@.contains_key(n) ==> (came_from@[n] matches Option::Some(c)
                        ==> came_from@.contains_key(c) && spec_jump_connected(walk, c, n)
                        && cost_so_far@[c] < cost_so_far@[n]),
                forall|i: int|
                    0 <= i < open_list@.len() ==> cost_so_far@.contains_key(
                        (#[trigger] open_list@[i]).position,
                    ),
                cost_so_far@.contains_key(current.position),
                cost_so_far@[current.position] == current_cost,
                di <= 6,
                codes.finite(),
                codes.len() == cost_so_far.spec_entries().len(),
                forall|j: int|
                    0 <= j < cost_so_far.spec_entries().len() ==> codes.contains(
                        spec_key_code(*start, (#[trigger] cost_so_far.spec_entries()[j]).0),
                    ),
                forall|x: int| #[trigger]
                    codes.contains(x) ==> exists|j: int|
                        0 <= j < cost_so_far.spec_entries().len() && spec_key_code(
                            *start,
                            (#[trigger] cost_so_far.spec_entries()[j]).0,
                        ) == x,
                forall|x: int| #[trigger] codes.contains(x) ==> 0 <= x <= spec_box_volume(),
                forall|j: int|
                    0 <= j < cost_so_far.spec_entries().len() ==> ((
                    #[trigger] cost_so_far.spec_entries()[j]).0 == *start || spec_in_coord_box(
                        cost_so_far.spec_entries()[j].0,
                    )),
                forall|j: int|
                    0 <= j < cost_so_far.spec_entries().len() ==> ((
                    #[trigger] cost_so_far.spec_entries()[j]).1 as int)
                        <= cost_so_far.spec_entries().len() * spec_jump_bound(),
                cost_so_far.spec_entries().len() <= spec_key_bound(),
                spec_search_measure(open_list@.len() as int, cost_so_far.spec_entries()) >= 0,
                spec_search_measure(open_list@.len() as int, cost_so_far.spec_entries()) <= p0,
                forall|n: Vec3I| #[trigger]
                    cost_so_far@.contains_key(n) ==> (n == current.position || (exists|i: int|
                        0 <= i < open_list@.len() && (#[trigger] open_list@[i]).position == n)
                        || spec_expanded(walk, cost_so_far@, n)),
                forall|dj: int, sc: Vec3I|
                    0 <= dj < di && #[trigger] spec_jump_successor(
                        walk,
                        current.position,
                        spec_directions()[dj],
                        sc,
                    ) ==> cost_so_far@.contains_key(sc),
                cost_so_far@.contains_key(*goal) ==> exists|i: int|
                    0 <= i < open_list@.len() && (#[trigger] open_list@[i]).position == *goal,
            decreases directions@.len() - di,
        {
            let direction = directions[di];
            proof {
                assert(spec_directions().contains(direction)) by {
                    assert(spec_directions()[di as int] == direction);
                }
                lemma_direction_components(direction);
            }

            let mut new_position = current.position;
            let mut jump_cost: u64 = 0;
            let ghost mut steps: int = 0;
            let mut found = false;

            #[verifier::loop_isolation(true)]
            loop
                invariant_except_break
                    !found,
                    0 <= steps,
                    jump_cost == steps,
                    -1 <= direction.x <= 1,
                    -1 <= direction.y <= 1,
                    -1 <= direction.z <= 1,
                    spec_directions().contains(direction),
                    walk == grid.spec_walkable(),
                    new_position == spec_step_n(current.position, direction, steps),
                    spec_run_walkable(walk, current.position, direction, steps),
                    forall|j: int|
                        1 <= j <= steps ==> !spec_is_jump_point(
                            walk,
                            #[trigger] spec_step_n(current.position, direction, j),
                            direction,
                        ),
                    steps >= 1 ==> walk.contains(new_position) && spec_in_coord_box(new_position)
                        && steps <= spec_dot(new_position, direction) + 0x4000_0001,
                ensures
                    found ==> 1 <= jump_cost <= 0x8000_0002 && new_position == spec_step_n(
                        current.position,
                        direction,
                        jump_cost as int,
                    ) && spec_run_walkable(walk, current.position, direction, jump_cost as int)
                        && spec_in_coord_box(new_position) && spec_first_jump_at(
                        walk,
                        current.position,
                        direction,
                        new_position,
                        jump_cost as int,
                    ),
                    !found ==> forall|m: Vec3I|
                        !spec_jump_successor(walk, current.position, direction, m),
                decreases (if spec_dot(new_position, direction) > 0x4000_0002 {
                    0int
                } else {
                    0x4000_0003 - spec_dot(new_position, direction)
                }),
            {
                let ghost prev = new_position;
                new_position = jps_i_move_in_direction(new_position, direction);
                proof {
                    steps = steps + 1;
                }

                if !jps_i_is_valid_position(grid, &new_position) {
                    proof {
                        assert forall|m: Vec3I|
                            !spec_jump_successor(walk, current.position, direction, m) by {
                            if spec_jump_successor(walk, current.position, direction, m) {
                                let k = choose|k: int|
                                    spec_first_jump_at(
                                        walk,
                                        current.position,
                                        direction,
                                        m,
                                        k,
                                    );
                                if k <= steps - 1 {
                                    assert(!spec_is_jump_point(
                                        walk,
                                        spec_step_n(current.position, direction, k),
                                        direction,
                                    ));
                                } else {
                                    assert(walk.contains(
                                        spec_step_n(current.position, direction, steps),
                                    ));
                                }
                            }
                        }
                    }
                    break ;
                }

                proof {
                    lemma_step_dot(prev, direction, new_position);
                    assert(steps <= spec_dot(new_position, direction) + 0x4000_0001);
                    assert(steps <= 0x8000_0001);
                }

                jump_cost = jump_cost + 1;

                if jps_i_is_jump_point(grid, new_position, direction) {
                    found = true;
                    proof {
                        assert(spec_run_walkable(walk, current.position, direction, steps));
                        assert(spec_first_jump_at(
                            walk,
                            current.position,
                            direction,
                            new_position,
                            jump_cost as int,
                        ));
                    }
                    break ;
                }
            }

            let ghost old_cf = came_from@;
            let ghost old_cs = cost_so_far@;
            let ghost old_ce = cost_so_far.spec_entries();
            let ghost old_ol = open_list@;
            let ghost old_codes = codes;
            let ghost old_len = cost_so_far.spec_entries().len() as int;

            if found {
                proof {
                    // the recorded cost of the expanded node is bounded
                    cost_so_far.lemma_key_entry(current.position);
                    let jc = choose|j: int|
                        0 <= j < cost_so_far.spec_entries().len() && (
                        #[trigger] cost_so_far.spec_entries()[j]).0 == current.position;
                    cost_so_far.lemma_entry_key(jc);
                    assert(current_cost as int <= old_len * spec_jump_bound());
                    assert(old_len * spec_jump_bound() <= spec_key_bound() * spec_jump_bound())
                        by (nonlinear_arith)
                        requires
                            old_len <= spec_key_bound(),
                            spec_jump_bound() >= 0,
                    ;
                    assert(0x8000_0001int * 0x8000_0001int * 0x8000_0001int
                        < 0x4000_0000_0000_0000_0000_0000int) by (nonlinear_arith);
                    assert(spec_box_volume() == 0x8000_0001int * 0x8000_0001int
                        * 0x8000_0001int);
                    assert(spec_key_bound() * spec_jump_bound() < (
                    0x4000_0000_0000_0000_0000_0001int) * 0x8000_0004int) by (nonlinear_arith)
                        requires
                            0 <= spec_key_bound() <= 0x4000_0000_0000_0000_0000_0001int,
                            spec_jump_bound() == 0x8000_0004int,
                    ;
                    assert((0x4000_0000_0000_0000_0000_0001int) * 0x8000_0004int
                        < 0x4000_0000_0000_0000_0000_0000_0000_0000int) by (nonlinear_arith);
                }
                let new_cost: u128 = current_cost + jump_cost as u128;

                let prior: Option<u128> = match cost_so_far.get(&new_position) {
                    Option::Some(v) => Option::Some(*v),
                    Option::None => Option::None,
                };
                let improves = match prior {
                    Option::Some(v) => new_cost < v,
                    Option::None => true,
                };

                if improves {
                    proof {
                        assert(new_position != current.position) by {
                            if new_position == current.position {
                                assert(cost_so_far@[current.position] == current_cost);
                            }
                        }
                        assert(new_position != *start) by {
                            if new_position == *start {
                                assert(cost_so_far@.contains_key(*start));
                                assert(new_cost < cost_so_far@[*start]);
                            }
                        }
                        if prior is None {
                            assert(!codes.contains(spec_key_code(*start, new_position))) by {
                                if codes.contains(spec_key_code(*start, new_position)) {
                                    let j = choose|j: int|
                                        0 <= j < cost_so_far.spec_entries().len()
                                            && spec_key_code(
                                            *start,
                                            (#[trigger] cost_so_far.spec_entries()[j]).0,
                                        ) == spec_key_code(*start, new_position);
                                    lemma_key_code_injective(
                                        *start,
                                        cost_so_far.spec_entries()[j].0,
                                        new_position,
                                    );
                                    cost_so_far.lemma_entry_key(j);
                                }
                            }
                        } else {
                            cost_so_far.lemma_key_entry(new_position);
                        }
                    }

                    cost_so_far.insert(new_position, new_cost);
                    let priority: u128 = new_cost + jps_i_heuristic(&new_position, goal) as u128;
                    open_list.push(JpsINode { position: new_position, cost: priority });
                    came_from.insert(new_position, Option::Some(current.position));

                    proof {
                        if prior is None {
                            codes = codes.insert(spec_key_code(*start, new_position));
                            vstd::set::axiom_set_insert_len(
                                old_codes,
                                spec_key_code(*start, new_position),
                            );
                            lemma_key_code_range(*start, new_position);
                            assert(cost_so_far.spec_entries() == old_ce.push(
                                (new_position, new_cost),
                            ));
                            assert(cost_so_far.spec_entries().drop_last() == old_ce);
                            // the key count stays within the coded range
                            assert(codes.subset_of(
                                vstd::set_lib::set_int_range(0, spec_box_volume() + 1),
                            ));
                            vstd::set_lib::lemma_int_range(0, spec_box_volume() + 1);
                            vstd::set_lib::lemma_len_subset(
                                codes,
                                vstd::set_lib::set_int_range(0, spec_box_volume() + 1),
                            );
                            // measure: a fresh key spends reserve
                            assert((spec_key_bound() - (old_len + 1)) * (spec_value_bound() + 2)
                                == (spec_key_bound() - old_len) * (spec_value_bound() + 2) - (
                            spec_value_bound() + 2)) by (nonlinear_arith);
                            assert(new_cost as int <= (old_len + 1) * spec_jump_bound())
                                by (nonlinear_arith)
                                requires
                                    current_cost as int <= old_len * spec_jump_bound(),
                                    jump_cost as int <= spec_jump_bound(),
                                    new_cost == current_cost as int + jump_cost as int,
                            ;
                            assert((old_len + 1) * spec_jump_bound() <= spec_key_bound()
                                * spec_jump_bound()) by (nonlinear_arith)
                                requires
                                    old_len + 1 <= spec_key_bound(),
                                    spec_jump_bound() >= 0,
                            ;
                        } else {
                            let ju = choose|j: int|
                                0 <= j < old_ce.len() && (#[trigger] old_ce[j]) == (
                                    new_position,
                                    old_cs[new_position],
                                ) && cost_so_far.spec_entries() == old_ce.update(
                                    j,
                                    (new_position, new_cost),
                                );
                            lemma_cost_sum_update(old_ce, ju, (new_position, new_cost));
                            assert(spec_cost_sum(cost_so_far.spec_entries()) == spec_cost_sum(
                                old_ce,
                            ) - old_cs[new_position] + new_cost);
                        }
                        // per-entry facts for the new entry list
                        let ce = cost_so_far.spec_entries();
                        assert forall|j: int| 0 <= j < ce.len() implies codes.contains(
                            spec_key_code(*start, (#[trigger] ce[j]).0),
                        ) && ((#[trigger] ce[j]).0 == *start || spec_in_coord_box(ce[j].0)) && ((
                        #[trigger] ce[j]).1 as int) <= ce.len() * spec_jump_bound() by {
                            if j < old_ce.len() && ce[j] == old_ce[j] {
                                assert(old_ce[j].1 as int <= old_len * spec_jump_bound());
                                assert(old_len * spec_jump_bound() <= ce.len()
                                    * spec_jump_bound()) by (nonlinear_arith)
                                    requires
                                        old_len <= ce.len(),
                                        spec_jump_bound() >= 0,
                                ;
                            }
                        }
                        assert forall|x: int| #[trigger] codes.contains(x) implies (exists|j: int|
                            0 <= j < ce.len() && spec_key_code(
                                *start,
                                (#[trigger] ce[j]).0,
                            ) == x) && 0 <= x <= spec_box_volume() by {
                            if old_codes.contains(x) {
                                let j = choose|j: int|
                                    0 <= j < old_ce.len() && spec_key_code(
                                        *start,
                                        (#[trigger] old_ce[j]).0,
                                    ) == x;
                                assert(0 <= j < ce.len() && spec_key_code(
                                    *start,
                                    (#[trigger] ce[j]).0,
                                ) == x);
                            } else {
                                assert(x == spec_key_code(*start, new_position));
                                assert(prior is None);
                                assert(0 <= old_len < ce.len() && (#[trigger] ce[old_len]).0
                                    == new_position);
                                assert(spec_key_code(*start, (#[trigger] ce[old_len]).0) == x);
                            }
                        }
                        // the predecessor facts
                        assert(spec_jump_connected(walk, current.position, new_position)) by {
                            assert(spec_directions()[di as int] == direction);
                            assert(new_position == spec_step_n(
                                current.position,
                                spec_directions()[di as int],
                                jump_cost as int,
                            ));
                            assert(spec_run_walkable(
                                walk,
                                current.position,
                                spec_directions()[di as int],
                                jump_cost as int,
                            ));
                        }
                        assert forall|n: Vec3I| #[trigger]
                            came_from@.contains_key(n) implies (came_from@[n] matches
                        Option::Some(c) ==> came_from@.contains_key(c) && spec_jump_connected(
                            walk,
                            c,
                            n,
                        ) && cost_so_far@[c] < cost_so_far@[n]) by {
                            if n == new_position {
                            } else {
                                assert(old_cf.contains_key(n) && came_from@[n] == old_cf[n]);
                                assert(cost_so_far@[n] == old_cs[n]);
                                match old_cf[n] {
                                    Option::Some(c) => {
                                        assert(old_cs[c] < old_cs[n]);
                                        if c == new_position {
                                            assert(old_cs.contains_key(c));
                                            assert(new_cost < old_cs[c]);
                                        }
                                    },
                                    Option::None => {},
                                }
                            }
                        }
                        // completeness bookkeeping survives the recording
                        assert forall|n: Vec3I| #[trigger]
                            cost_so_far@.contains_key(n) implies (n == current.position || (
                        exists|i: int|
                            0 <= i < open_list@.len() && (#[trigger] open_list@[i]).position
                                == n) || spec_expanded(walk, cost_so_far@, n)) by {
                            if n == new_position {
                                assert((#[trigger] open_list@[old_ol.len() as int]).position
                                    == n);
                            } else {
                                assert(old_cs.contains_key(n));
                                if exists|i: int|
                                    0 <= i < old_ol.len() && (#[trigger] old_ol[i]).position
                                        == n {
                                    let i = choose|i: int|
                                        0 <= i < old_ol.len() && (#[trigger] old_ol[i]).position
                                            == n;
                                    assert((#[trigger] open_list@[i]).position == n);
                                } else if n != current.position {
                                    lemma_expanded_insert(walk, old_cs, new_position, new_cost, n);
                                }
                            }
                        }
                        if cost_so_far@.contains_key(*goal) {
                            if *goal == new_position {
                                assert((#[trigger] open_list@[old_ol.len() as int]).position
                                    == *goal);
                            } else {
                                assert(old_cs.contains_key(*goal));
                                let i = choose|i: int|
                                    0 <= i < old_ol.len() && (#[trigger] old_ol[i]).position
                                        == *goal;
                                assert((#[trigger] open_list@[i]).position == *goal);
                            }
                        }
                        // the measure pays for this push
                        if prior is None {
                            assert(spec_cost_sum(cost_so_far.spec_entries()) == spec_cost_sum(
                                old_ce,
                            ) + new_cost) by {
                                assert(cost_so_far.spec_entries().drop_last() == old_ce);
                            }
                            assert(new_cost as int <= spec_value_bound()) by (nonlinear_arith)
                                requires
                                    new_cost as int <= (old_len + 1) * spec_jump_bound(),
                                    old_len + 1 <= spec_key_bound(),
                                    spec_jump_bound() >= 0,
                                    spec_value_bound() == spec_key_bound() * spec_jump_bound(),
                            ;
                        } else {
                            assert(new_cost < old_cs[new_position]);
                        }
                        lemma_measure_nonneg(
                            open_list@.len() as int,
                            cost_so_far.spec_entries(),
                        );
                    }
                }
            }

            proof {
                // direction `di` is now fully settled
                assert forall|sc: Vec3I| #[trigger]
                    spec_jump_successor(
                        walk,
                        current.position,
                        spec_directions()[di as int],
                        sc,
                    ) implies cost_so_far@.contains_key(sc) by {
                    assert(spec_directions()[di as int] == direction);
                    if found {
                        assert(spec_jump_successor(walk, current.position, direction, sc));
                        assert(spec_jump_successor(
                            walk,
                            current.position,
                            direction,
                            new_position,
                        )) by {
                            assert(spec_first_jump_at(
                                walk,
                                current.position,
                                direction,
                                new_position,
                                jump_cost as int,
                            ));
                        }
                        lemma_jump_successor_unique(
                            walk,
                            current.position,
                            direction,
                            sc,
                            new_position,
                        );
                    }
                }
            }

            di = di + 1;
        }

        proof {
            // the popped node is now expanded, restoring the loop invariant
            assert forall|n: Vec3I| #[trigger]
                cost_so_far@.contains_key(n) implies ((exists|i: int|
                0 <= i < open_list@.len() && (#[trigger] open_list@[i]).position == n)
                || spec_expanded(walk, cost_so_far@, n)) by {
                if n == current.position {
                    assert(spec_expanded(walk, cost_so_far@, current.position)) by {
                        assert forall|dj: int, sc: Vec3I|
                            0 <= dj < 6 && #[trigger] spec_jump_successor(
                                walk,
                                current.position,
                                spec_directions()[dj],
                                sc,
                            ) implies cost_so_far@.contains_key(sc) by {}
                    }
                }
            }
        }
    }

    proof {
        assert(*start != *goal);
        assert(!cost_so_far@.contains_key(*goal));
        assert forall|n: Vec3I| #[trigger] cost_so_far@.contains_key(n) implies spec_expanded(
            walk,
            cost_so_far@,
            n,
        ) by {}
        lemma_none_unreachable(walk, cost_so_far@, *start, *goal);
    }
    Option::None
}

} // verus!
