//! The laws of the engine, proved once and for all:
//!
//! * a blocked chain resolves to an empty plan and nothing moves;
//! * a command pointing off-grid with no gap resolves to an empty plan;
//! * a chain player, movable, gap shifts the whole chain one cell;
//! * a tick of a well-formed world with at most one player cannot fail and
//!   preserves the occupancy invariant;
//! * once `Won`, no evaluation returns the phase to `Playing`.

use vstd::prelude::*;

use crate::components::{Direction, Entity, Position};
use crate::loader::{token_entities, row_entities, grid_entities, grid_rows, map_entities,
    load_ok};
use crate::resolver::{dx, dy, in_bounds, ray_plan, plan_of};
use crate::resources::GameplayState;
use crate::turn::{apply_positions, can_shift, shift_pos, positions_of, reposition, with_position,
    players_of, plans_cat, all_plans, win_step};
use crate::world::{entities_unique, movable_pred, immovable_pred, some_movable_at,
    some_immovable_at, movable_idx};

verus! {

/// The x-coordinate of the cell `k` steps from `x` in direction `d`.
pub open spec fn cell_x(x: int, d: Direction, k: int) -> int {
    x + k * dx(d)
}

/// The y-coordinate of the cell `k` steps from `y` in direction `d`.
pub open spec fn cell_y(y: int, d: Direction, k: int) -> int {
    y + k * dy(d)
}

/// Every direction steps along exactly one axis.
pub proof fn lemma_one_axis(d: Direction)
    ensures
        dx(d) == 0 || dx(d) == 1 || dx(d) == -1,
        dy(d) == 0 || dy(d) == 1 || dy(d) == -1,
        dx(d) != 0 || dy(d) != 0,
{
}

/// One more step along the ray.
proof fn lemma_cell_step(x: int, y: int, d: Direction, k: int)
    ensures
        cell_x(x + dx(d), d, k) == cell_x(x, d, k + 1),
        cell_y(y + dy(d), d, k) == cell_y(y, d, k + 1),
        cell_x(x, d, 0) == x,
        cell_y(y, d, 0) == y,
        cell_x(x, d, k) + dx(d) == cell_x(x, d, k + 1),
        cell_y(y, d, k) + dy(d) == cell_y(y, d, k + 1),
{
    assert((x + dx(d)) + k * dx(d) == x + (k + 1) * dx(d)) by (nonlinear_arith);
    assert((y + dy(d)) + k * dy(d) == y + (k + 1) * dy(d)) by (nonlinear_arith);
    assert(x + 0 * dx(d) == x);
    assert(y + 0 * dy(d) == y);
    assert((x + k * dx(d)) + dx(d) == x + (k + 1) * dx(d)) by (nonlinear_arith);
    assert((y + k * dy(d)) + dy(d) == y + (k + 1) * dy(d)) by (nonlinear_arith);
}

/// Distinct steps along the ray land on distinct cells.
proof fn lemma_cells_distinct(x: int, y: int, d: Direction, k1: int, k2: int)
    requires
        k1 != k2,
    ensures
        cell_x(x, d, k1) != cell_x(x, d, k2) || cell_y(y, d, k1) != cell_y(y, d, k2),
{
    lemma_one_axis(d);
    if dx(d) != 0 {
        assert(x + k1 * dx(d) != x + k2 * dx(d)) by (nonlinear_arith)
            requires
                k1 != k2,
                dx(d) == 1 || dx(d) == -1,
        ;
    } else {
        assert(y + k1 * dy(d) != y + k2 * dy(d)) by (nonlinear_arith)
            requires
                k1 != k2,
                dy(d) == 1 || dy(d) == -1,
        ;
    }
}

/// A successful ray walk lists, cell after cell, the movable entities of
/// the chain; the cell one past the chain is the in-bounds gap, free of
/// movable and immovable entities.
pub proof fn lemma_ray_plan_chain(s: Seq<Entity>, x: int, y: int, d: Direction, w: int, h: int)
    requires
        ray_plan(s, x, y, d, w, h) is Some,
    ensures
        ({
            let p = ray_plan(s, x, y, d, w, h)->Some_0;
            &&& forall|k: int|
                0 <= k < p.len() ==> movable_pred(s, cell_x(x, d, k), cell_y(y, d, k), #[trigger] p[k])
            &&& forall|k: int|
                0 <= k <= p.len() ==> #[trigger] in_bounds(cell_x(x, d, k), cell_y(y, d, k), w, h)
            &&& !some_movable_at(s, cell_x(x, d, p.len() as int), cell_y(y, d, p.len() as int))
            &&& !some_immovable_at(s, cell_x(x, d, p.len() as int), cell_y(y, d, p.len() as int))
        }),
    decreases crate::resolver::steps_left(x, y, d, w, h),
{
    let p = ray_plan(s, x, y, d, w, h)->Some_0;
    assert(in_bounds(x, y, w, h));
    lemma_cell_step(x, y, d, 0);
    if some_movable_at(s, x, y) {
        let rest = ray_plan(s, x + dx(d), y + dy(d), d, w, h);
        assert(rest is Some);
        lemma_ray_plan_chain(s, x + dx(d), y + dy(d), d, w, h);
        let pr = rest->Some_0;
        assert(p == seq![movable_idx(s, x, y)] + pr);
        assert(p.len() == pr.len() + 1);
        assert forall|k: int| 0 <= k < p.len() implies movable_pred(
            s,
            cell_x(x, d, k),
            cell_y(y, d, k),
            #[trigger] p[k],
        ) by {
            if k == 0 {
                assert(movable_pred(s, x, y, movable_idx(s, x, y)));
            } else {
                assert(p[k] == pr[k - 1]);
                assert(movable_pred(
                    s,
                    cell_x(x + dx(d), d, k - 1),
                    cell_y(y + dy(d), d, k - 1),
                    pr[k - 1],
                ));
                lemma_cell_step(x, y, d, k - 1);
            }
        }
        assert forall|k: int| 0 <= k <= p.len() implies #[trigger] in_bounds(
            cell_x(x, d, k),
            cell_y(y, d, k),
            w,
            h,
        ) by {
            if k == 0 {
            } else {
                assert(in_bounds(cell_x(x + dx(d), d, k - 1), cell_y(y + dy(d), d, k - 1), w, h));
                lemma_cell_step(x, y, d, k - 1);
            }
        }
        assert(!some_movable_at(
            s,
            cell_x(x + dx(d), d, pr.len() as int),
            cell_y(y + dy(d), d, pr.len() as int),
        ));
        lemma_cell_step(x, y, d, pr.len() as int);
    } else {
        assert(p == Seq::<int>::empty());
    }
}

/// The chain of a successful ray walk holds no index twice.
pub proof fn lemma_ray_plan_distinct(s: Seq<Entity>, x: int, y: int, d: Direction, w: int, h: int)
    requires
        ray_plan(s, x, y, d, w, h) is Some,
    ensures
        ({
            let p = ray_plan(s, x, y, d, w, h)->Some_0;
            forall|k1: int, k2: int| 0 <= k1 < k2 < p.len() ==> p[k1] != p[k2]
        }),
{
    let p = ray_plan(s, x, y, d, w, h)->Some_0;
    lemma_ray_plan_chain(s, x, y, d, w, h);
    assert forall|k1: int, k2: int| 0 <= k1 < k2 < p.len() implies p[k1] != p[k2] by {
        assert(movable_pred(s, cell_x(x, d, k1), cell_y(y, d, k1), p[k1]));
        assert(movable_pred(s, cell_x(x, d, k2), cell_y(y, d, k2), p[k2]));
        lemma_cells_distinct(x, y, d, k1, k2);
    }
}

/// Applying a duplicate-free plan whose every entry may shift moves exactly
/// the planned positions, each by one cell, and no other.
pub proof fn lemma_apply_distinct(ps: Seq<Position>, plan: Seq<int>, d: Direction, w: int, h: int)
    requires
        forall|k: int| 0 <= k < plan.len() ==> 0 <= #[trigger] plan[k] < ps.len(),
        forall|k1: int, k2: int| 0 <= k1 < k2 < plan.len() ==> plan[k1] != plan[k2],
        forall|k: int| 0 <= k < plan.len() ==> can_shift(ps[#[trigger] plan[k]], d, w, h),
    ensures
        apply_positions(ps, plan, d, w, h) is Some,
        ({
            let q = apply_positions(ps, plan, d, w, h)->Some_0;
            &&& q.len() == ps.len()
            &&& forall|i: int|
                0 <= i < ps.len() ==> #[trigger] q[i] == (if plan.contains(i) {
                    shift_pos(ps[i], d)
                } else {
                    ps[i]
                })
        }),
    decreases plan.len(),
{
    if plan.len() == 0 {
        assert(apply_positions(ps, plan, d, w, h) == Some(ps));
        assert forall|i: int| 0 <= i < ps.len() implies #[trigger] ps[i] == (if plan.contains(i) {
            shift_pos(ps[i], d)
        } else {
            ps[i]
        }) by {
            assert(!plan.contains(i));
        }
    } else {
        let i0 = plan[0];
        let ps2 = ps.update(i0, shift_pos(ps[i0], d));
        let rest = plan.drop_first();
        assert forall|k: int| 0 <= k < rest.len() implies 0 <= #[trigger] rest[k] < ps2.len()
            && rest[k] != i0 && can_shift(ps2[rest[k]], d, w, h) by {
            assert(rest[k] == plan[k + 1]);
            assert(plan[k + 1] != plan[0]);
            assert(ps2[rest[k]] == ps[plan[k + 1]]);
        }
        lemma_apply_distinct(ps2, rest, d, w, h);
        assert(apply_positions(ps, plan, d, w, h) == apply_positions(ps2, rest, d, w, h));
        let q = apply_positions(ps, plan, d, w, h)->Some_0;
        assert forall|i: int| 0 <= i < ps.len() implies #[trigger] q[i] == (if plan.contains(i) {
            shift_pos(ps[i], d)
        } else {
            ps[i]
        }) by {
            if i == i0 {
                if rest.contains(i0) {
                    let k = choose|k: int| 0 <= k < rest.len() && rest[k] == i0;
                    assert(plan[k + 1] == i0);
                    assert(plan[k + 1] != plan[0]);
                    assert(false);
                }
                assert(q[i0] == ps2[i0]);
                assert(plan[0] == i0);
                assert(plan.contains(i0));
            } else {
                assert(ps2[i] == ps[i]);
                if plan.contains(i) {
                    let k = choose|k: int| 0 <= k < plan.len() && plan[k] == i;
                    assert(k != 0);
                    assert(rest[k - 1] == i);
                    assert(rest.contains(i));
                } else {
                    if rest.contains(i) {
                        let k = choose|k: int| 0 <= k < rest.len() && rest[k] == i;
                        assert(plan[k + 1] == i);
                        assert(plan.contains(i));
                        assert(false);
                    }
                }
            }
        }
    }
}

/// An empty plan moves nothing: re-applying the unchanged positions gives
/// back the same entity store.
pub proof fn lemma_reposition_identity(s: Seq<Entity>)
    ensures
        reposition(s, positions_of(s)) == s,
{
    assert forall|i: int| 0 <= i < s.len() implies reposition(s, positions_of(s))[i] == s[i] by {
        assert(with_position(s[i], s[i].position) == s[i]);
    }
    assert(reposition(s, positions_of(s)) =~= s);
}

/// Applying a successful ray plan keeps the occupancy invariant: the chain
/// shifts into its own cells and the gap, and no other blocking entity sits
/// in the way.
pub proof fn lemma_apply_ray(s: Seq<Entity>, x: int, y: int, d: Direction, w: int, h: int)
    requires
        entities_unique(s),
        ray_plan(s, x, y, d, w, h) is Some,
        w <= 256,
        h <= 256,
    ensures
        ({
            let p = ray_plan(s, x, y, d, w, h)->Some_0;
            &&& apply_positions(positions_of(s), p, d, w, h) is Some
            &&& entities_unique(
                reposition(s, apply_positions(positions_of(s), p, d, w, h)->Some_0),
            )
        }),
{
    let p = ray_plan(s, x, y, d, w, h)->Some_0;
    let ps = positions_of(s);
    let m = p.len() as int;
    lemma_ray_plan_chain(s, x, y, d, w, h);
    lemma_ray_plan_distinct(s, x, y, d, w, h);
    assert forall|k: int| 0 <= k < m implies 0 <= #[trigger] p[k] < ps.len() && can_shift(
        ps[p[k]],
        d,
        w,
        h,
    ) by {
        assert(movable_pred(s, cell_x(x, d, k), cell_y(y, d, k), p[k]));
        assert(ps[p[k]] == s[p[k]].position);
        assert(in_bounds(cell_x(x, d, k + 1), cell_y(y, d, k + 1), w, h));
        lemma_cell_step(x, y, d, k);
    }
    lemma_apply_distinct(ps, p, d, w, h);
    let q = apply_positions(ps, p, d, w, h)->Some_0;
    let t = reposition(s, q);
    assert forall|i: int, j: int|
        0 <= i < t.len() && 0 <= j < t.len() && i != j && (#[trigger] t[i]).blocking() && (
        #[trigger] t[j]).blocking() implies !(t[i].position.x == t[j].position.x
        && t[i].position.y == t[j].position.y) by {
        assert(t[i] == with_position(s[i], q[i]));
        assert(t[j] == with_position(s[j], q[j]));
        assert(s[i].blocking() && s[j].blocking());
        if p.contains(i) && p.contains(j) {
            let k1 = choose|k: int| 0 <= k < m && p[k] == i;
            let k2 = choose|k: int| 0 <= k < m && p[k] == j;
            assert(movable_pred(s, cell_x(x, d, k1), cell_y(y, d, k1), i));
            assert(movable_pred(s, cell_x(x, d, k2), cell_y(y, d, k2), j));
            assert(q[i] == shift_pos(s[i].position, d));
            assert(q[j] == shift_pos(s[j].position, d));
            assert(in_bounds(cell_x(x, d, k1 + 1), cell_y(y, d, k1 + 1), w, h));
            assert(in_bounds(cell_x(x, d, k2 + 1), cell_y(y, d, k2 + 1), w, h));
            lemma_cell_step(x, y, d, k1);
            lemma_cell_step(x, y, d, k2);
            assert(k1 != k2);
            lemma_cells_distinct(x, y, d, k1 + 1, k2 + 1);
            assert(t[i].position.x as int == cell_x(x, d, k1 + 1));
            assert(t[i].position.y as int == cell_y(y, d, k1 + 1));
            assert(t[j].position.x as int == cell_x(x, d, k2 + 1));
            assert(t[j].position.y as int == cell_y(y, d, k2 + 1));
        } else if p.contains(i) && !p.contains(j) {
            assert(q[j] == s[j].position);
            lemma_chain_into_free_cell(s, x, y, d, w, h, i, j);
        } else if !p.contains(i) && p.contains(j) {
            assert(q[i] == s[i].position);
            lemma_chain_into_free_cell(s, x, y, d, w, h, j, i);
        } else {
            assert(q[i] == s[i].position && q[j] == s[j].position);
        }
    }
}

/// A planned entity's target cell holds no blocking entity outside the
/// chain: the cell is either the next chain cell, whose sole blocking
/// occupant is also planned, or the empty gap.
proof fn lemma_chain_into_free_cell(s: Seq<Entity>, x: int, y: int, d: Direction, w: int, h: int,
    i: int, j: int)
    requires
        entities_unique(s),
        ray_plan(s, x, y, d, w, h) is Some,
        w <= 256,
        h <= 256,
        ray_plan(s, x, y, d, w, h)->Some_0.contains(i),
        !ray_plan(s, x, y, d, w, h)->Some_0.contains(j),
        0 <= j < s.len(),
        s[j].blocking(),
    ensures
        ({
            let c = shift_pos(s[i].position, d);
            !(c.x == s[j].position.x && c.y == s[j].position.y)
        }),
{
    let p = ray_plan(s, x, y, d, w, h)->Some_0;
    let m = p.len() as int;
    lemma_ray_plan_chain(s, x, y, d, w, h);
    let k = choose|k: int| 0 <= k < m && p[k] == i;
    assert(movable_pred(s, cell_x(x, d, k), cell_y(y, d, k), i));
    assert(in_bounds(cell_x(x, d, k + 1), cell_y(y, d, k + 1), w, h));
    lemma_cell_step(x, y, d, k);
    let c = shift_pos(s[i].position, d);
    assert(c.x as int == cell_x(x, d, k + 1));
    assert(c.y as int == cell_y(y, d, k + 1));
    if c.x == s[j].position.x && c.y == s[j].position.y {
        if k + 1 < m {
            assert(movable_pred(s, cell_x(x, d, k + 1), cell_y(y, d, k + 1), p[k + 1]));
            assert(p.contains(p[k + 1]));
            assert(j != p[k + 1]);
            assert(s[p[k + 1]].blocking());
            assert(false);
        } else {
            assert(!some_movable_at(s, cell_x(x, d, m), cell_y(y, d, m)));
            assert(!some_immovable_at(s, cell_x(x, d, m), cell_y(y, d, m)));
            if s[j].is_movable() {
                assert(movable_pred(s, cell_x(x, d, m), cell_y(y, d, m), j));
                assert(false);
            } else {
                assert(immovable_pred(s, cell_x(x, d, m), cell_y(y, d, m), j));
                assert(false);
            }
        }
    }
}

/// Invariant preservation: a tick of a world with at most one player, over
/// a grid no larger than the coordinate space, never computes a relocation
/// off the grid, and after it no two movable-or-immovable entities share a
/// cell.  With two players sharing one ray the combined plan can relocate
/// one entity twice, which this law therefore leaves out.
pub proof fn lemma_tick_preserves_invariant(s: Seq<Entity>, d: Direction, w: int, h: int)
    requires
        entities_unique(s),
        players_of(s).len() <= 1,
        w <= 256,
        h <= 256,
    ensures
        apply_positions(positions_of(s), all_plans(s, d, w, h), d, w, h) is Some,
        entities_unique(
            reposition(
                s,
                apply_positions(positions_of(s), all_plans(s, d, w, h), d, w, h)->Some_0,
            ),
        ),
{
    let ps = positions_of(s);
    let plan = all_plans(s, d, w, h);
    if players_of(s).len() == 0 {
        assert(plan == Seq::<int>::empty());
        assert(apply_positions(ps, plan, d, w, h) == Some(ps));
        lemma_reposition_identity(s);
    } else {
        let pl = players_of(s);
        let pi = pl[0];
        assert(pl.drop_last() =~= Seq::<int>::empty());
        assert(pl.last() == pi);
        assert(plans_cat(s, pl.drop_last(), d, w, h) == Seq::<int>::empty());
        let px = s[pi].position.x as int;
        let py = s[pi].position.y as int;
        assert(plan =~= plan_of(s, px, py, d, w, h));
        match ray_plan(s, px, py, d, w, h) {
            None => {
                assert(plan =~= Seq::<int>::empty());
                assert(apply_positions(ps, plan, d, w, h) == Some(ps));
                lemma_reposition_identity(s);
            },
            Some(p0) => {
                assert(plan == p0);
                lemma_apply_ray(s, px, py, d, w, h);
            },
        }
    }
}

/// With exactly one player, the tick's combined plan is that player's own
/// chain.
pub proof fn lemma_single_player_plan(s: Seq<Entity>, d: Direction, w: int, h: int)
    requires
        players_of(s).len() == 1,
    ensures
        all_plans(s, d, w, h) == plan_of(
            s,
            s[players_of(s)[0]].position.x as int,
            s[players_of(s)[0]].position.y as int,
            d,
            w,
            h,
        ),
{
    let pl = players_of(s);
    assert(pl.drop_last() =~= Seq::<int>::empty());
    assert(pl.last() == pl[0]);
    assert(plans_cat(s, pl.drop_last(), d, w, h) == Seq::<int>::empty());
    assert(Seq::<int>::empty() + plan_of(
        s,
        s[pl[0]].position.x as int,
        s[pl[0]].position.y as int,
        d,
        w,
        h,
    ) =~= plan_of(s, s[pl[0]].position.x as int, s[pl[0]].position.y as int, d, w, h));
}

/// An empty combined plan moves nothing: the application succeeds with the
/// positions unchanged, and re-applying them gives back the same store —
/// so a tick with a blocked or boundary-stopped chain changes no entity
/// coordinate.
pub proof fn lemma_empty_plan_moves_nothing(s: Seq<Entity>, d: Direction, w: int, h: int)
    requires
        all_plans(s, d, w, h) == Seq::<int>::empty(),
    ensures
        apply_positions(positions_of(s), all_plans(s, d, w, h), d, w, h) == Some(positions_of(s)),
        reposition(s, positions_of(s)) == s,
{
    lemma_reposition_identity(s);
}

/// Blocking: a chain of movable-occupied cells that runs into an immovable
/// entity with no gap resolves to an empty plan.
pub proof fn lemma_blocked_chain(s: Seq<Entity>, x: int, y: int, d: Direction, w: int, h: int,
    n: int)
    requires
        0 <= n,
        forall|k: int|
            0 <= k < n ==> some_movable_at(s, #[trigger] cell_x(x, d, k), cell_y(y, d, k)),
        some_immovable_at(s, cell_x(x, d, n), cell_y(y, d, n)),
        !some_movable_at(s, cell_x(x, d, n), cell_y(y, d, n)),
    ensures
        ray_plan(s, x, y, d, w, h) is None,
        plan_of(s, x, y, d, w, h) == Seq::<int>::empty(),
    decreases n,
{
    lemma_cell_step(x, y, d, 0);
    if !in_bounds(x, y, w, h) {
    } else if n == 0 {
    } else {
        assert(cell_x(x, d, 0) == x && cell_y(y, d, 0) == y);
        assert(some_movable_at(s, x, y));
        assert forall|k: int| 0 <= k < n - 1 implies some_movable_at(
            s,
            #[trigger] cell_x(x + dx(d), d, k),
            cell_y(y + dy(d), d, k),
        ) by {
            lemma_cell_step(x, y, d, k);
            assert(some_movable_at(s, cell_x(x, d, k + 1), cell_y(y, d, k + 1)));
        }
        lemma_cell_step(x, y, d, n - 1);
        lemma_blocked_chain(s, x + dx(d), y + dy(d), d, w, h, n - 1);
    }
}

/// Boundary: from a movable-occupied cell, a command whose whole remaining
/// ray is movable-occupied finds no gap and resolves to an empty plan.
pub proof fn lemma_boundary_no_gap(s: Seq<Entity>, x: int, y: int, d: Direction, w: int, h: int)
    requires
        in_bounds(x, y, w, h),
        forall|k: int|
            0 <= k && in_bounds(#[trigger] cell_x(x, d, k), cell_y(y, d, k), w, h)
                ==> some_movable_at(s, cell_x(x, d, k), cell_y(y, d, k)),
    ensures
        ray_plan(s, x, y, d, w, h) is None,
        plan_of(s, x, y, d, w, h) == Seq::<int>::empty(),
    decreases crate::resolver::steps_left(x, y, d, w, h),
{
    lemma_cell_step(x, y, d, 0);
    assert(some_movable_at(s, x, y));
    if in_bounds(x + dx(d), y + dy(d), w, h) {
        assert forall|k: int|
            0 <= k && in_bounds(#[trigger] cell_x(x + dx(d), d, k), cell_y(y + dy(d), d, k), w, h)
                implies some_movable_at(s, cell_x(x + dx(d), d, k), cell_y(y + dy(d), d, k)) by {
            lemma_cell_step(x, y, d, k);
            assert(in_bounds(cell_x(x, d, k + 1), cell_y(y, d, k + 1), w, h));
            assert(some_movable_at(s, cell_x(x, d, k + 1), cell_y(y, d, k + 1)));
        }
        lemma_boundary_no_gap(s, x + dx(d), y + dy(d), d, w, h);
    } else {
        assert(ray_plan(s, x + dx(d), y + dy(d), d, w, h) is None);
    }
}

/// Chain push: a movable entity at the start cell, a second movable on the
/// adjacent cell, and an empty in-bounds cell beyond resolve to exactly the
/// two-entity chain; applying it shifts both one cell and nothing else.
pub proof fn lemma_chain_push(s: Seq<Entity>, x: int, y: int, d: Direction, w: int, h: int)
    requires
        entities_unique(s),
        w <= 256,
        h <= 256,
        in_bounds(x, y, w, h),
        in_bounds(x + dx(d), y + dy(d), w, h),
        in_bounds(x + 2 * dx(d), y + 2 * dy(d), w, h),
        some_movable_at(s, x, y),
        some_movable_at(s, x + dx(d), y + dy(d)),
        !some_movable_at(s, x + 2 * dx(d), y + 2 * dy(d)),
        !some_immovable_at(s, x + 2 * dx(d), y + 2 * dy(d)),
    ensures
        ray_plan(s, x, y, d, w, h) == Some(
            seq![movable_idx(s, x, y), movable_idx(s, x + dx(d), y + dy(d))],
        ),
        plan_of(s, x, y, d, w, h).len() == 2,
        apply_positions(positions_of(s), plan_of(s, x, y, d, w, h), d, w, h) is Some,
        ({
            let q = apply_positions(positions_of(s), plan_of(s, x, y, d, w, h), d, w, h)->Some_0;
            let i0 = movable_idx(s, x, y);
            let i1 = movable_idx(s, x + dx(d), y + dy(d));
            &&& q[i0] == shift_pos(s[i0].position, d)
            &&& q[i1] == shift_pos(s[i1].position, d)
            &&& forall|j: int|
                0 <= j < s.len() && j != i0 && j != i1 ==> #[trigger] q[j] == s[j].position
        }),
{
    let x2 = x + dx(d);
    let y2 = y + dy(d);
    let x3 = x + 2 * dx(d);
    let y3 = y + 2 * dy(d);
    assert(x2 + dx(d) == x3);
    assert(y2 + dy(d) == y3);
    assert(ray_plan(s, x3, y3, d, w, h) == Some(Seq::<int>::empty()));
    assert(ray_plan(s, x2, y2, d, w, h) == Some(
        seq![movable_idx(s, x2, y2)] + Seq::<int>::empty(),
    ));
    assert(seq![movable_idx(s, x2, y2)] + Seq::<int>::empty() =~= seq![movable_idx(s, x2, y2)]);
    assert(ray_plan(s, x, y, d, w, h) == Some(
        seq![movable_idx(s, x, y)] + seq![movable_idx(s, x2, y2)],
    ));
    assert(seq![movable_idx(s, x, y)] + seq![movable_idx(s, x2, y2)] =~= seq![
        movable_idx(s, x, y),
        movable_idx(s, x2, y2),
    ]);
    let p = plan_of(s, x, y, d, w, h);
    let ps = positions_of(s);
    let i0 = movable_idx(s, x, y);
    let i1 = movable_idx(s, x2, y2);
    lemma_ray_plan_chain(s, x, y, d, w, h);
    lemma_ray_plan_distinct(s, x, y, d, w, h);
    assert forall|k: int| 0 <= k < p.len() implies 0 <= #[trigger] p[k] < ps.len() && can_shift(
        ps[p[k]],
        d,
        w,
        h,
    ) by {
        assert(movable_pred(s, cell_x(x, d, k), cell_y(y, d, k), p[k]));
        assert(in_bounds(cell_x(x, d, k + 1), cell_y(y, d, k + 1), w, h));
        lemma_cell_step(x, y, d, k);
    }
    lemma_apply_distinct(ps, p, d, w, h);
    let q = apply_positions(ps, p, d, w, h)->Some_0;
    assert(p[0] == i0 && p[1] == i1);
    assert(p.contains(i0) && p.contains(i1));
    assert(q[i0] == shift_pos(s[i0].position, d));
    assert(q[i1] == shift_pos(s[i1].position, d));
    assert forall|j: int| 0 <= j < s.len() && j != i0 && j != i1 implies #[trigger] q[j]
        == s[j].position by {
        if p.contains(j) {
            let k = choose|k: int| 0 <= k < p.len() && p[k] == j;
            assert(p[k] == i0 || p[k] == i1);
            assert(false);
        }
    }
}

/// One token's entities all sit on its own cell, and at most one of them
/// blocks: the floor tile never does.
proof fn lemma_token_entities_shape(t: Seq<char>, x: int, y: int)
    requires
        0 <= x <= 255,
        0 <= y <= 255,
    ensures
        ({
            let es = token_entities(t, x, y);
            &&& forall|i: int|
                0 <= i < es.len() ==> (#[trigger] es[i]).position.x == x && es[i].position.y == y
            &&& forall|i: int, j: int|
                0 <= i < j < es.len() ==> !((#[trigger] es[i]).blocking() && (
                #[trigger] es[j]).blocking())
        }),
{
}

/// One row's entities all sit on the row, each on the column of its own
/// token; no two blocking entities of the row share a column.
proof fn lemma_row_entities_shape(toks: Seq<Seq<char>>, x: int, y: int)
    requires
        0 <= x,
        x + toks.len() <= 256,
        0 <= y <= 255,
    ensures
        ({
            let es = row_entities(toks, x, y);
            &&& forall|i: int|
                0 <= i < es.len() ==> (#[trigger] es[i]).position.y == y && x
                    <= es[i].position.x < x + toks.len()
            &&& forall|i: int, j: int|
                0 <= i < j < es.len() && (#[trigger] es[i]).blocking() && (
                #[trigger] es[j]).blocking() ==> es[i].position.x != es[j].position.x
        }),
    decreases toks.len(),
{
    if toks.len() == 0 {
    } else {
        let head = token_entities(toks[0], x, y);
        let tail = row_entities(toks.drop_first(), x + 1, y);
        let es = row_entities(toks, x, y);
        lemma_token_entities_shape(toks[0], x, y);
        lemma_row_entities_shape(toks.drop_first(), x + 1, y);
        assert(es == head + tail);
        assert forall|i: int| 0 <= i < es.len() implies (#[trigger] es[i]).position.y == y && x
            <= es[i].position.x < x + toks.len() by {
            if i < head.len() {
                assert(es[i] == head[i]);
            } else {
                assert(es[i] == tail[i - head.len()]);
            }
        }
        assert forall|i: int, j: int|
            0 <= i < j < es.len() && (#[trigger] es[i]).blocking() && (
            #[trigger] es[j]).blocking() implies es[i].position.x != es[j].position.x by {
            if i < head.len() && j < head.len() {
                assert(es[i] == head[i] && es[j] == head[j]);
                assert(false);
            } else if i < head.len() {
                assert(es[i] == head[i] && es[j] == tail[j - head.len()]);
            } else {
                assert(es[i] == tail[i - head.len()] && es[j] == tail[j - head.len()]);
            }
        }
    }
}

/// The grid's entities all sit on their own rows; no two blocking entities
/// of the grid share a cell.
proof fn lemma_grid_entities_shape(rows: Seq<Seq<Seq<char>>>, y: int)
    requires
        0 <= y,
        y + rows.len() <= 256,
        forall|r: int| 0 <= r < rows.len() ==> (#[trigger] rows[r]).len() <= 256,
    ensures
        ({
            let es = grid_entities(rows, y);
            &&& forall|i: int|
                0 <= i < es.len() ==> y <= (#[trigger] es[i]).position.y < y + rows.len()
            &&& forall|i: int, j: int|
                0 <= i < j < es.len() && (#[trigger] es[i]).blocking() && (
                #[trigger] es[j]).blocking() ==> !(es[i].position.x == es[j].position.x
                    && es[i].position.y == es[j].position.y)
        }),
    decreases rows.len(),
{
    if rows.len() == 0 {
    } else {
        let head = row_entities(rows[0], 0, y);
        let tail = grid_entities(rows.drop_first(), y + 1);
        let es = grid_entities(rows, y);
        lemma_row_entities_shape(rows[0], 0, y);
        lemma_grid_entities_shape(rows.drop_first(), y + 1);
        assert(es == head + tail);
        assert forall|i: int| 0 <= i < es.len() implies y <= (#[trigger] es[i]).position.y < y
            + rows.len() by {
            if i < head.len() {
                assert(es[i] == head[i]);
            } else {
                assert(es[i] == tail[i - head.len()]);
            }
        }
        assert forall|i: int, j: int|
            0 <= i < j < es.len() && (#[trigger] es[i]).blocking() && (
            #[trigger] es[j]).blocking() implies !(es[i].position.x == es[j].position.x
            && es[i].position.y == es[j].position.y) by {
            if i < head.len() && j < head.len() {
                assert(es[i] == head[i] && es[j] == head[j]);
            } else if i < head.len() {
                assert(es[i] == head[i] && es[j] == tail[j - head.len()]);
            } else {
                assert(es[i] == tail[i - head.len()] && es[j] == tail[j - head.len()]);
            }
        }
    }
}

/// A valid level is born well-formed: the entities of a map text that fits
/// the grid never put two blocking entities on one cell — the base case of
/// the occupancy invariant that every single-player tick then preserves.
pub proof fn lemma_load_well_formed(s: Seq<char>, w: int, h: int)
    requires
        load_ok(s, w, h),
        0 <= w <= 256,
        0 <= h <= 256,
    ensures
        entities_unique(map_entities(s)),
{
    let g = grid_rows(s);
    assert forall|r: int| 0 <= r < g.len() implies (#[trigger] g[r]).len() <= 256 by {
        assert(g[r].len() == w);
    }
    lemma_grid_entities_shape(g, 0);
}

/// Idempotent win: once the phase is `Won`, no later evaluation, whatever
/// the store holds, returns it to `Playing`.
pub proof fn lemma_won_is_final(s: Seq<Entity>, st: GameplayState)
    requires
        st is Won,
    ensures
        win_step(s, st) is Won,
{
}

} // verus!
