//! The turn controller and the win evaluator.
//!
//! One call of [`tick`] consumes at most one queued command (oldest first),
//! resolves a push chain for every player against one occupancy snapshot,
//! applies every relocation, advances the move counter when anything moved,
//! and re-evaluates the win condition.

use vstd::prelude::*;

use crate::components::{Direction, Entity, Position};
use crate::resolver::{dx, dy, in_bounds, plan_of, usizes};
use crate::resources::GameplayState;
use crate::world::{World, some_movable_at, find_movable_at, entities_unique};

verus! {

/// A relocation computed outside the grid: resolver or state corruption,
/// an unrecoverable programming-error class.  The controller fails fast and
/// leaves the entity store untouched.
#[derive(Clone, Copy, PartialEq, Eq, Structural, Debug)]
pub enum EngineError {
    OutOfBoundsRelocation,
}

/// One step from position `p` in direction `d` stays on the `w` x `h` grid.
pub open spec fn can_shift(p: Position, d: Direction, w: int, h: int) -> bool {
    in_bounds(p.x + dx(d), p.y + dy(d), w, h)
}

/// Position `p` moved one cell in direction `d` (meaningful when
/// [`can_shift`] holds).
pub open spec fn shift_pos(p: Position, d: Direction) -> Position {
    Position { x: (p.x + dx(d)) as u8, y: (p.y + dy(d)) as u8, z: p.z }
}

/// The positions of the entities of `s`, in store order.
pub open spec fn positions_of(s: Seq<Entity>) -> Seq<Position> {
    s.map_values(|e: Entity| e.position)
}

/// Applies a relocation plan to a position snapshot, one entry after the
/// other; `None` as soon as a relocation would leave the grid.
pub open spec fn apply_positions(ps: Seq<Position>, plan: Seq<int>, d: Direction, w: int,
    h: int) -> Option<Seq<Position>>
    decreases plan.len(),
{
    if plan.len() == 0 {
        Some(ps)
    } else {
        let i = plan[0];
        if 0 <= i < ps.len() && can_shift(ps[i], d, w, h) {
            apply_positions(ps.update(i, shift_pos(ps[i], d)), plan.drop_first(), d, w, h)
        } else {
            None
        }
    }
}

/// Entity `e` with its position replaced by `p`.
pub open spec fn with_position(e: Entity, p: Position) -> Entity {
    Entity { position: p, ..e }
}

/// The entities of `s`, each moved to the corresponding position of `ps`.
pub open spec fn reposition(s: Seq<Entity>, ps: Seq<Position>) -> Seq<Entity> {
    Seq::new(s.len(), |i: int| with_position(s[i], ps[i]))
}

/// The indices of the player entities of `s`, in store order.
pub open spec fn players_of(s: Seq<Entity>) -> Seq<int>
    decreases s.len(),
{
    if s.len() == 0 {
        Seq::<int>::empty()
    } else {
        let pre = players_of(s.drop_last());
        if s.last().is_player() {
            pre.push(s.len() - 1)
        } else {
            pre
        }
    }
}

/// The relocation plans of the listed players, concatenated in order, all
/// resolved against the one snapshot `s`.
pub open spec fn plans_cat(s: Seq<Entity>, players: Seq<int>, d: Direction, w: int, h: int) -> Seq<
    int,
>
    decreases players.len(),
{
    if players.len() == 0 {
        Seq::<int>::empty()
    } else {
        plans_cat(s, players.drop_last(), d, w, h) + plan_of(
            s,
            s[players.last()].position.x as int,
            s[players.last()].position.y as int,
            d,
            w,
            h,
        )
    }
}

/// The combined relocation plan of one tick: every player's chain, resolved
/// against the shared snapshot `s`.
pub open spec fn all_plans(s: Seq<Entity>, d: Direction, w: int, h: int) -> Seq<int> {
    plans_cat(s, players_of(s), d, w, h)
}

/// Every scoring-target cell of `s` is occupied by a movable entity.
pub open spec fn all_targets_covered(s: Seq<Entity>) -> bool {
    forall|i: int|
        0 <= i < s.len() && (#[trigger] s[i]).is_target() ==> some_movable_at(
            s,
            s[i].position.x as int,
            s[i].position.y as int,
        )
}

/// The phase after one win evaluation over the store `s`: a one-way
/// transition from `Playing` to `Won`, never back.
pub open spec fn win_step(s: Seq<Entity>, st: GameplayState) -> GameplayState {
    if st is Won || all_targets_covered(s) {
        GameplayState::Won
    } else {
        GameplayState::Playing
    }
}

/// Splitting a plan splits its application.
pub proof fn lemma_apply_positions_concat(ps: Seq<Position>, a: Seq<int>, b: Seq<int>,
    d: Direction, w: int, h: int)
    ensures
        apply_positions(ps, a + b, d, w, h) == (match apply_positions(ps, a, d, w, h) {
            None => None::<Seq<Position>>,
            Some(cur) => apply_positions(cur, b, d, w, h),
        }),
    decreases a.len(),
{
    if a.len() == 0 {
        assert(a + b =~= b);
    } else {
        let i = a[0];
        assert((a + b)[0] == i);
        if 0 <= i < ps.len() && can_shift(ps[i], d, w, h) {
            let ps2 = ps.update(i, shift_pos(ps[i], d));
            assert((a + b).drop_first() =~= a.drop_first() + b);
            lemma_apply_positions_concat(ps2, a.drop_first(), b, d, w, h);
        } else {
            assert(apply_positions(ps, a + b, d, w, h) is None);
        }
    }
}

/// The win evaluator.  Checks whether a movable entity occupies every
/// scoring-target cell and performs the one-way `Playing` to `Won`
/// transition; once `Won`, re-entrant calls are idempotent.  Returns the
/// phase after the evaluation.
pub fn evaluate(world: &mut World) -> (phase: GameplayState)
    ensures
        final(world).gameplay.state == win_step(old(world).entities@, old(world).gameplay.state),
        phase == final(world).gameplay.state,
        final(world).entities@ == old(world).entities@,
        final(world).input_queue.keys_pressed@ == old(world).input_queue.keys_pressed@,
        final(world).gameplay.moves_count == old(world).gameplay.moves_count,
        final(world).width == old(world).width,
        final(world).height == old(world).height,
{
    let n = world.entities.len();
    let mut covered = true;
    let mut i: usize = 0;
    while i < n
        invariant
            n == world.entities@.len(),
            0 <= i <= n,
            covered == (forall|p: int|
                0 <= p < i && (#[trigger] world.entities@[p]).is_target() ==> some_movable_at(
                    world.entities@,
                    world.entities@[p].position.x as int,
                    world.entities@[p].position.y as int,
                )),
        decreases n - i,
    {
        let e = world.entities[i];
        if e.box_spot.is_some() {
            match find_movable_at(&world.entities, e.position.x, e.position.y) {
                Some(_) => {},
                None => {
                    covered = false;
                },
            }
        }
        i = i + 1;
    }
    assert(covered == all_targets_covered(world.entities@));
    let won = world.gameplay.state == GameplayState::Won || covered;
    let new_state = if won {
        GameplayState::Won
    } else {
        GameplayState::Playing
    };
    world.gameplay.state = new_state;
    new_state
}

/// One relocation of position `p`, or `None` when the step leaves the
/// `w` x `h` grid.
fn shift_checked(p: Position, d: Direction, w: u8, h: u8) -> (r: Option<Position>)
    ensures
        match r {
            Some(q) => can_shift(p, d, w as int, h as int) && q == shift_pos(p, d),
            None => !can_shift(p, d, w as int, h as int),
        },
{
    match d {
        Direction::Up => if p.x < w && p.y >= 1 && p.y - 1 < h {
            Some(Position { x: p.x, y: p.y - 1, z: p.z })
        } else {
            None
        },
        Direction::Down => if p.x < w && (p.y as u16) + 1 < (h as u16) {
            Some(Position { x: p.x, y: p.y + 1, z: p.z })
        } else {
            None
        },
        Direction::Left => if p.y < h && p.x >= 1 && p.x - 1 < w {
            Some(Position { x: p.x - 1, y: p.y, z: p.z })
        } else {
            None
        },
        Direction::Right => if p.y < h && (p.x as u16) + 1 < (w as u16) {
            Some(Position { x: p.x + 1, y: p.y, z: p.z })
        } else {
            None
        },
    }
}

/// The turn controller.  Consumes the oldest queued command, if any;
/// resolves a chain for every player against one occupancy snapshot taken at
/// the start of the tick; applies every relocation in order; increments
/// `moves_count` by exactly one when the combined plan is non-empty; then
/// runs the win evaluator, on a tick without input too.  A relocation that
/// would leave the grid is an invariant violation: the tick fails fast with
/// the entity store untouched.
#[verifier::loop_isolation(false)]
pub fn tick(world: &mut World) -> (r: Result<(), EngineError>)
    requires
        old(world).wf(),
        old(world).gameplay.moves_count < u32::MAX,
    ensures
        final(world).width == old(world).width,
        final(world).height == old(world).height,
        ({
            let s = old(world).entities@;
            let q = old(world).input_queue.keys_pressed@;
            let w = old(world).width as int;
            let h = old(world).height as int;
            if q.len() == 0 {
                &&& r is Ok
                &&& final(world).entities@ == s
                &&& final(world).input_queue.keys_pressed@ == q
                &&& final(world).gameplay.moves_count == old(world).gameplay.moves_count
                &&& final(world).gameplay.state == win_step(s, old(world).gameplay.state)
            } else {
                let d = q[0];
                let plan = all_plans(s, d, w, h);
                &&& final(world).input_queue.keys_pressed@ == q.drop_first()
                &&& match apply_positions(positions_of(s), plan, d, w, h) {
                    Some(ps) => {
                        &&& r is Ok
                        &&& final(world).entities@ == reposition(s, ps)
                        &&& final(world).gameplay.moves_count == old(world).gameplay.moves_count
                            + (if plan.len() > 0 {
                            1int
                        } else {
                            0int
                        })
                        &&& final(world).gameplay.state == win_step(
                            reposition(s, ps),
                            old(world).gameplay.state,
                        )
                    },
                    None => {
                        &&& r is Err
                        &&& final(world).entities@ == s
                        &&& final(world).gameplay == old(world).gameplay
                    },
                }
            }
        }),
{
    let ghost s = old(world).entities@;
    let ghost w_i = old(world).width as int;
    let ghost h_i = old(world).height as int;
    if world.input_queue.keys_pressed.len() == 0 {
        evaluate(world);
        return Ok(());
    }
    let d = world.input_queue.keys_pressed.remove(0);
    proof {
        assert(world.input_queue.keys_pressed@ =~= old(world).input_queue.keys_pressed@.drop_first());
    }

    // Collect the player indices from the shared snapshot.
    let n = world.entities.len();
    let mut players: Vec<usize> = Vec::new();
    let mut i: usize = 0;
    while i < n
        invariant
            world.entities@ == s,
            n == s.len(),
            0 <= i <= n,
            usizes(players@) == players_of(s.take(i as int)),
            forall|k: int| 0 <= k < players@.len() ==> (#[trigger] players@[k]) < n,
            world.width == old(world).width,
            world.height == old(world).height,
            world.gameplay == old(world).gameplay,
            world.input_queue.keys_pressed@ == old(world).input_queue.keys_pressed@.drop_first(),
        decreases n - i,
    {
        let ghost old_players = players@;
        if world.entities[i].player.is_some() {
            players.push(i);
        }
        proof {
            assert(s.take(i + 1).drop_last() =~= s.take(i as int));
            assert(s.take(i + 1).last() == s[i as int]);
            if s[i as int].is_player() {
                assert(usizes(players@) =~= usizes(old_players).push(i as int));
            }
        }
        i = i + 1;
    }
    proof {
        assert(s.take(n as int) =~= s);
    }

    // Resolve every player's chain against the one snapshot.
    let mut plan: Vec<usize> = Vec::new();
    let mut k: usize = 0;
    while k < players.len()
        invariant
            world.entities@ == s,
            n == s.len(),
            entities_unique(s),
            w_i == world.width as int,
            h_i == world.height as int,
            usizes(players@) == players_of(s),
            forall|j: int| 0 <= j < players@.len() ==> (#[trigger] players@[j]) < n,
            0 <= k <= players@.len(),
            usizes(plan@) == plans_cat(s, players_of(s).take(k as int), d, w_i, h_i),
            forall|j: int| 0 <= j < plan@.len() ==> (#[trigger] plan@[j]) < n,
            world.width == old(world).width,
            world.height == old(world).height,
            world.gameplay == old(world).gameplay,
            world.input_queue.keys_pressed@ == old(world).input_queue.keys_pressed@.drop_first(),
        decreases players@.len() - k,
    {
        let p = players[k];
        let pos = world.entities[p].position;
        let ghost old_plan = plan@;
        let mut sub = crate::resolver::resolve(
            &world.entities,
            pos.x,
            pos.y,
            d,
            world.width,
            world.height,
        );
        plan.append(&mut sub);
        proof {
            assert(players_of(s).take(k + 1).drop_last() =~= players_of(s).take(k as int));
            assert(players_of(s).take(k + 1).last() == p as int);
            assert(usizes(plan@) =~= usizes(old_plan) + plan_of(
                s,
                pos.x as int,
                pos.y as int,
                d,
                w_i,
                h_i,
            ));
        }
        k = k + 1;
    }
    proof {
        assert(players_of(s).take(players@.len() as int) =~= players_of(s));
    }
    let ghost plan_spec = all_plans(s, d, w_i, h_i);
    assert(usizes(plan@) == plan_spec);

    // Simulate the relocations on a position mirror: all or nothing.
    let mut mirror: Vec<Position> = Vec::new();
    let mut i2: usize = 0;
    while i2 < n
        invariant
            world.entities@ == s,
            n == s.len(),
            0 <= i2 <= n,
            mirror@ =~= positions_of(s).take(i2 as int),
        decreases n - i2,
    {
        mirror.push(world.entities[i2].position);
        proof {
            assert(positions_of(s).take(i2 + 1) =~= positions_of(s).take(i2 as int).push(
                s[i2 as int].position,
            ));
        }
        i2 = i2 + 1;
    }
    proof {
        assert(positions_of(s).take(n as int) =~= positions_of(s));
    }
    let ghost ps0 = positions_of(s);

    let mut k2: usize = 0;
    while k2 < plan.len()
        invariant
            world.entities@ == s,
            n == s.len(),
            w_i == world.width as int,
            h_i == world.height as int,
            0 <= k2 <= plan@.len(),
            forall|j: int| 0 <= j < plan@.len() ==> (#[trigger] plan@[j]) < n,
            ps0 == positions_of(s),
            mirror@.len() == n,
            apply_positions(ps0, usizes(plan@).take(k2 as int), d, w_i, h_i) == Some(mirror@),
            usizes(plan@) == plan_spec,
            world.width == old(world).width,
            world.height == old(world).height,
            world.gameplay == old(world).gameplay,
            world.input_queue.keys_pressed@ == old(world).input_queue.keys_pressed@.drop_first(),
        decreases plan@.len() - k2,
    {
        let idx = plan[k2];
        let cur = mirror[idx];
        let ghost old_mirror = mirror@;
        proof {
            assert(usizes(plan@).take(k2 + 1) =~= usizes(plan@).take(k2 as int) + seq![
                idx as int,
            ]);
            lemma_apply_positions_concat(
                ps0,
                usizes(plan@).take(k2 as int),
                seq![idx as int],
                d,
                w_i,
                h_i,
            );
            assert(seq![idx as int].len() == 1 && seq![idx as int][0] == idx as int);
            assert(seq![idx as int].drop_first() =~= Seq::<int>::empty());
        }
        match shift_checked(cur, d, world.width, world.height) {
            Some(q) => {
                mirror[idx] = q;
                proof {
                    let one = seq![idx as int];
                    let stepped = old_mirror.update(idx as int, shift_pos(cur, d));
                    assert(apply_positions(stepped, one.drop_first(), d, w_i, h_i) == Some(
                        stepped,
                    ));
                    assert(apply_positions(old_mirror, one, d, w_i, h_i) == Some(stepped));
                    assert(mirror@ == old_mirror.update(idx as int, q));
                }
            },
            None => {
                // Fail fast: a relocation left the grid; the store is
                // untouched.
                proof {
                    assert(apply_positions(ps0, usizes(plan@).take(k2 + 1), d, w_i, h_i)
                        is None);
                    assert(usizes(plan@) =~= usizes(plan@).take(k2 + 1) + usizes(plan@).skip(
                        k2 + 1,
                    ));
                    lemma_apply_positions_concat(
                        ps0,
                        usizes(plan@).take(k2 + 1),
                        usizes(plan@).skip(k2 + 1),
                        d,
                        w_i,
                        h_i,
                    );
                    assert(apply_positions(ps0, plan_spec, d, w_i, h_i) is None);
                }
                return Err(EngineError::OutOfBoundsRelocation);
            },
        }
        k2 = k2 + 1;
    }
    proof {
        assert(usizes(plan@).take(plan@.len() as int) =~= usizes(plan@));
        assert(apply_positions(ps0, plan_spec, d, w_i, h_i) == Some(mirror@));
    }

    // Apply: move every entity to its simulated position.
    let mut i3: usize = 0;
    while i3 < n
        invariant
            n == s.len(),
            world.entities@.len() == n,
            mirror@.len() == n,
            0 <= i3 <= n,
            forall|j: int|
                0 <= j < i3 ==> (#[trigger] world.entities@[j]) == with_position(
                    s[j],
                    mirror@[j],
                ),
            forall|j: int| i3 <= j < n ==> (#[trigger] world.entities@[j]) == s[j],
            world.width == old(world).width,
            world.height == old(world).height,
            world.gameplay == old(world).gameplay,
            world.input_queue.keys_pressed@ == old(world).input_queue.keys_pressed@.drop_first(),
        decreases n - i3,
    {
        let mut e = world.entities[i3];
        e.position = mirror[i3];
        world.entities[i3] = e;
        i3 = i3 + 1;
    }
    proof {
        assert(world.entities@ =~= reposition(s, mirror@));
    }

    if plan.len() > 0 {
        world.gameplay.moves_count = world.gameplay.moves_count + 1;
    }
    evaluate(world);
    Ok(())
}

/// The input-consuming system of the engine: one `run` performs one tick.
pub struct InputSystem {}

impl InputSystem {
    /// Runs one tick of the turn controller; same contract as [`tick`].
    pub fn run(&self, world: &mut World) -> (r: Result<(), EngineError>)
        requires
            old(world).wf(),
            old(world).gameplay.moves_count < u32::MAX,
        ensures
            final(world).width == old(world).width,
            final(world).height == old(world).height,
            ({
                let s = old(world).entities@;
                let q = old(world).input_queue.keys_pressed@;
                let w = old(world).width as int;
                let h = old(world).height as int;
                if q.len() == 0 {
                    &&& r is Ok
                    &&& final(world).entities@ == s
                    &&& final(world).input_queue.keys_pressed@ == q
                    &&& final(world).gameplay.moves_count == old(world).gameplay.moves_count
                    &&& final(world).gameplay.state == win_step(s, old(world).gameplay.state)
                } else {
                    let d = q[0];
                    let plan = all_plans(s, d, w, h);
                    &&& final(world).input_queue.keys_pressed@ == q.drop_first()
                    &&& match apply_positions(positions_of(s), plan, d, w, h) {
                        Some(ps) => {
                            &&& r is Ok
                            &&& final(world).entities@ == reposition(s, ps)
                            &&& final(world).gameplay.moves_count == old(
                                world,
                            ).gameplay.moves_count + (if plan.len() > 0 {
                                1int
                            } else {
                                0int
                            })
                            &&& final(world).gameplay.state == win_step(
                                reposition(s, ps),
                                old(world).gameplay.state,
                            )
                        },
                        None => {
                            &&& r is Err
                            &&& final(world).entities@ == s
                            &&& final(world).gameplay == old(world).gameplay
                        },
                    }
                }
            }),
    {
        tick(world)
    }
}

} // verus!
