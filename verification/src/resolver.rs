//! The move resolver: the push-chain algorithm.
//!
//! `resolve` walks a ray of grid cells from the player's cell toward the map
//! boundary in the commanded direction.  Every movable entity met on the way
//! joins the chain; an immovable entity empties the whole plan; an empty cell
//! ends the scan successfully.  If the ray runs off the grid with no gap
//! found, the plan is empty.  The whole chain moves or none of it does.

use vstd::prelude::*;

use crate::components::{Direction, Entity};
use crate::world::{World, movable_pred, immovable_pred, some_movable_at, some_immovable_at,
    movable_idx, find_movable_at, find_immovable_at};

verus! {

/// The x-offset of one step in direction `d`.
pub open spec fn dx(d: Direction) -> int {
    match d {
        Direction::Left => -1,
        Direction::Right => 1,
        Direction::Up => 0,
        Direction::Down => 0,
    }
}

/// The y-offset of one step in direction `d`.
pub open spec fn dy(d: Direction) -> int {
    match d {
        Direction::Up => -1,
        Direction::Down => 1,
        Direction::Left => 0,
        Direction::Right => 0,
    }
}

/// The cell (x, y) lies on the `w` x `h` grid.
pub open spec fn in_bounds(x: int, y: int, w: int, h: int) -> bool {
    0 <= x < w && 0 <= y < h
}

/// How many cells remain on the ray from (x, y) to the boundary, the cell
/// (x, y) included; the measure of the ray walk.
pub open spec fn steps_left(x: int, y: int, d: Direction, w: int, h: int) -> int {
    let n = match d {
        Direction::Up => y + 1,
        Direction::Down => h - y,
        Direction::Left => x + 1,
        Direction::Right => w - x,
    };
    if n < 0 {
        0
    } else {
        n
    }
}

/// The ray walk from cell (x, y) in direction `d`.  `Some(p)` means the scan
/// found a gap and `p` lists, from the start of the ray outward, the indices
/// of the movable entities that shift together; `None` means the chain is
/// blocked by an immovable entity or by the boundary, and nothing moves.
pub open spec fn ray_plan(s: Seq<Entity>, x: int, y: int, d: Direction, w: int, h: int) -> Option<
    Seq<int>,
>
    decreases steps_left(x, y, d, w, h),
{
    if !in_bounds(x, y, w, h) {
        None
    } else if some_movable_at(s, x, y) {
        match ray_plan(s, x + dx(d), y + dy(d), d, w, h) {
            None => None,
            Some(rest) => Some(seq![movable_idx(s, x, y)] + rest),
        }
    } else if some_immovable_at(s, x, y) {
        None
    } else {
        Some(Seq::<int>::empty())
    }
}

/// The relocation plan that `resolve` returns: the chain of the successful
/// ray walk, or the empty sequence when the walk was blocked.
pub open spec fn plan_of(s: Seq<Entity>, x: int, y: int, d: Direction, w: int, h: int) -> Seq<
    int,
> {
    match ray_plan(s, x, y, d, w, h) {
        None => Seq::<int>::empty(),
        Some(p) => p,
    }
}

/// The sequence of indices of `v`, as mathematical integers.
pub open spec fn usizes(v: Seq<usize>) -> Seq<int> {
    v.map_values(|u: usize| u as int)
}

/// Glues a finished prefix of a chain onto the walk of the remaining ray.
pub open spec fn compose_plan(pre: Seq<int>, rest: Option<Seq<int>>) -> Option<Seq<int>> {
    match rest {
        None => None,
        Some(r) => Some(pre + r),
    }
}

/// One step along direction `d` from the in-bounds cell (x, y): the next
/// cell, or `None` when the step leaves the grid.
pub fn step_cell(x: u8, y: u8, d: Direction, w: u8, h: u8) -> (r: Option<(u8, u8)>)
    requires
        x < w,
        y < h,
    ensures
        match r {
            Some(n) => n.0 as int == x + dx(d) && n.1 as int == y + dy(d) && in_bounds(
                x + dx(d),
                y + dy(d),
                w as int,
                h as int,
            ),
            None => !in_bounds(x + dx(d), y + dy(d), w as int, h as int),
        },
{
    match d {
        Direction::Up => if y == 0 {
            None
        } else {
            Some((x, y - 1))
        },
        Direction::Down => if y + 1 < h {
            Some((x, y + 1))
        } else {
            None
        },
        Direction::Left => if x == 0 {
            None
        } else {
            Some((x - 1, y))
        },
        Direction::Right => if x + 1 < w {
            Some((x + 1, y))
        } else {
            None
        },
    }
}

/// The push-chain resolver.  Walks the ray from (player_x, player_y) toward
/// the boundary in direction `direction`, over the occupancy read fresh from
/// `entities`, and returns the indices of the entities to relocate, from the
/// start of the ray outward — or an empty plan when an immovable entity or
/// the boundary blocks the chain.  For a fixed entity store and direction
/// the plan is uniquely determined.
pub fn resolve(entities: &Vec<Entity>, player_x: u8, player_y: u8, direction: Direction, width: u8,
    height: u8) -> (plan: Vec<usize>)
    requires
        crate::world::entities_unique(entities@),
    ensures
        usizes(plan@) == plan_of(
            entities@,
            player_x as int,
            player_y as int,
            direction,
            width as int,
            height as int,
        ),
        forall|k: int| 0 <= k < plan@.len() ==> (#[trigger] plan@[k]) < entities@.len(),
{
    let ghost s = entities@;
    let ghost w = width as int;
    let ghost h = height as int;
    let ghost px = player_x as int;
    let ghost py = player_y as int;
    let mut plan: Vec<usize> = Vec::new();
    if !(player_x < width && player_y < height) {
        assert(ray_plan(s, px, py, direction, w, h) is None);
        return plan;
    }
    let mut cx = player_x;
    let mut cy = player_y;
    loop
        invariant
            crate::world::entities_unique(s),
            s == entities@,
            w == width as int,
            h == height as int,
            px == player_x as int,
            py == player_y as int,
            cx < width,
            cy < height,
            forall|k: int| 0 <= k < plan@.len() ==> (#[trigger] plan@[k]) < s.len(),
            ray_plan(s, px, py, direction, w, h) == compose_plan(
                usizes(plan@),
                ray_plan(s, cx as int, cy as int, direction, w, h),
            ),
        decreases steps_left(cx as int, cy as int, direction, w, h),
    {
        match find_movable_at(entities, cx, cy) {
            Some(i) => {
                proof {
                    // Under the occupancy invariant the found index is the
                    // chosen one.
                    assert(some_movable_at(s, cx as int, cy as int));
                    let c = movable_idx(s, cx as int, cy as int);
                    assert(movable_pred(s, cx as int, cy as int, c));
                    assert(c == i as int);
                }
                let ghost old_plan = plan@;
                plan.push(i);
                proof {
                    assert(usizes(plan@) =~= usizes(old_plan).push(i as int));
                }
                match step_cell(cx, cy, direction, width, height) {
                    Some(n) => {
                        proof {
                            let rest = ray_plan(
                                s,
                                cx as int + dx(direction),
                                cy as int + dy(direction),
                                direction,
                                w,
                                h,
                            );
                            if rest is Some {
                                assert(usizes(old_plan) + (seq![i as int] + rest->Some_0)
                                    =~= usizes(plan@) + rest->Some_0);
                            }
                        }
                        cx = n.0;
                        cy = n.1;
                    },
                    None => {
                        // The ray ran off the grid with no gap: nothing
                        // moves.
                        assert(ray_plan(
                            s,
                            cx as int + dx(direction),
                            cy as int + dy(direction),
                            direction,
                            w,
                            h,
                        ) is None);
                        let empty: Vec<usize> = Vec::new();
                        return empty;
                    },
                }
            },
            None => {
                match find_immovable_at(entities, cx, cy) {
                    Some(_) => {
                        // A wall blocks the whole chain.
                        assert(ray_plan(s, cx as int, cy as int, direction, w, h) is None);
                        let empty: Vec<usize> = Vec::new();
                        return empty;
                    },
                    None => {
                        // A gap: the chain collected so far shifts.
                        proof {
                            assert(ray_plan(s, cx as int, cy as int, direction, w, h)
                                == Some(Seq::<int>::empty()));
                            assert(usizes(plan@) + Seq::<int>::empty() =~= usizes(plan@));
                        }
                        return plan;
                    },
                }
            },
        }
    }
}

} // verus!
