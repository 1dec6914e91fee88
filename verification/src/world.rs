//! The entity store: a fixed-size grid plus an arena of entities, together
//! with the session resources, passed explicitly to every system.

use vstd::prelude::*;

use crate::components::{Entity, Position, Renderable, Sprite, Wall, Player, Box, BoxSpot, Movable,
    Immovable, floor_entity, wall_entity, player_entity, box_entity, box_spot_entity};
use crate::resources::{Gameplay, GameplayState, InputQueue};

verus! {

/// Index `i` holds a movable entity sitting on cell (x, y).
pub open spec fn movable_pred(s: Seq<Entity>, x: int, y: int, i: int) -> bool {
    0 <= i < s.len() && s[i].is_movable() && s[i].at(x, y)
}

/// Index `i` holds an immovable entity sitting on cell (x, y).
pub open spec fn immovable_pred(s: Seq<Entity>, x: int, y: int, i: int) -> bool {
    0 <= i < s.len() && s[i].is_immovable() && s[i].at(x, y)
}

/// Some movable entity sits on cell (x, y).
pub open spec fn some_movable_at(s: Seq<Entity>, x: int, y: int) -> bool {
    exists|i: int| movable_pred(s, x, y, i)
}

/// Some immovable entity sits on cell (x, y).
pub open spec fn some_immovable_at(s: Seq<Entity>, x: int, y: int) -> bool {
    exists|i: int| immovable_pred(s, x, y, i)
}

/// The index of the movable entity on cell (x, y).  Under
/// [`entities_unique`] there is at most one, so the index is determined.
pub open spec fn movable_idx(s: Seq<Entity>, x: int, y: int) -> int {
    choose|i: int| movable_pred(s, x, y, i)
}

/// The occupancy invariant: at most one movable-or-immovable entity sits on
/// any given cell.
pub open spec fn entities_unique(s: Seq<Entity>) -> bool {
    forall|i: int, j: int|
        0 <= i < s.len() && 0 <= j < s.len() && i != j && (#[trigger] s[i]).blocking() && (
        #[trigger] s[j]).blocking() ==> !(s[i].position.x == s[j].position.x && s[i].position.y
            == s[j].position.y)
}

/// The world: grid bounds, the entity arena, and the session resources.
/// Entities are created during level load and never destroyed; only their
/// positions mutate.
pub struct World {
    pub width: u8,
    pub height: u8,
    pub entities: Vec<Entity>,
    pub input_queue: InputQueue,
    pub gameplay: Gameplay,
}

impl World {
    /// The occupancy invariant, which every tick preserves (with a single
    /// player; see the laws module).
    pub open spec fn wf(self) -> bool {
        entities_unique(self.entities@)
    }

    /// An empty world over a `width` x `height` grid, with an empty input
    /// queue and a fresh session.
    pub fn new(width: u8, height: u8) -> (w: World)
        ensures
            w.width == width,
            w.height == height,
            w.entities@ == Seq::<Entity>::empty(),
            w.input_queue.keys_pressed@ == Seq::<crate::components::Direction>::empty(),
            w.gameplay.state is Playing,
            w.gameplay.moves_count == 0,
            w.wf(),
    {
        World {
            width,
            height,
            entities: Vec::new(),
            input_queue: InputQueue { keys_pressed: Vec::new() },
            gameplay: Gameplay { state: GameplayState::Playing, moves_count: 0 },
        }
    }
}

/// Appends a wall entity at the cell of `position` (the z-layer is fixed by
/// the entity kind, not taken from the argument).
pub fn create_wall(world: &mut World, position: Position)
    ensures
        final(world).entities@ == old(world).entities@.push(wall_entity(position.x, position.y)),
        final(world).width == old(world).width,
        final(world).height == old(world).height,
        final(world).input_queue == old(world).input_queue,
        final(world).gameplay == old(world).gameplay,
{
    let e = Entity {
        position: Position { x: position.x, y: position.y, z: 10 },
        renderable: Renderable { sprite: Sprite::Wall },
        wall: Some(Wall {}),
        player: None,
        box_tag: None,
        box_spot: None,
        movable: None,
        immovable: Some(Immovable),
    };
    world.entities.push(e);
}

/// Appends a floor entity at the cell of `position`.
pub fn create_floor(world: &mut World, position: Position)
    ensures
        final(world).entities@ == old(world).entities@.push(floor_entity(position.x, position.y)),
        final(world).width == old(world).width,
        final(world).height == old(world).height,
        final(world).input_queue == old(world).input_queue,
        final(world).gameplay == old(world).gameplay,
{
    let e = Entity {
        position: Position { x: position.x, y: position.y, z: 5 },
        renderable: Renderable { sprite: Sprite::Floor },
        wall: None,
        player: None,
        box_tag: None,
        box_spot: None,
        movable: None,
        immovable: None,
    };
    world.entities.push(e);
}

/// Appends a pushable block entity at the cell of `position`.
pub fn create_box(world: &mut World, position: Position)
    ensures
        final(world).entities@ == old(world).entities@.push(box_entity(position.x, position.y)),
        final(world).width == old(world).width,
        final(world).height == old(world).height,
        final(world).input_queue == old(world).input_queue,
        final(world).gameplay == old(world).gameplay,
{
    let e = Entity {
        position: Position { x: position.x, y: position.y, z: 10 },
        renderable: Renderable { sprite: Sprite::BoxBlock },
        wall: None,
        player: None,
        box_tag: Some(Box {}),
        box_spot: None,
        movable: Some(Movable),
        immovable: None,
    };
    world.entities.push(e);
}

/// Appends a scoring-target marker entity at the cell of `position`.
pub fn create_box_spot(world: &mut World, position: Position)
    ensures
        final(world).entities@ == old(world).entities@.push(
            box_spot_entity(position.x, position.y),
        ),
        final(world).width == old(world).width,
        final(world).height == old(world).height,
        final(world).input_queue == old(world).input_queue,
        final(world).gameplay == old(world).gameplay,
{
    let e = Entity {
        position: Position { x: position.x, y: position.y, z: 9 },
        renderable: Renderable { sprite: Sprite::BoxSpot },
        wall: None,
        player: None,
        box_tag: None,
        box_spot: Some(BoxSpot {}),
        movable: None,
        immovable: None,
    };
    world.entities.push(e);
}

/// Appends the player entity at the cell of `position`.
pub fn create_player(world: &mut World, position: Position)
    ensures
        final(world).entities@ == old(world).entities@.push(player_entity(position.x, position.y)),
        final(world).width == old(world).width,
        final(world).height == old(world).height,
        final(world).input_queue == old(world).input_queue,
        final(world).gameplay == old(world).gameplay,
{
    let e = Entity {
        position: Position { x: position.x, y: position.y, z: 10 },
        renderable: Renderable { sprite: Sprite::Player },
        wall: None,
        player: Some(Player {}),
        box_tag: None,
        box_spot: None,
        movable: Some(Movable),
        immovable: None,
    };
    world.entities.push(e);
}

/// The lowest index of a movable entity on cell (x, y), if any.
pub fn find_movable_at(entities: &Vec<Entity>, x: u8, y: u8) -> (r: Option<usize>)
    ensures
        match r {
            Some(i) => movable_pred(entities@, x as int, y as int, i as int) && (forall|j: int|
                0 <= j < i ==> !movable_pred(entities@, x as int, y as int, j)),
            None => !some_movable_at(entities@, x as int, y as int),
        },
{
    let mut i: usize = 0;
    while i < entities.len()
        invariant
            0 <= i <= entities@.len(),
            forall|j: int| 0 <= j < i ==> !movable_pred(entities@, x as int, y as int, j),
        decreases entities@.len() - i,
    {
        let e = &entities[i];
        if e.movable.is_some() && e.position.x == x && e.position.y == y {
            return Some(i);
        }
        i = i + 1;
    }
    None
}

/// The lowest index of an immovable entity on cell (x, y), if any.
pub fn find_immovable_at(entities: &Vec<Entity>, x: u8, y: u8) -> (r: Option<usize>)
    ensures
        match r {
            Some(i) => immovable_pred(entities@, x as int, y as int, i as int) && (forall|j: int|
                0 <= j < i ==> !immovable_pred(entities@, x as int, y as int, j)),
            None => !some_immovable_at(entities@, x as int, y as int),
        },
{
    let mut i: usize = 0;
    while i < entities.len()
        invariant
            0 <= i <= entities@.len(),
            forall|j: int| 0 <= j < i ==> !immovable_pred(entities@, x as int, y as int, j),
        decreases entities@.len() - i,
    {
        let e = &entities[i];
        if e.immovable.is_some() && e.position.x == x && e.position.y == y {
            return Some(i);
        }
        i = i + 1;
    }
    None
}

impl World {
    /// Decides the occupancy invariant, so that an unverified host can test
    /// it before handing the world to the turn controller.
    pub fn wf_check(&self) -> (b: bool)
        ensures
            b == self.wf(),
    {
        let n = self.entities.len();
        let mut i: usize = 0;
        while i < n
            invariant
                n == self.entities@.len(),
                0 <= i <= n,
                forall|p: int, q: int|
                    0 <= p < i && 0 <= q < n && p != q && (#[trigger] self.entities@[p]).blocking()
                        && (#[trigger] self.entities@[q]).blocking() ==> !(
                    self.entities@[p].position.x == self.entities@[q].position.x
                        && self.entities@[p].position.y == self.entities@[q].position.y),
            decreases n - i,
        {
            let ei = self.entities[i];
            if ei.movable.is_some() || ei.immovable.is_some() {
                let mut j: usize = 0;
                while j < n
                    invariant
                        n == self.entities@.len(),
                        0 <= i < n,
                        0 <= j <= n,
                        ei == self.entities@[i as int],
                        ei.blocking(),
                        forall|q: int|
                            0 <= q < j && q != i && (#[trigger] self.entities@[q]).blocking() ==> !(
                            ei.position.x == self.entities@[q].position.x && ei.position.y
                                == self.entities@[q].position.y),
                    decreases n - j,
                {
                    if j != i {
                        let ej = self.entities[j];
                        if (ej.movable.is_some() || ej.immovable.is_some()) && ej.position.x
                            == ei.position.x && ej.position.y == ei.position.y {
                            return false;
                        }
                    }
                    j = j + 1;
                }
            }
            i = i + 1;
        }
        true
    }
}

} // verus!
