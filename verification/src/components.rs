//! The data model: grid coordinates, capability tags and entities.
//!
//! An entity is a record holding a position plus a set of optional capability
//! tags.  At most one of the tags `Movable` / `Immovable` is ever set on an
//! entity that takes part in movement resolution; floors and scoring targets
//! carry neither and never block or get displaced.

use vstd::prelude::*;

verus! {

/// A grid coordinate, 0-indexed, together with the z-layer that the
/// presentation uses to order sprites.  The z-layer is irrelevant to
/// movement resolution.
#[derive(Clone, Copy, PartialEq, Eq, Structural, Debug, Hash)]
pub struct Position {
    pub x: u8,
    pub y: u8,
    pub z: u8,
}

/// Which sprite a presentation layer should draw for an entity.
#[derive(Clone, Copy, PartialEq, Eq, Structural, Debug)]
pub enum Sprite {
    Floor,
    Wall,
    Player,
    BoxBlock,
    BoxSpot,
}

/// The render hint carried by every entity: a reference to a sprite.
#[derive(Clone, Copy, PartialEq, Eq, Structural, Debug)]
pub struct Renderable {
    pub sprite: Sprite,
}

/// The sprite-file path belonging to each sprite reference.
pub open spec fn sprite_path(s: Sprite) -> Seq<char> {
    match s {
        Sprite::Floor => "/images/floor.png"@,
        Sprite::Wall => "/images/wall.png"@,
        Sprite::Player => "/images/player.png"@,
        Sprite::BoxBlock => "/images/box.png"@,
        Sprite::BoxSpot => "/images/box_spot.png"@,
    }
}

impl Renderable {
    /// The path of the image file to draw for this sprite reference.
    pub fn path(&self) -> (p: String)
        ensures
            p@ == sprite_path(self.sprite),
    {
        match self.sprite {
            Sprite::Floor => "/images/floor.png".to_owned(),
            Sprite::Wall => "/images/wall.png".to_owned(),
            Sprite::Player => "/images/player.png".to_owned(),
            Sprite::BoxBlock => "/images/box.png".to_owned(),
            Sprite::BoxSpot => "/images/box_spot.png".to_owned(),
        }
    }
}

/// Tag of a wall entity.
#[derive(Clone, Copy, PartialEq, Eq, Structural, Debug)]
pub struct Wall {}

/// Tag of the player entity.
#[derive(Clone, Copy, PartialEq, Eq, Structural, Debug)]
pub struct Player {}

/// Tag of a pushable block entity.
#[derive(Clone, Copy, PartialEq, Eq, Structural, Debug)]
pub struct Box {}

/// Tag of a scoring-target cell marker.
#[derive(Clone, Copy, PartialEq, Eq, Structural, Debug)]
pub struct BoxSpot {}

/// Capability tag: the entity relocates when pushed.
#[derive(Clone, Copy, PartialEq, Eq, Structural, Debug, Default)]
pub struct Movable;

/// Capability tag: the entity always blocks a chain and never relocates.
#[derive(Clone, Copy, PartialEq, Eq, Structural, Debug, Default)]
pub struct Immovable;

/// One directional command.
#[derive(Clone, Copy, PartialEq, Eq, Structural, Debug)]
pub enum Direction {
    Up,
    Down,
    Left,
    Right,
}

/// An entity of the store: a position, a render hint, and the capability
/// tags it carries.
#[derive(Clone, Copy, PartialEq, Eq, Structural, Debug)]
pub struct Entity {
    pub position: Position,
    pub renderable: Renderable,
    pub wall: Option<Wall>,
    pub player: Option<Player>,
    pub box_tag: Option<Box>,
    pub box_spot: Option<BoxSpot>,
    pub movable: Option<Movable>,
    pub immovable: Option<Immovable>,
}

impl Entity {
    /// The entity relocates when pushed.
    pub open spec fn is_movable(self) -> bool {
        self.movable is Some
    }

    /// The entity always blocks a chain.
    pub open spec fn is_immovable(self) -> bool {
        self.immovable is Some
    }

    /// The entity takes part in occupancy: it is movable or immovable.
    pub open spec fn blocking(self) -> bool {
        self.is_movable() || self.is_immovable()
    }

    /// The entity is the player token.
    pub open spec fn is_player(self) -> bool {
        self.player is Some
    }

    /// The entity marks a scoring-target cell.
    pub open spec fn is_target(self) -> bool {
        self.box_spot is Some
    }

    /// The entity sits on the cell (x, y).
    pub open spec fn at(self, x: int, y: int) -> bool {
        self.position.x == x && self.position.y == y
    }
}

/// A floor tile at (x, y): never blocks, never moves.
pub open spec fn floor_entity(x: u8, y: u8) -> Entity {
    Entity {
        position: Position { x: x, y: y, z: 5 },
        renderable: Renderable { sprite: Sprite::Floor },
        wall: None,
        player: None,
        box_tag: None,
        box_spot: None,
        movable: None,
        immovable: None,
    }
}

/// A wall at (x, y): immovable.
pub open spec fn wall_entity(x: u8, y: u8) -> Entity {
    Entity {
        position: Position { x: x, y: y, z: 10 },
        renderable: Renderable { sprite: Sprite::Wall },
        wall: Some(Wall {}),
        player: None,
        box_tag: None,
        box_spot: None,
        movable: None,
        immovable: Some(Immovable),
    }
}

/// The player at (x, y): movable for push purposes, uniquely tagged.
pub open spec fn player_entity(x: u8, y: u8) -> Entity {
    Entity {
        position: Position { x: x, y: y, z: 10 },
        renderable: Renderable { sprite: Sprite::Player },
        wall: None,
        player: Some(Player {}),
        box_tag: None,
        box_spot: None,
        movable: Some(Movable),
        immovable: None,
    }
}

/// A pushable block at (x, y): movable.
pub open spec fn box_entity(x: u8, y: u8) -> Entity {
    Entity {
        position: Position { x: x, y: y, z: 10 },
        renderable: Renderable { sprite: Sprite::BoxBlock },
        wall: None,
        player: None,
        box_tag: Some(Box {}),
        box_spot: None,
        movable: Some(Movable),
        immovable: None,
    }
}

/// A scoring-target marker at (x, y): never blocks, never moves.
pub open spec fn box_spot_entity(x: u8, y: u8) -> Entity {
    Entity {
        position: Position { x: x, y: y, z: 9 },
        renderable: Renderable { sprite: Sprite::BoxSpot },
        wall: None,
        player: None,
        box_tag: None,
        box_spot: Some(BoxSpot {}),
        movable: None,
        immovable: None,
    }
}

} // verus!
