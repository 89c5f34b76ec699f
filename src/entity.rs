//! Entities: a handle and a set of optional attributes.

use vstd::prelude::*;
use crate::geometry::{Region, Transform};
use crate::motion::Direction;
use crate::timer::IntervalTimer;

verus! {

/// Layer of the player's side.
pub const LAYER_PLAYER: u8 = 1;

/// Layer of the enemies' side.
pub const LAYER_ENEMY: u8 = 2;

/// Most firing positions a shooter can have: a shooter holds them in a
/// fixed array, of which the first `muzzle_count` are used.
pub const MAX_MUZZLES: usize = 4;

/// What an entity is.
#[derive(Clone, Copy, Debug, PartialEq, Eq, Structural)]
pub enum Kind {
    Player,
    Enemy,
    Projectile,
    Star,
    HealthBar,
}

/// Heading and distance per tick.
#[derive(Clone, Copy, Debug, PartialEq, Eq, Structural)]
pub struct Motion {
    pub direction: Direction,
    pub speed: u32,
}

/// What layer an entity is on, and which layers it reacts to.
#[derive(Clone, Copy, Debug, PartialEq, Eq, Structural)]
pub struct PhysicsBody {
    pub self_layer_mask: u8,
    pub target_layer_mask: u8,
}

/// Hit points; the entity is destroyed once `current` is no longer positive.
#[derive(Clone, Copy, Debug, PartialEq, Eq, Structural)]
pub struct Health {
    pub max: i32,
    pub current: i32,
}

/// Time lived so far and time to live, in milliseconds.
#[derive(Clone, Copy, Debug, PartialEq, Eq, Structural)]
pub struct Lifespan {
    pub lifespan: u64,
    pub current: u64,
}

/// Offset of a firing position from the shooter's centre.
#[derive(Clone, Copy, Debug, PartialEq, Eq, Structural)]
pub struct Offset {
    pub x: i64,
    pub y: i64,
}

/// A colour to draw an entity in, one byte per channel.
#[derive(Clone, Copy, Debug, PartialEq, Eq, Structural)]
pub struct Rgb {
    pub r: u8,
    pub g: u8,
    pub b: u8,
}

/// Attributes given to each projectile a shooter fires.
#[derive(Clone, Copy, Debug, PartialEq, Eq, Structural)]
pub struct ProjectileTemplate {
    pub color: Rgb,
    pub half_w: i64,
    pub half_h: i64,
    pub direction: Direction,
    pub speed: u32,
    pub lifespan: u64,
}

/// An automatic gun: its timer, what it fires, and from where (at most
/// `MAX_MUZZLES` firing positions).
#[derive(Clone, Copy, Debug)]
pub struct Shooter {
    pub timer: IntervalTimer,
    pub projectile: ProjectileTemplate,
    pub muzzles: [Offset; MAX_MUZZLES],
    pub muzzle_count: usize,
}

/// Fill state of a health bar, in thousandths: the bar's width scale and
/// its horizontal offset from the owner's centre.
#[derive(Clone, Copy, Debug, PartialEq, Eq, Structural)]
pub struct BarFill {
    pub scale_milli: i64,
    pub offset_milli: i64,
}

/// A live entity.
#[derive(Clone, Copy, Debug)]
pub struct Entity {
    pub handle: u64,
    pub kind: Kind,
    pub color: Rgb,
    pub transform: Transform,
    pub motion: Option<Motion>,
    pub bounds: Option<Region>,
    pub body: Option<PhysicsBody>,
    pub health: Option<Health>,
    pub lifespan: Option<Lifespan>,
    pub shooter: Option<Shooter>,
    /// The entity this one belongs to and is destroyed with.
    pub parent: Option<u64>,
    pub bar: Option<BarFill>,
    /// Destroyed once it has fallen below the window.
    pub destroy_out_of_window: bool,
}

impl Shooter {
    pub open spec fn wf(self) -> bool {
        &&& self.muzzle_count <= MAX_MUZZLES
        &&& 0 < self.projectile.half_w <= crate::geometry::EXTENT_LIMIT
        &&& 0 < self.projectile.half_h <= crate::geometry::EXTENT_LIMIT
        &&& forall|i: int|
            0 <= i < MAX_MUZZLES ==> -crate::geometry::EXTENT_LIMIT <= #[trigger] self.muzzles[i].x
                <= crate::geometry::EXTENT_LIMIT && -crate::geometry::EXTENT_LIMIT
                <= self.muzzles[i].y <= crate::geometry::EXTENT_LIMIT
    }
}

impl Entity {
    pub open spec fn wf(self) -> bool {
        &&& self.transform.wf()
        &&& (self.bounds matches Some(r) ==> r.wf())
        &&& (self.health matches Some(h) ==> 0 < h.max && h.current <= h.max)
        &&& (self.shooter matches Some(s) ==> s.wf())
    }
}

} // verus!
