//! The entities the game creates, and the timed spawners that create them.

use vstd::prelude::*;
use crate::entity::{
    BarFill, Rgb, Entity, Health, Kind, Motion, Offset, PhysicsBody, ProjectileTemplate, Shooter,
    LAYER_ENEMY, LAYER_PLAYER,
};
use crate::geometry::{Region, Transform};
use crate::motion::Direction;
use crate::timer::IntervalTimer;
use crate::world::{lemma_push_entity, owner_alive, Window, World};

verus! {

/// Milliseconds between two enemies.
pub const ENEMY_SPAWN_INTERVAL: u64 = 5000;

/// Milliseconds between two showers of stars.
pub const STAR_SPAWN_INTERVAL: u64 = 500;

/// Milliseconds between two shots of the player.
pub const PLAYER_SHOOT_INTERVAL: u64 = 750;

/// Half the side of the player's and the enemies' squares.
pub const SHIP_HALF: i64 = 3000;

/// Hit points of a new enemy.
pub const ENEMY_HEALTH: i32 = 5;

/// Fewest and most stars in one shower.
pub const STARS_MIN: i64 = 10;
pub const STARS_MAX: i64 = 25;

/// Relies on rand's `thread_rng().gen_range(lo..=hi)`: a value drawn from
/// the inclusive range, which is not empty here (`gen_range` panics on an
/// empty one).
#[verifier::external_body]
pub(crate) fn random_between(lo: i64, hi: i64) -> (r: i64)
    requires
        lo <= hi,
    ensures
        lo <= r <= hi,
{
    rand::Rng::gen_range(&mut rand::thread_rng(), lo..=hi)
}

/// The player's ship: bounded by the window, aiming up, firing two
/// projectiles every `PLAYER_SHOOT_INTERVAL` milliseconds.
pub open spec fn player_spec(w: Window, handle: u64) -> Entity {
    Entity {
        handle,
        kind: Kind::Player,
        color: Rgb { r: 51, g: 26, b: 166 },
        transform: Transform { x: 0, y: 0, z: 2, half_w: SHIP_HALF, half_h: SHIP_HALF },
        motion: Some(Motion { direction: Direction { x: 0, y: 1 }, speed: 1000 }),
        bounds: Some(Region { x: (-(w.width / 2)) as i64, y: (-(w.height / 2)) as i64, width: w.width, height: w.height }),
        body: Some(PhysicsBody { self_layer_mask: LAYER_PLAYER, target_layer_mask: LAYER_ENEMY }),
        health: None,
        lifespan: None,
        shooter: Some(Shooter {
            timer: IntervalTimer { interval: PLAYER_SHOOT_INTERVAL, current: 0 },
            projectile: ProjectileTemplate {
                color: Rgb { r: 0, g: 255, b: 0 },
                half_w: 200,
                half_h: 600,
                direction: Direction { x: 0, y: 1 },
                speed: 1200,
                lifespan: 2000,
            },
            muzzles: [
                Offset { x: 2800, y: 3200 },
                Offset { x: -2800i64, y: 3200 },
                Offset { x: 0, y: 0 },
                Offset { x: 0, y: 0 },
            ],
            muzzle_count: 2,
        }),
        parent: None,
        bar: None,
        destroy_out_of_window: false,
    }
}

/// Builds the player's ship for a window.
pub fn spawn_player(w: Window, handle: u64) -> (e: Entity)
    requires
        w.wf(),
    ensures
        e == player_spec(w, handle),
        e.wf(),
{
    Entity {
        handle,
        kind: Kind::Player,
        color: Rgb { r: 51, g: 26, b: 166 },
        transform: Transform { x: 0, y: 0, z: 2, half_w: SHIP_HALF, half_h: SHIP_HALF },
        motion: Some(Motion { direction: Direction { x: 0, y: 1 }, speed: 1000 }),
        bounds: Some(Region { x: -(w.width / 2), y: -(w.height / 2), width: w.width, height: w.height }),
        body: Some(PhysicsBody { self_layer_mask: LAYER_PLAYER, target_layer_mask: LAYER_ENEMY }),
        health: None,
        lifespan: None,
        shooter: Some(Shooter {
            timer: IntervalTimer { interval: PLAYER_SHOOT_INTERVAL, current: 0 },
            projectile: ProjectileTemplate {
                color: Rgb { r: 0, g: 255, b: 0 },
                half_w: 200,
                half_h: 600,
                direction: Direction { x: 0, y: 1 },
                speed: 1200,
                lifespan: 2000,
            },
            muzzles: [
                Offset { x: 2800, y: 3200 },
                Offset { x: -2800, y: 3200 },
                Offset { x: 0, y: 0 },
                Offset { x: 0, y: 0 },
            ],
            muzzle_count: 2,
        }),
        parent: None,
        bar: None,
        destroy_out_of_window: false,
    }
}

/// An enemy at `(x, y)`: it falls slowly, may roam a region twice the
/// window's height that reaches above it, and goes once below the window.
pub open spec fn enemy_spec(w: Window, x: i64, y: i64, handle: u64) -> Entity {
    Entity {
        handle,
        kind: Kind::Enemy,
        color: Rgb { r: 102, g: 26, b: 153 },
        transform: Transform { x, y, z: 1, half_w: SHIP_HALF, half_h: SHIP_HALF },
        motion: Some(Motion { direction: Direction { x: 0, y: -1i32 }, speed: 250 }),
        bounds: Some(Region { x: (-(w.width / 2)) as i64, y: (-w.height) as i64, width: w.width, height: (2 * w.height) as i64 }),
        body: Some(PhysicsBody { self_layer_mask: LAYER_ENEMY, target_layer_mask: LAYER_PLAYER }),
        health: Some(Health { max: ENEMY_HEALTH, current: ENEMY_HEALTH }),
        lifespan: None,
        shooter: None,
        parent: None,
        bar: None,
        destroy_out_of_window: true,
    }
}

/// The health bar of the entity `owner`, full. Its transform is relative
/// to the owner, in thousandths of the owner's size.
pub open spec fn bar_spec(owner: u64, handle: u64) -> Entity {
    Entity {
        handle,
        kind: Kind::HealthBar,
        color: Rgb { r: 255, g: 0, b: 0 },
        transform: Transform { x: 0, y: 600, z: 1, half_w: 500, half_h: 50 },
        motion: None,
        bounds: None,
        body: None,
        health: None,
        lifespan: None,
        shooter: None,
        parent: Some(owner),
        bar: Some(BarFill { scale_milli: 1000, offset_milli: 0 }),
        destroy_out_of_window: false,
    }
}

/// A star of side `size` at `(x, y)`, falling at `base * size / 500`
/// per tick (larger stars fall faster). Stars are decoration, yet they are
/// marked to go once below the window, as enemies are, so that showers do
/// not pile up below the screen forever.
pub open spec fn star_spec(x: i64, y: i64, size: i64, base: u32, handle: u64) -> Entity {
    let v = base * size / 500;
    Entity {
        handle,
        kind: Kind::Star,
        color: Rgb { r: 255, g: 255, b: 255 },
        transform: Transform { x, y, z: 1, half_w: (size / 2) as i64, half_h: (size / 2) as i64 },
        motion: Some(Motion { direction: Direction { x: 0, y: -1i32 }, speed: if v > u32::MAX { u32::MAX } else { v as u32 } }),
        bounds: None,
        body: None,
        health: None,
        lifespan: None,
        shooter: None,
        parent: None,
        bar: None,
        destroy_out_of_window: true,
    }
}

impl World {
    /// A world holding the player alone, with spawner timers at zero.
    pub fn new(w: Window) -> (r: World)
        requires
            w.wf(),
        ensures
            r.wf(),
            r.entities@ == seq![player_spec(w, 0)],
            r.contacts@.len() == 0,
            r.next_handle == 1,
            r.enemy_timer == (IntervalTimer { interval: ENEMY_SPAWN_INTERVAL, current: 0 }),
            r.star_timer == (IntervalTimer { interval: STAR_SPAWN_INTERVAL, current: 0 }),
    {
        let mut entities: Vec<Entity> = Vec::new();
        entities.push(spawn_player(w, 0));
        let r = World {
            entities,
            contacts: Vec::new(),
            next_handle: 1,
            enemy_timer: IntervalTimer::new(ENEMY_SPAWN_INTERVAL),
            star_timer: IntervalTimer::new(STAR_SPAWN_INTERVAL),
        };
        proof {
            lemma_push_entity(seq![], player_spec(w, 0), 0, 1);
            assert(seq![].push(player_spec(w, 0)) =~= r.entities@);
        }
        r
    }

    /// Adds an enemy at `(x, y)` and its health bar, with the next two
    /// handles; adds nothing once handles run out.
    pub fn spawn_enemy(&mut self, w: Window, x: i64, y: i64)
        requires
            old(self).wf(),
            w.wf(),
            -crate::geometry::POS_LIMIT <= x <= crate::geometry::POS_LIMIT,
            -crate::geometry::POS_LIMIT <= y <= crate::geometry::POS_LIMIT,
        ensures
            final(self).wf(),
            final(self).contacts == old(self).contacts,
            final(self).enemy_timer == old(self).enemy_timer,
            final(self).star_timer == old(self).star_timer,
            old(self).next_handle < u64::MAX - 1 ==> final(self).entities@ == old(self).entities@.push(
                enemy_spec(w, x, y, old(self).next_handle),
            ).push(bar_spec(old(self).next_handle, (old(self).next_handle + 1) as u64))
                && final(self).next_handle == old(self).next_handle + 2,
            old(self).next_handle >= u64::MAX - 1 ==> final(self).entities@ == old(self).entities@
                && final(self).next_handle == old(self).next_handle,
    {
        if self.next_handle >= u64::MAX - 1 {
            return;
        }
        let h = self.next_handle;
        let enemy = Entity {
            handle: h,
            kind: Kind::Enemy,
            color: Rgb { r: 102, g: 26, b: 153 },
            transform: Transform { x, y, z: 1, half_w: SHIP_HALF, half_h: SHIP_HALF },
            motion: Some(Motion { direction: Direction { x: 0, y: -1 }, speed: 250 }),
            bounds: Some(Region { x: -(w.width / 2), y: -w.height, width: w.width, height: 2 * w.height }),
            body: Some(PhysicsBody { self_layer_mask: LAYER_ENEMY, target_layer_mask: LAYER_PLAYER }),
            health: Some(Health { max: ENEMY_HEALTH, current: ENEMY_HEALTH }),
            lifespan: None,
            shooter: None,
            parent: None,
            bar: None,
            destroy_out_of_window: true,
        };
        let bar = Entity {
            handle: h + 1,
            kind: Kind::HealthBar,
            color: Rgb { r: 255, g: 0, b: 0 },
            transform: Transform { x: 0, y: 600, z: 1, half_w: 500, half_h: 50 },
            motion: None,
            bounds: None,
            body: None,
            health: None,
            lifespan: None,
            shooter: None,
            parent: Some(h),
            bar: Some(BarFill { scale_milli: 1000, offset_milli: 0 }),
            destroy_out_of_window: false,
        };
        let ghost s0 = self.entities@;
        self.entities.push(enemy);
        proof {
            lemma_push_entity(s0, enemy, h, (h + 2) as u64);
            let s1 = s0.push(enemy);
            assert(s1[s0.len() as int] == enemy);
            assert(owner_alive(s1, h));
            lemma_push_entity(s1, bar, (h + 2) as u64, (h + 2) as u64);
        }
        self.entities.push(bar);
        self.next_handle = h + 2;
    }

    /// Adds a star with the next handle; adds nothing once handles run out.
    pub fn spawn_star(&mut self, x: i64, y: i64, size: i64, base: u32)
        requires
            old(self).wf(),
            -crate::geometry::POS_LIMIT <= x <= crate::geometry::POS_LIMIT,
            -crate::geometry::POS_LIMIT <= y <= crate::geometry::POS_LIMIT,
            2 <= size <= crate::geometry::EXTENT_LIMIT,
        ensures
            final(self).wf(),
            final(self).contacts == old(self).contacts,
            final(self).enemy_timer == old(self).enemy_timer,
            final(self).star_timer == old(self).star_timer,
            old(self).next_handle < u64::MAX ==> final(self).entities@ == old(self).entities@.push(
                star_spec(x, y, size, base, old(self).next_handle),
            ) && final(self).next_handle == old(self).next_handle + 1,
            old(self).next_handle == u64::MAX ==> final(self).entities@ == old(self).entities@
                && final(self).next_handle == old(self).next_handle,
    {
        if self.next_handle == u64::MAX {
            return;
        }
        let h = self.next_handle;
        assert(base * size <= 0xffff_ffff * 1_099_511_627_776) by (nonlinear_arith)
            requires base <= 0xffff_ffff, 0 <= size <= 1_099_511_627_776;
        let v: u128 = base as u128 * size as u128 / 500;
        let speed: u32 = if v > u32::MAX as u128 { u32::MAX } else { v as u32 };
        let star = Entity {
            handle: h,
            kind: Kind::Star,
            color: Rgb { r: 255, g: 255, b: 255 },
            transform: Transform { x, y, z: 1, half_w: size / 2, half_h: size / 2 },
            motion: Some(Motion { direction: Direction { x: 0, y: -1 }, speed }),
            bounds: None,
            body: None,
            health: None,
            lifespan: None,
            shooter: None,
            parent: None,
            bar: None,
            destroy_out_of_window: true,
        };
        proof {
            lemma_push_entity(self.entities@, star, h, (h + 1) as u64);
        }
        self.entities.push(star);
        self.next_handle = h + 1;
    }
}

} // verus!
