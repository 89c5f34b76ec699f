//! The timed spawners, which draw random positions, and the frame driver
//! that runs every system once per tick in a fixed order.

use vstd::prelude::*;
use crate::collision::{detect_collisions, entered, kept, record_contacts, scan_pairs, Pair};
use crate::entity::Entity;
use crate::spawn::{enemy_spec, star_spec, random_between, SHIP_HALF, STARS_MAX, STARS_MIN};
use crate::timer::IntervalTimer;
use crate::lifecycle::{dead, fallen, react_all, synced};
use crate::shooting::{rearmed, volleys};
use crate::world::{aged, expired, key_direction, locked, moved, steered, survivors, Keys, Window, World};

verus! {

/// Where a new enemy may appear: across the window, its square inside the
/// window's sides, between one and two squares above the window's top.
pub open spec fn in_enemy_zone(w: Window, x: i64, y: i64) -> bool {
    let lo = -(w.width / 2) + SHIP_HALF;
    let hi = w.width / 2 - SHIP_HALF - 1;
    &&& (if lo <= hi { lo <= x <= hi } else { x == 0 })
    &&& w.height / 2 + 2 * SHIP_HALF <= y <= w.height / 2 + 4 * SHIP_HALF
}

/// `e` is a star that could appear in a shower over window `w`: anywhere
/// across the window, up to a hundred pixels above its top, two to five
/// pixels wide, with a base speed of two to eight pixels per tick.
pub open spec fn is_shower_star(w: Window, e: Entity) -> bool {
    exists|x: i64, y: i64, size: i64, base: u32|
        #![trigger star_spec(x, y, size, base, e.handle)]
        -(w.width / 2) <= x <= w.width / 2 && w.height / 2 + 2000 <= y < w.height / 2 + 10000 && 200
            <= size <= 500 && 200 <= base <= 800 && e == star_spec(x, y, size, base, e.handle)
}

pub open spec fn advanced(t: IntervalTimer, delta: u64) -> IntervalTimer {
    IntervalTimer {
        current: if t.current + delta >= t.interval { 0 } else { (t.current + delta) as u64 },
        ..t
    }
}


/// `b` is `a` after the players were steered by `keys`.
pub open spec fn input_step(a: World, b: World, keys: Keys) -> bool {
    &&& b.same_rest(a)
    &&& b.entities@ == a.entities@.map_values(|e: Entity| steered(e, key_direction(keys)))
}

/// `b` is `a` after one step of movement.
pub open spec fn move_step(a: World, b: World) -> bool {
    &&& b.same_rest(a)
    &&& b.entities@.len() == a.entities@.len()
    &&& forall|i: int| 0 <= i < a.entities@.len() ==> moved(#[trigger] a.entities@[i], b.entities@[i])
}

/// `b` is `a` after every bounded entity was snapped into its region.
pub open spec fn bounds_step(a: World, b: World) -> bool {
    &&& b.same_rest(a)
    &&& b.entities@ == a.entities@.map_values(|e: Entity| locked(e))
}

/// `b` is `a` after the shooters' timers advanced and their volleys were added.
pub open spec fn shoot_step(a: World, b: World, delta: u64) -> bool {
    &&& b.contacts == a.contacts
    &&& b.enemy_timer == a.enemy_timer
    &&& b.star_timer == a.star_timer
    &&& b.entities@ == a.entities@.map_values(|e: Entity| rearmed(e, delta)) + volleys(
        a.entities@,
        delta,
        a.next_handle as int,
    )
    &&& b.next_handle == a.next_handle + volleys(a.entities@, delta, a.next_handle as int).len()
}

/// `b` is `a` after the enemy spawner ran: whatever places were drawn, an
/// enemy and its bar appear exactly when the timer fires (and handles are
/// left), in the spawning zone.
pub open spec fn enemy_spawn_step(a: World, b: World, delta: u64, window: Option<Window>) -> bool {
    &&& b.contacts == a.contacts
    &&& b.star_timer == a.star_timer
    &&& window is None ==> b.entities@ == a.entities@ && b.next_handle == a.next_handle
        && b.enemy_timer == a.enemy_timer
    &&& window matches Some(w) ==> b.enemy_timer == advanced(a.enemy_timer, delta)
    &&& window matches Some(w) ==> {
        if a.enemy_timer.current + delta >= a.enemy_timer.interval && a.next_handle < u64::MAX - 1 {
            exists|x: i64, y: i64|
                #![trigger enemy_spec(w, x, y, a.next_handle)]
                in_enemy_zone(w, x, y) && b.entities@ == a.entities@.push(
                    enemy_spec(w, x, y, a.next_handle),
                ).push(crate::spawn::bar_spec(a.next_handle, (a.next_handle + 1) as u64))
                    && b.next_handle == a.next_handle + 2
        } else {
            b.entities@ == a.entities@ && b.next_handle == a.next_handle
        }
    }
}

/// `b` is `a` after the star spawner ran: whatever was drawn, a shower of
/// stars with fresh handles appears exactly when the timer fires.
pub open spec fn star_spawn_step(a: World, b: World, delta: u64, window: Option<Window>) -> bool {
    &&& b.contacts == a.contacts
    &&& b.enemy_timer == a.enemy_timer
    &&& window is None ==> b.entities@ == a.entities@ && b.next_handle == a.next_handle
        && b.star_timer == a.star_timer
    &&& window matches Some(w) ==> b.star_timer == advanced(a.star_timer, delta)
    &&& b.entities@.len() >= a.entities@.len()
    &&& window matches Some(w) ==> b.entities@.subrange(0, a.entities@.len() as int) == a.entities@
    &&& window matches Some(w) ==> b.entities@.len() - a.entities@.len() == b.next_handle
        - a.next_handle
    &&& window matches Some(w) ==> b.entities@.len() <= a.entities@.len() + STARS_MAX
    &&& window matches Some(w) ==> forall|k: int|
        a.entities@.len() <= k < b.entities@.len() ==> is_shower_star(w, #[trigger] b.entities@[k])
            && b.entities@[k].handle == a.next_handle + (k - a.entities@.len())
    &&& (window is Some && a.star_timer.current + delta >= a.star_timer.interval
        && a.next_handle <= u64::MAX - STARS_MAX ==> b.entities@.len() >= a.entities@.len()
        + STARS_MIN)
    &&& (window is Some && a.star_timer.current + delta < a.star_timer.interval
        ==> b.entities@ == a.entities@ && b.next_handle == a.next_handle)
}

/// `b` is `a` after collision detection: `events` are the pairs that
/// interact now and were not in contact, and the contacts become the kept
/// ones followed by the new ones.
pub open spec fn collide_step(a: World, b: World, events: Seq<Pair>) -> bool {
    let pairs = scan_pairs(a.entities@, a.entities@.len() as int);
    &&& b.entities == a.entities
    &&& b.next_handle == a.next_handle
    &&& b.enemy_timer == a.enemy_timer
    &&& b.star_timer == a.star_timer
    &&& events == entered(pairs, a.contacts@)
    &&& b.contacts@ == kept(a.contacts@, pairs) + events
}

/// `b` is `a` after the reactions to `events`; `hurt` are the handles
/// whose health changed.
pub open spec fn react_step(a: World, b: World, events: Seq<Pair>, hurt: Seq<u64>) -> bool {
    let r = react_all((a.entities@, seq![], seq![]), events);
    &&& b.same_rest(a)
    &&& b.entities@ == survivors(r.0, r.1)
    &&& hurt == r.2
}

/// `b` is `a` after lifespans advanced by `delta` and the expired went.
pub open spec fn lifespan_step(a: World, b: World, delta: u64) -> bool {
    let aged_all = a.entities@.map_values(|e: Entity| aged(e, delta));
    &&& b.same_rest(a)
    &&& b.entities@ == survivors(aged_all, expired(aged_all))
}

/// `b` is `a` after those fallen below the window went; nothing happens
/// without a window.
pub open spec fn out_of_window_step(a: World, b: World, window: Option<Window>) -> bool {
    &&& b.same_rest(a)
    &&& match window {
        Some(w) => b.entities@ == survivors(a.entities@, fallen(a.entities@, w.height)),
        None => b.entities@ == a.entities@,
    }
}

/// `b` is `a` after the entities whose health changed and ran out went.
pub open spec fn health_step(a: World, b: World, hurt: Seq<u64>) -> bool {
    &&& b.same_rest(a)
    &&& b.entities@ == survivors(a.entities@, dead(a.entities@, hurt))
}

/// `b` is `a` after the bars of owners whose health changed were refreshed.
pub open spec fn bar_step(a: World, b: World, hurt: Seq<u64>) -> bool {
    &&& b.same_rest(a)
    &&& b.entities@ == a.entities@.map_values(|e: Entity| synced(a.entities@, e, hurt))
}

/// `ws` are the worlds between the systems of one tick, from `ws[0] == a`
/// to `ws[12] == b`, each related to the one before by that system's step.
pub open spec fn pipeline(
    a: World,
    b: World,
    ws: Seq<World>,
    events: Seq<Pair>,
    hurt: Seq<u64>,
    keys: Keys,
    delta: u64,
    window: Option<Window>,
) -> bool {
    &&& ws.len() == 13
    &&& ws[0] == a
    &&& ws[12] == b
    &&& input_step(ws[0], ws[1], keys)
    &&& move_step(ws[1], ws[2])
    &&& bounds_step(ws[2], ws[3])
    &&& shoot_step(ws[3], ws[4], delta)
    &&& enemy_spawn_step(ws[4], ws[5], delta, window)
    &&& star_spawn_step(ws[5], ws[6], delta, window)
    &&& collide_step(ws[6], ws[7], events)
    &&& react_step(ws[7], ws[8], events, hurt)
    &&& lifespan_step(ws[8], ws[9], delta)
    &&& out_of_window_step(ws[9], ws[10], window)
    &&& health_step(ws[10], ws[11], hurt)
    &&& bar_step(ws[11], ws[12], hurt)
}

/// `b` is `a` after one tick: some worlds, enter-events and changed
/// healths link them through every system in order.
pub open spec fn tick_spec(a: World, b: World, keys: Keys, delta: u64, window: Option<Window>) -> bool {
    exists|ws: Seq<World>, events: Seq<Pair>, hurt: Seq<u64>|
        #[trigger] pipeline(a, b, ws, events, hurt, keys, delta, window)
}

impl World {
    /// Every `ENEMY_SPAWN_INTERVAL` milliseconds adds an enemy at a random
    /// place above the window, with its health bar. Without a window the
    /// spawner does nothing at all.
    pub fn spawn_enemy_system(&mut self, delta: u64, window: Option<Window>)
        requires
            old(self).wf(),
            window matches Some(w) ==> w.wf(),
        ensures
            final(self).wf(),
            enemy_spawn_step(*old(self), *final(self), delta, window),
    {
        let w = match window {
            Some(w) => w,
            None => return,
        };
        let mut t = self.enemy_timer;
        let fired = t.advance(delta);
        self.enemy_timer = t;
        if fired {
            let lo = -(w.width / 2) + SHIP_HALF;
            let hi = w.width / 2 - SHIP_HALF - 1;
            let x = if lo <= hi { random_between(lo, hi) } else { 0 };
            let y = random_between(w.height / 2 + 2 * SHIP_HALF, w.height / 2 + 4 * SHIP_HALF);
            self.spawn_enemy(w, x, y);
            assert(in_enemy_zone(w, x, y));
        }
    }

    /// Every `STAR_SPAWN_INTERVAL` milliseconds adds a shower of ten to
    /// twenty-five stars at random places above the window (fewer only when
    /// handles run out). Without a window the spawner does nothing at all.
    pub fn spawn_star_system(&mut self, delta: u64, window: Option<Window>)
        requires
            old(self).wf(),
            window matches Some(w) ==> w.wf(),
        ensures
            final(self).wf(),
            star_spawn_step(*old(self), *final(self), delta, window),
    {
        let w = match window {
            Some(w) => w,
            None => return,
        };
        let mut t = self.star_timer;
        let fired = t.advance(delta);
        self.star_timer = t;
        if !fired {
            assert(self.entities@.subrange(0, self.entities@.len() as int) =~= self.entities@);
            return;
        }
        let ghost s0 = self.entities@;
        let ghost h0 = self.next_handle;
        let count = random_between(STARS_MIN, STARS_MAX);
        let mut n: i64 = 0;
        while n < count
            invariant
                self.wf(),
                w.wf(),
                0 <= n <= count <= STARS_MAX,
                self.contacts == old(self).contacts,
                self.enemy_timer == old(self).enemy_timer,
                self.star_timer == advanced(old(self).star_timer, delta),
                s0 == old(self).entities@,
                h0 == old(self).next_handle,
                s0.len() <= self.entities@.len(),
                self.entities@.subrange(0, s0.len() as int) == s0,
                self.entities@.len() - s0.len() == self.next_handle - h0,
                self.entities@.len() <= s0.len() + n,
                h0 <= u64::MAX - STARS_MAX ==> self.entities@.len() == s0.len() + n,
                forall|k: int|
                    s0.len() <= k < self.entities@.len() ==> is_shower_star(w, #[trigger] self.entities@[k])
                        && self.entities@[k].handle == h0 + (k - s0.len()),
            decreases count - n,
        {
            let x = random_between(-(w.width / 2), w.width / 2);
            let y = random_between(w.height / 2 + 2000, w.height / 2 + 9999);
            let size = random_between(200, 500);
            let base = random_between(200, 800) as u32;
            let ghost before = self.entities@;
            self.spawn_star(x, y, size, base);
            proof {
                if before.len() < self.entities@.len() {
                    assert(self.entities@ == before.push(star_spec(x, y, size, base, (self.next_handle - 1) as u64)));
                    assert(self.entities@.subrange(0, s0.len() as int) =~= before.subrange(0, s0.len() as int));
                    let e = self.entities@[before.len() as int];
                    assert(e == star_spec(x, y, size, base, e.handle));
                    assert(is_shower_star(w, e));
                    assert forall|k: int|
                        s0.len() <= k < self.entities@.len() implies is_shower_star(w, #[trigger] self.entities@[k])
                            && self.entities@[k].handle == h0 + (k - s0.len()) by {
                        if k < before.len() {
                            assert(self.entities@[k] == before[k]);
                        }
                    }
                }
            }
            n += 1;
        }
    }

    /// Advances the simulation by one tick of `delta` milliseconds: input,
    /// movement, bounds, shooting and spawning, collisions and the
    /// reactions to them, lifespans, falling out of the window, health, and
    /// health bars, in that order. Without a window nothing is spawned and
    /// nothing falls out of it.
    pub fn tick(&mut self, keys: Keys, delta: u64, window: Option<Window>)
        requires
            old(self).wf(),
            window matches Some(w) ==> w.wf(),
        ensures
            final(self).wf(),
            final(self).next_handle >= old(self).next_handle,
            tick_spec(*old(self), *final(self), keys, delta, window),
    {
        let ghost w0 = *self;
        self.player_movement_input(keys);
        let ghost w1 = *self;
        self.move_entity();
        let ghost w2 = *self;
        self.lock_bounded_entity();
        let ghost w3 = *self;
        self.entity_shoot_projectile(delta);
        let ghost w4 = *self;
        self.spawn_enemy_system(delta, window);
        let ghost w5 = *self;
        self.spawn_star_system(delta, window);
        let ghost w6 = *self;
        let pairs = detect_collisions(&self.entities);
        proof {
            crate::collision::lemma_contacts_stay_below(self.entities@, self.contacts@, self.next_handle);
        }
        let events = record_contacts(&mut self.contacts, &pairs);
        let ghost w7 = *self;
        let hurt = self.on_projectile_collision_enter(&events);
        let ghost w8 = *self;
        self.entity_lifespan_system(delta);
        let ghost w9 = *self;
        if let Some(w) = window {
            self.destroy_out_of_window_system(w);
        }
        let ghost w10 = *self;
        self.entity_health_system(&hurt);
        let ghost w11 = *self;
        self.entity_healthbar_system(&hurt);
        proof {
            let ws = seq![w0, w1, w2, w3, w4, w5, w6, w7, w8, w9, w10, w11, *self];
            assert(input_step(ws[0], ws[1], keys));
            assert(move_step(ws[1], ws[2]));
            assert(bounds_step(ws[2], ws[3]));
            assert(shoot_step(ws[3], ws[4], delta));
            assert(enemy_spawn_step(ws[4], ws[5], delta, window));
            assert(star_spawn_step(ws[5], ws[6], delta, window));
            assert(collide_step(ws[6], ws[7], events@));
            assert(react_step(ws[7], ws[8], events@, hurt@));
            assert(lifespan_step(ws[8], ws[9], delta));
            assert(out_of_window_step(ws[9], ws[10], window));
            assert(health_step(ws[10], ws[11], hurt@));
            assert(bar_step(ws[11], ws[12], hurt@));
            assert(pipeline(w0, *self, ws, events@, hurt@, keys, delta, window));
        }
    }
}

} // verus!
