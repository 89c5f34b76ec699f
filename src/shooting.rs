//! Automatic fire: shooters whose timer fires emit one projectile per
//! firing position.

use vstd::prelude::*;
use crate::collision::all_wf;
use crate::entity::{Entity, Kind, Lifespan, Motion, Shooter, MAX_MUZZLES};
use crate::geometry::{Transform, EXTENT_LIMIT};
use crate::world::{
    clamp_pos, contacts_below, handles_below, handles_distinct, lemma_push_entity, parents_alive,
    World,
};

verus! {

/// The shooter's timer fires on this tick.
pub open spec fn fires(e: Entity, delta: u64) -> bool {
    e.shooter is Some && e.shooter.unwrap().timer.current + delta
        >= e.shooter.unwrap().timer.interval
}

/// The entity with its shooter's timer advanced by `delta`.
pub open spec fn rearmed(e: Entity, delta: u64) -> Entity {
    match e.shooter {
        Some(s) => Entity {
            shooter: Some(
                Shooter {
                    timer: crate::timer::IntervalTimer {
                        current: if fires(e, delta) {
                            0
                        } else {
                            (s.timer.current + delta) as u64
                        },
                        ..s.timer
                    },
                    ..s
                },
            ),
            ..e
        },
        None => e,
    }
}

/// The projectile fired by `e` from its firing position `k`: it takes the
/// shooter's layers and the template's colour, size, heading, speed and
/// lifespan.
pub open spec fn projectile_spec(e: Entity, k: int, handle: u64) -> Entity {
    let s = e.shooter.unwrap();
    let t = s.projectile;
    Entity {
        handle,
        kind: Kind::Projectile,
        color: t.color,
        transform: Transform {
            x: clamp_pos(e.transform.x + s.muzzles[k].x) as i64,
            y: clamp_pos(e.transform.y + s.muzzles[k].y) as i64,
            z: 0,
            half_w: t.half_w,
            half_h: t.half_h,
        },
        motion: Some(Motion { direction: t.direction, speed: t.speed }),
        bounds: None,
        body: e.body,
        health: None,
        lifespan: Some(Lifespan { lifespan: t.lifespan, current: 0 }),
        shooter: None,
        parent: None,
        bar: None,
        destroy_out_of_window: false,
    }
}

/// What `e` fires this tick, with handles from `h` on: one projectile per
/// firing position when its timer fires and enough handles are left.
pub open spec fn volley(e: Entity, delta: u64, h: int) -> Seq<Entity> {
    if fires(e, delta) && h + e.shooter.unwrap().muzzle_count <= u64::MAX {
        Seq::new(
            e.shooter.unwrap().muzzle_count as nat,
            |k: int| projectile_spec(e, k, (h + k) as u64),
        )
    } else {
        seq![]
    }
}

/// The volleys of all of `s`, in order, with handles from `h` on.
pub open spec fn volleys(s: Seq<Entity>, delta: u64, h: int) -> Seq<Entity>
    decreases s.len(),
{
    if s.len() == 0 {
        seq![]
    } else {
        let v = volleys(s.drop_last(), delta, h);
        v + volley(s.last(), delta, h + v.len())
    }
}

fn fire_from(e: &Entity, k: usize, handle: u64) -> (p: Entity)
    requires
        e.wf(),
        e.shooter is Some,
        k < e.shooter.unwrap().muzzle_count,
    ensures
        p == projectile_spec(*e, k as int, handle),
        p.wf(),
{
    let s = e.shooter.unwrap();
    let m = s.muzzles[k];
    assert(-EXTENT_LIMIT <= m.x <= EXTENT_LIMIT && -EXTENT_LIMIT <= m.y <= EXTENT_LIMIT);
    let x = if e.transform.x + m.x > crate::geometry::POS_LIMIT {
        crate::geometry::POS_LIMIT
    } else if e.transform.x + m.x < -crate::geometry::POS_LIMIT {
        -crate::geometry::POS_LIMIT
    } else {
        e.transform.x + m.x
    };
    let y = if e.transform.y + m.y > crate::geometry::POS_LIMIT {
        crate::geometry::POS_LIMIT
    } else if e.transform.y + m.y < -crate::geometry::POS_LIMIT {
        -crate::geometry::POS_LIMIT
    } else {
        e.transform.y + m.y
    };
    Entity {
        handle,
        kind: Kind::Projectile,
        color: s.projectile.color,
        transform: Transform { x, y, z: 0, half_w: s.projectile.half_w, half_h: s.projectile.half_h },
        motion: Some(Motion { direction: s.projectile.direction, speed: s.projectile.speed }),
        bounds: None,
        body: e.body,
        health: None,
        lifespan: Some(Lifespan { lifespan: s.projectile.lifespan, current: 0 }),
        shooter: None,
        parent: None,
        bar: None,
        destroy_out_of_window: false,
    }
}

impl World {
    /// Advances every shooter's timer by `delta` milliseconds; each one that
    /// fires adds its volley after the existing entities.
    pub fn entity_shoot_projectile(&mut self, delta: u64)
        requires
            old(self).wf(),
        ensures
            final(self).wf(),
            final(self).contacts == old(self).contacts,
            final(self).enemy_timer == old(self).enemy_timer,
            final(self).star_timer == old(self).star_timer,
            final(self).entities@ == old(self).entities@.map_values(|e: Entity| rearmed(e, delta))
                + volleys(old(self).entities@, delta, old(self).next_handle as int),
            final(self).next_handle == old(self).next_handle + volleys(
                old(self).entities@,
                delta,
                old(self).next_handle as int,
            ).len(),
    {
        let ghost before = self.entities@;
        let ghost h0 = self.next_handle as int;
        let mut fired: Vec<Entity> = Vec::new();
        let mut i: usize = 0;
        while i < self.entities.len()
            invariant
                self.entities@.len() == before.len(),
                i <= before.len(),
                before == old(self).entities@,
                old(self).wf(),
                self.contacts == old(self).contacts,
                self.enemy_timer == old(self).enemy_timer,
                self.star_timer == old(self).star_timer,
                h0 == old(self).next_handle,
                forall|k: int| 0 <= k < i ==> self.entities@[k] == rearmed(before[k], delta),
                forall|k: int| i <= k < before.len() ==> self.entities@[k] == before[k],
                fired@ == volleys(before.subrange(0, i as int), delta, h0),
                forall|q: int| 0 <= q < fired@.len() ==> (#[trigger] fired@[q]).handle == h0 + q,
                self.next_handle == h0 + fired@.len(),
                forall|k: int| 0 <= k < fired@.len() ==> (#[trigger] fired@[k]).wf()
                    && fired@[k].parent is None && fired@[k].handle < self.next_handle
                    && fired@[k].handle >= h0,
            decreases before.len() - i,
        {
            let e = self.entities[i];
            proof {
                assert(before.subrange(0, i + 1).drop_last() =~= before.subrange(0, i as int));
                assert(before.subrange(0, i + 1).last() == e);
                assert(e.wf());
            }
            if let Some(s) = e.shooter {
                let mut t = s.timer;
                let shoot = t.advance(delta);
                let f = Entity { shooter: Some(Shooter { timer: t, ..s }), ..e };
                self.entities.set(i, f);
                if shoot && self.next_handle <= u64::MAX - s.muzzle_count as u64 {
                    let ghost v0 = fired@;
                    let h = self.next_handle;
                    let mut k: usize = 0;
                    while k < s.muzzle_count
                        invariant
                            e.wf(),
                            e.shooter == Some(s),
                            s.muzzle_count <= MAX_MUZZLES,
                            k <= s.muzzle_count,
                            h + s.muzzle_count <= u64::MAX,
                            h >= h0,
                            h == h0 + v0.len(),
                            forall|q: int| 0 <= q < fired@.len() ==> (#[trigger] fired@[q]).handle == h0 + q,
                            fired@ == v0 + Seq::new(k as nat, |m: int| projectile_spec(e, m, (h + m) as u64)),
                            forall|q: int| 0 <= q < v0.len() ==> (#[trigger] v0[q]).wf()
                                && v0[q].parent is None && v0[q].handle < h && v0[q].handle >= h0,
                            forall|q: int| 0 <= q < fired@.len() ==> (#[trigger] fired@[q]).wf()
                                && fired@[q].parent is None && fired@[q].handle < h + k
                                && fired@[q].handle >= h0,
                        decreases s.muzzle_count - k,
                    {
                        let p = fire_from(&e, k, h + k as u64);
                        fired.push(p);
                        proof {
                            assert(fired@ =~= v0 + Seq::new((k + 1) as nat, |m: int| projectile_spec(e, m, (h + m) as u64)));
                        }
                        k += 1;
                    }
                    self.next_handle = h + s.muzzle_count as u64;
                }
            }
            proof {
                let pre = before.subrange(0, i as int);
                assert(before.subrange(0, i + 1).drop_last() =~= pre);
                assert(fired@ =~= volleys(before.subrange(0, i + 1), delta, h0));
            }
            i += 1;
        }
        proof {
            assert(before.subrange(0, before.len() as int) =~= before);
            assert(self.entities@ =~= before.map_values(|e: Entity| rearmed(e, delta)));
        }
        proof {
            crate::world::lemma_same_shape(before, self.entities@, old(self).next_handle);
            assert forall|k: int| 0 <= k < self.entities@.len() implies #[trigger] self.entities@[k].handle
                < self.next_handle by {
                assert(self.entities@[k].handle < old(self).next_handle);
            }
            crate::world::lemma_contacts_below_grows(self.contacts@, old(self).next_handle, self.next_handle);
        }
        let ghost rearmed_all = self.entities@;
        let mut m: usize = 0;
        while m < fired.len()
            invariant
                m <= fired@.len(),
                self.entities@ == rearmed_all + fired@.subrange(0, m as int),
                self.contacts == old(self).contacts,
                self.enemy_timer == old(self).enemy_timer,
                self.star_timer == old(self).star_timer,
                self.next_handle == old(self).next_handle + fired@.len(),
                all_wf(self.entities@),
                parents_alive(self.entities@),
                handles_below(self.entities@, self.next_handle),
                handles_below(self.entities@, (old(self).next_handle + m) as u64),
                handles_distinct(self.entities@),
                contacts_below(self.contacts@, self.next_handle),
                forall|k: int| 0 <= k < fired@.len() ==> (#[trigger] fired@[k]).wf()
                    && fired@[k].parent is None && fired@[k].handle < self.next_handle,
                forall|q: int| 0 <= q < fired@.len() ==> (#[trigger] fired@[q]).handle == old(self).next_handle + q,
            decreases fired@.len() - m,
        {
            proof {
                lemma_push_entity(self.entities@, fired@[m as int], self.next_handle, self.next_handle);
            }
            self.entities.push(fired[m]);
            proof {
                assert(rearmed_all + fired@.subrange(0, m + 1) =~= self.entities@);
            }
            m += 1;
        }
        assert(fired@.subrange(0, fired@.len() as int) =~= fired@);
    }
}

} // verus!
