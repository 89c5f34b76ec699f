//! Reactions to collisions, and the systems that destroy entities or keep
//! their derived state in step.

use vstd::prelude::*;
use crate::collision::{all_wf, Pair};
use crate::entity::{BarFill, Entity, Health, Kind};
use crate::world::{
    lemma_despawn_keeps_owners, lemma_same_shape, parents_alive, survivors, Window, World,
};

verus! {

/// `i` is the first index of `s` holding handle `h`.
pub open spec fn first_with(s: Seq<Entity>, h: u64, i: int) -> bool {
    &&& 0 <= i < s.len()
    &&& s[i].handle == h
    &&& forall|k: int| 0 <= k < i ==> s[k].handle != h
}

/// Where the entity with handle `h` stands in `s`, if it is alive.
pub open spec fn find(s: Seq<Entity>, h: u64) -> Option<int> {
    if exists|i: int| first_with(s, h, i) {
        Some(choose|i: int| first_with(s, h, i))
    } else {
        None
    }
}

/// Looks an entity up by its handle.
pub fn find_handle(v: &Vec<Entity>, h: u64) -> (r: Option<usize>)
    ensures
        r matches Some(i) ==> find(v@, h) == Some(i as int),
        r is None ==> find(v@, h) is None,
{
    let mut i: usize = 0;
    while i < v.len()
        invariant
            i <= v@.len(),
            forall|k: int| 0 <= k < i ==> v@[k].handle != h,
        decreases v@.len() - i,
    {
        if v[i].handle == h {
            proof {
                assert(first_with(v@, h, i as int));
                let j = choose|j: int| first_with(v@, h, j);
                assert(j == i);
            }
            return Some(i);
        }
        i += 1;
    }
    proof {
        lemma_absent(v@, h);
    }
    None
}

proof fn lemma_absent(s: Seq<Entity>, h: u64)
    requires
        forall|k: int| 0 <= k < s.len() ==> s[k].handle != h,
    ensures
        find(s, h) is None,
{
}

/// One hit point less, never below the least value.
pub open spec fn damaged(e: Entity) -> Entity {
    let h = e.health.unwrap();
    Entity {
        health: Some(Health { current: if h.current > i32::MIN { (h.current - 1) as i32 } else { h.current }, ..h }),
        ..e
    }
}

/// State of the reaction phase: the entities, the handles to remove and the
/// handles whose health changed.
pub type Reaction = (Seq<Entity>, Seq<u64>, Seq<u64>);

/// The reaction to one enter-event. When `this` is a projectile: a target
/// that has health loses one point and the projectile is removed; a target
/// without health is removed and the projectile flies on. An event whose
/// `this` is gone, or is no projectile, changes nothing.
pub open spec fn react_one(st: Reaction, ev: Pair) -> Reaction {
    let s = st.0;
    let this = find(s, ev.0);
    if this is Some && s[this.unwrap()].kind == Kind::Projectile {
        let other = find(s, ev.1);
        if other is Some && s[other.unwrap()].health is Some {
            (s.update(other.unwrap(), damaged(s[other.unwrap()])), st.1.push(ev.0), st.2.push(ev.1))
        } else {
            (s, st.1.push(ev.1), st.2)
        }
    } else {
        st
    }
}

/// The reactions to `events`, in order.
pub open spec fn react_all(st: Reaction, events: Seq<Pair>) -> Reaction
    decreases events.len(),
{
    if events.len() == 0 {
        st
    } else {
        react_one(react_all(st, events.drop_last()), events.last())
    }
}

/// Handles of the entities of `s` whose health changed and is no longer
/// positive, in order.
pub open spec fn dead(s: Seq<Entity>, hurt: Seq<u64>) -> Seq<u64>
    decreases s.len(),
{
    if s.len() == 0 {
        seq![]
    } else if is_dying(s.last(), hurt) {
        dead(s.drop_last(), hurt).push(s.last().handle)
    } else {
        dead(s.drop_last(), hurt)
    }
}

pub open spec fn is_dying(e: Entity, hurt: Seq<u64>) -> bool {
    hurt.contains(e.handle) && e.health is Some && e.health.unwrap().current <= 0
}

/// Handles of the entities of `s` that are marked to go once they have
/// fallen below a window of height `height`: twice their top edge is at
/// most `-height`, so odd heights are compared exactly.
pub open spec fn fallen(s: Seq<Entity>, height: i64) -> Seq<u64>
    decreases s.len(),
{
    if s.len() == 0 {
        seq![]
    } else if has_fallen(s.last(), height) {
        fallen(s.drop_last(), height).push(s.last().handle)
    } else {
        fallen(s.drop_last(), height)
    }
}

pub open spec fn has_fallen(e: Entity, height: i64) -> bool {
    e.destroy_out_of_window && 2 * e.transform.top() <= -height
}

/// `a / b` rounded towards zero, for positive `b`.
pub open spec fn trunc_div(a: int, b: int) -> int {
    if a >= 0 {
        a / b
    } else {
        -((-a) / b)
    }
}

/// A bar's fill for the given health: width scale `current / max` and
/// offset `scale / 2 - 1/2`, both in thousandths rounded towards zero,
/// which keeps a bar of unit width anchored at its left end.
pub open spec fn bar_fill(h: Health) -> BarFill {
    let scale = trunc_div(h.current * 1000, h.max as int);
    BarFill { scale_milli: scale as i64, offset_milli: (trunc_div(scale, 2) - 500) as i64 }
}

/// Computes the fill of a health bar from its owner's health.
pub fn health_bar_fill(h: Health) -> (r: BarFill)
    requires
        h.max > 0,
    ensures
        r == bar_fill(h),
{
    let c: i64 = h.current as i64 * 1000;
    let m: i64 = h.max as i64;
    let scale: i64 = if c >= 0 { c / m } else { -((-c) / m) };
    proof {
        assert(-2_147_483_648_000 <= scale <= 2_147_483_647_000) by (nonlinear_arith)
            requires
                scale == trunc_div(c as int, m as int),
                -2_147_483_648_000 <= c <= 2_147_483_647_000,
                m >= 1;
    }
    let half: i64 = if scale >= 0 { scale / 2 } else { -((-scale) / 2) };
    BarFill { scale_milli: scale, offset_milli: half - 500 }
}

/// `f` is the bar `e` after its owner's health, if it changed, was read
/// from `s`.
pub open spec fn synced(s: Seq<Entity>, e: Entity, hurt: Seq<u64>) -> Entity {
    if e.kind == Kind::HealthBar && e.parent is Some && hurt.contains(e.parent.unwrap()) && find(
        s,
        e.parent.unwrap(),
    ) is Some && s[find(s, e.parent.unwrap()).unwrap()].health is Some && s[find(
        s,
        e.parent.unwrap(),
    ).unwrap()].health.unwrap().max > 0 {
        Entity { bar: Some(bar_fill(s[find(s, e.parent.unwrap()).unwrap()].health.unwrap())), ..e }
    } else {
        e
    }
}

impl World {
    /// Reacts to this tick's enter-events in order (see `react_one`), then
    /// removes what they destroyed, with its children. Returns the handles
    /// whose health changed, in order.
    pub fn on_projectile_collision_enter(&mut self, events: &Vec<Pair>) -> (hurt: Vec<u64>)
        requires
            old(self).wf(),
        ensures
            final(self).wf(),
            final(self).same_rest(*old(self)),
            final(self).entities@ == survivors(
                react_all((old(self).entities@, seq![], seq![]), events@).0,
                react_all((old(self).entities@, seq![], seq![]), events@).1,
            ),
            hurt@ == react_all((old(self).entities@, seq![], seq![]), events@).2,
    {
        let mut doomed: Vec<u64> = Vec::new();
        let mut hurt: Vec<u64> = Vec::new();
        let mut n: usize = 0;
        while n < events.len()
            invariant
                n <= events@.len(),
                self.wf(),
                self.same_rest(*old(self)),
                (self.entities@, doomed@, hurt@) == react_all(
                    (old(self).entities@, seq![], seq![]),
                    events@.subrange(0, n as int),
                ),
            decreases events@.len() - n,
        {
            let ev = events[n];
            proof {
                assert(events@.subrange(0, n + 1).drop_last() =~= events@.subrange(0, n as int));
            }
            let ghost before = self.entities@;
            if let Some(i) = find_handle(&self.entities, ev.0) {
                if self.entities[i].kind == Kind::Projectile {
                    match find_handle(&self.entities, ev.1) {
                        Some(j) => {
                            let e = self.entities[j];
                            match e.health {
                                Some(h) => {
                                    let current = if h.current > i32::MIN {
                                        h.current - 1
                                    } else {
                                        h.current
                                    };
                                    let f = Entity { health: Some(Health { current, ..h }), ..e };
                                    self.entities.set(j, f);
                                    proof {
                                        assert(before[j as int].wf());
                                        lemma_same_shape(before, self.entities@, self.next_handle);
                                    }
                                    doomed.push(ev.0);
                                    hurt.push(ev.1);
                                },
                                None => {
                                    doomed.push(ev.1);
                                },
                            }
                        },
                        None => {
                            doomed.push(ev.1);
                        },
                    }
                }
            }
            n += 1;
        }
        assert(events@.subrange(0, events@.len() as int) =~= events@);
        self.despawn_recursive(&doomed);
        hurt
    }

    /// Removes, with their children, the entities whose health changed this
    /// tick and is no longer positive.
    pub fn entity_health_system(&mut self, hurt: &Vec<u64>)
        requires
            old(self).wf(),
        ensures
            final(self).wf(),
            final(self).same_rest(*old(self)),
            final(self).entities@ == survivors(old(self).entities@, dead(old(self).entities@, hurt@)),
    {
        let mut gone: Vec<u64> = Vec::new();
        let mut i: usize = 0;
        while i < self.entities.len()
            invariant
                i <= self.entities@.len(),
                gone@ == dead(self.entities@.subrange(0, i as int), hurt@),
            decreases self.entities@.len() - i,
        {
            let e = self.entities[i];
            proof {
                assert(self.entities@.subrange(0, i + 1).drop_last() =~= self.entities@.subrange(0, i as int));
            }
            if let Some(h) = e.health {
                if h.current <= 0 && crate::world::contains_handle(hurt, e.handle) {
                    gone.push(e.handle);
                }
            }
            i += 1;
        }
        assert(self.entities@.subrange(0, self.entities@.len() as int) =~= self.entities@);
        self.despawn_recursive(&gone);
    }

    /// Removes, with their children, the entities marked to go once their
    /// top edge has fallen below the bottom of the window.
    pub fn destroy_out_of_window_system(&mut self, window: Window)
        requires
            old(self).wf(),
            window.wf(),
        ensures
            final(self).wf(),
            final(self).same_rest(*old(self)),
            final(self).entities@ == survivors(old(self).entities@, fallen(old(self).entities@, window.height)),
    {
        let mut gone: Vec<u64> = Vec::new();
        let mut i: usize = 0;
        while i < self.entities.len()
            invariant
                i <= self.entities@.len(),
                all_wf(self.entities@),
                window.wf(),
                gone@ == fallen(self.entities@.subrange(0, i as int), window.height),
            decreases self.entities@.len() - i,
        {
            let e = self.entities[i];
            proof {
                assert(self.entities@.subrange(0, i + 1).drop_last() =~= self.entities@.subrange(0, i as int));
                assert(e.wf());
            }
            if e.destroy_out_of_window && 2 * (e.transform.y + e.transform.half_h) <= -window.height {
                gone.push(e.handle);
            }
            i += 1;
        }
        assert(self.entities@.subrange(0, self.entities@.len() as int) =~= self.entities@);
        self.despawn_recursive(&gone);
    }

    /// Refreshes the fill of every health bar whose owner's health changed
    /// this tick.
    pub fn entity_healthbar_system(&mut self, hurt: &Vec<u64>)
        requires
            old(self).wf(),
        ensures
            final(self).wf(),
            final(self).same_rest(*old(self)),
            final(self).entities@ == old(self).entities@.map_values(
                |e: Entity| synced(old(self).entities@, e, hurt@),
            ),
    {
        let ghost s = self.entities@;
        let mut next: Vec<Entity> = Vec::new();
        let mut i: usize = 0;
        while i < self.entities.len()
            invariant
                s == self.entities@,
                i <= s.len(),
                next@.len() == i,
                forall|k: int| 0 <= k < i ==> next@[k] == synced(s, s[k], hurt@),
            decreases s.len() - i,
        {
            let e = self.entities[i];
            let mut f = e;
            if e.kind == Kind::HealthBar {
                if let Some(p) = e.parent {
                    if crate::world::contains_handle(hurt, p) {
                        if let Some(j) = find_handle(&self.entities, p) {
                            if let Some(h) = self.entities[j].health {
                                if h.max > 0 {
                                    f = Entity { bar: Some(health_bar_fill(h)), ..e };
                                }
                            }
                        }
                    }
                }
            }
            next.push(f);
            i += 1;
        }
        proof {
            assert(next@ =~= s.map_values(|e: Entity| synced(s, e, hurt@)));
            assert forall|k: int| 0 <= k < s.len() implies (#[trigger] next@[k]).handle == s[k].handle
                && next@[k].parent == s[k].parent by {}
            lemma_same_shape(s, next@, self.next_handle);
        }
        self.entities = next;
    }
}

proof fn lemma_dead_members(s: Seq<Entity>, hurt: Seq<u64>)
    ensures
        forall|j: int| 0 <= j < s.len() && is_dying(#[trigger] s[j], hurt) ==> dead(s, hurt).contains(s[j].handle),
    decreases s.len(),
{
    if s.len() > 0 {
        let init = s.drop_last();
        lemma_dead_members(init, hurt);
        let d0 = dead(init, hurt);
        assert forall|j: int| 0 <= j < s.len() && is_dying(#[trigger] s[j], hurt) implies dead(s, hurt).contains(s[j].handle) by {
            if j < s.len() - 1 {
                assert(init[j] == s[j]);
                let k = choose|k: int| 0 <= k < d0.len() && d0[k] == s[j].handle;
                if is_dying(s.last(), hurt) {
                    assert(d0.push(s.last().handle)[k] == s[j].handle);
                }
            } else {
                assert(d0.push(s.last().handle)[d0.len() as int] == s[j].handle);
            }
        }
    }
}

/// An entity whose health changed this tick and is no longer positive is
/// gone after the health check, and so is every entity it owned; every
/// entity left that belongs to another still has its owner.
pub proof fn lemma_zero_health_destroys(s: Seq<Entity>, hurt: Seq<u64>, h: u64)
    requires
        parents_alive(s),
        exists|j: int| 0 <= j < s.len() && s[j].handle == h && #[trigger] is_dying(s[j], hurt),
    ensures
        forall|i: int|
            0 <= i < survivors(s, dead(s, hurt)).len() ==> (#[trigger] survivors(
                s,
                dead(s, hurt),
            )[i]).handle != h && survivors(s, dead(s, hurt))[i].parent != Some(h),
        parents_alive(survivors(s, dead(s, hurt))),
{
    lemma_dead_members(s, hurt);
    lemma_despawn_keeps_owners(s, dead(s, hurt), 0);
    let j = choose|j: int| 0 <= j < s.len() && s[j].handle == h && #[trigger] is_dying(s[j], hurt);
    assert(dead(s, hurt).contains(h));
}

/// `s` and `t` hold the same handles at the same places, and differ only
/// in the health of the entity at `x`.
pub open spec fn same_but_health(s: Seq<Entity>, t: Seq<Entity>, x: int) -> bool {
    &&& s.len() == t.len()
    &&& forall|k: int| 0 <= k < s.len() ==> (#[trigger] t[k]).handle == s[k].handle
    &&& forall|k: int| 0 <= k < s.len() && k != x ==> #[trigger] t[k] == s[k]
    &&& t[x] == (Entity { health: t[x].health, ..s[x] })
}

proof fn lemma_find_same_handles(s: Seq<Entity>, t: Seq<Entity>, h: u64)
    requires
        s.len() == t.len(),
        forall|k: int| 0 <= k < s.len() ==> (#[trigger] t[k]).handle == s[k].handle,
    ensures
        find(t, h) == find(s, h),
{
    if exists|i: int| first_with(s, h, i) {
        let i = choose|i: int| first_with(s, h, i);
        assert forall|k: int| 0 <= k < i implies t[k].handle != h by {
            assert(t[k].handle == s[k].handle);
        }
        assert(t[i].handle == s[i].handle);
        assert(first_with(t, h, i));
        let j = choose|j: int| first_with(t, h, j);
        assert forall|k: int| 0 <= k < j implies s[k].handle != h by {
            assert(t[k].handle == s[k].handle);
        }
        assert(t[j].handle == s[j].handle);
        assert(first_with(s, h, j));
        assert(i == j) by {
            if i < j {
                assert(s[i].handle == h);
            } else if j < i {
                assert(s[j].handle == h);
            }
        }
    } else {
        assert forall|i: int| !first_with(t, h, i) by {
            if first_with(t, h, i) {
                assert forall|k: int| 0 <= k < i implies s[k].handle != h by {
                    assert(t[k].handle == s[k].handle);
                }
                assert(t[i].handle == s[i].handle);
                assert(first_with(s, h, i));
            }
        }
    }
}

/// Every hit counts: when each of `events` is a projectile of `s` hitting
/// the entity at `x`, which has health enough to take them all, that
/// entity loses exactly one point per event and every projectile is
/// removed, while nothing else changes.
pub proof fn lemma_each_hit_costs_one(s: Seq<Entity>, events: Seq<Pair>, x: int)
    requires
        0 <= x < s.len(),
        s[x].health is Some,
        s[x].health.unwrap().current - events.len() > i32::MIN,
        find(s, s[x].handle) == Some(x),
        forall|k: int|
            0 <= k < events.len() ==> (#[trigger] events[k]).1 == s[x].handle && find(
                s,
                events[k].0,
            ) is Some && s[find(s, events[k].0).unwrap()].kind == Kind::Projectile,
    ensures
        same_but_health(s, react_all((s, seq![], seq![]), events).0, x),
        react_all((s, seq![], seq![]), events).0[x].health == Some(
            Health { current: (s[x].health.unwrap().current - events.len()) as i32, ..s[x].health.unwrap() },
        ),
        react_all((s, seq![], seq![]), events).1 == events.map_values(|e: Pair| e.0),
        react_all((s, seq![], seq![]), events).2 == events.map_values(|e: Pair| e.1),
    decreases events.len(),
{
    let init = events.drop_last();
    if events.len() == 0 {
        assert(events.map_values(|e: Pair| e.0) =~= seq![]);
        assert(events.map_values(|e: Pair| e.1) =~= seq![]);
        assert(s[x] == (Entity { health: s[x].health, ..s[x] }));
    } else {
        assert forall|k: int| 0 <= k < init.len() implies (#[trigger] init[k]).1 == s[x].handle
            && find(s, init[k].0) is Some && s[find(s, init[k].0).unwrap()].kind
            == Kind::Projectile by {
            assert(init[k] == events[k]);
        }
        lemma_each_hit_costs_one(s, init, x);
        let st = react_all((s, seq![], seq![]), init);
        let t = st.0;
        let ev = events.last();
        assert(ev == events[events.len() - 1]);
        lemma_find_same_handles(s, t, ev.0);
        lemma_find_same_handles(s, t, ev.1);
        let i = find(s, ev.0).unwrap();
        assert(t[i].kind == s[i].kind) by {
            if i != x {
                assert(t[i] == s[i]);
            }
        }
        let t2 = t.update(x, damaged(t[x]));
        assert(same_but_health(s, t2, x));
        assert(events.map_values(|e: Pair| e.0) =~= init.map_values(|e: Pair| e.0).push(ev.0));
        assert(events.map_values(|e: Pair| e.1) =~= init.map_values(|e: Pair| e.1).push(ev.1));
    }
}

} // verus!
