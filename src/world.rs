//! The entity store and the systems that advance it by one tick.

use vstd::prelude::*;
use crate::collision::{all_wf, Pair};
use crate::entity::{Entity, Kind, Lifespan};
use crate::geometry::{clamp_spec, lock_to_region, POS_LIMIT};
use crate::motion::{is_step, step, Direction};
use crate::timer::IntervalTimer;

verus! {

/// Size of the visible window, in sub-pixels, centred on the origin.
#[derive(Clone, Copy, Debug, PartialEq, Eq, Structural)]
pub struct Window {
    pub width: i64,
    pub height: i64,
}

/// Largest window side, in sub-pixels.
pub const WINDOW_LIMIT: i64 = 1_099_511_627_776;

impl Window {
    pub open spec fn wf(self) -> bool {
        &&& 0 < self.width <= WINDOW_LIMIT
        &&& 0 < self.height <= WINDOW_LIMIT
    }
}

/// Which of the four direction keys are held.
#[derive(Clone, Copy, Debug, PartialEq, Eq, Structural)]
pub struct Keys {
    pub left: bool,
    pub right: bool,
    pub up: bool,
    pub down: bool,
}

/// All live entities, the contacts kept between ticks, and the spawners'
/// timers.
pub struct World {
    pub entities: Vec<Entity>,
    pub contacts: Vec<Pair>,
    pub next_handle: u64,
    pub enemy_timer: IntervalTimer,
    pub star_timer: IntervalTimer,
}

/// Some entity of `s` that belongs to no other has the handle `h`.
pub open spec fn owner_alive(s: Seq<Entity>, h: u64) -> bool {
    exists|j: int| 0 <= j < s.len() && #[trigger] s[j].handle == h && s[j].parent is None
}

/// Every entity that belongs to another lives no longer than its owner, and
/// owners belong to nobody.
pub open spec fn parents_alive(s: Seq<Entity>) -> bool {
    forall|i: int|
        0 <= i < s.len() && (#[trigger] s[i].parent) is Some ==> owner_alive(
            s,
            s[i].parent.unwrap(),
        )
}

/// Every handle in use was handed out before `next`.
pub open spec fn handles_below(s: Seq<Entity>, next: u64) -> bool {
    forall|i: int| 0 <= i < s.len() ==> #[trigger] s[i].handle < next
}

/// No two entities share a handle.
pub open spec fn handles_distinct(s: Seq<Entity>) -> bool {
    forall|i: int, j: int|
        #![trigger s[i].handle, s[j].handle]
        0 <= i < s.len() && 0 <= j < s.len() && i != j ==> s[i].handle != s[j].handle
}

/// Every contact names handles handed out before `next`.
pub open spec fn contacts_below(c: Seq<Pair>, next: u64) -> bool {
    forall|k: int| 0 <= k < c.len() ==> (#[trigger] c[k]).0 < next && c[k].1 < next
}

pub proof fn lemma_contacts_below_grows(c: Seq<Pair>, a: u64, b: u64)
    requires
        contacts_below(c, a),
        a <= b,
    ensures
        contacts_below(c, b),
{
}

impl World {
    /// Contacts, handle counter and timers are those of `o`.
    pub open spec fn same_rest(&self, o: World) -> bool {
        &&& self.contacts == o.contacts
        &&& self.next_handle == o.next_handle
        &&& self.enemy_timer == o.enemy_timer
        &&& self.star_timer == o.star_timer
    }

    pub open spec fn wf(&self) -> bool {
        &&& all_wf(self.entities@)
        &&& parents_alive(self.entities@)
        &&& handles_below(self.entities@, self.next_handle)
        &&& handles_distinct(self.entities@)
        &&& contacts_below(self.contacts@, self.next_handle)
    }
}

/// `e` is removed when `doomed` names it or its owner.
pub open spec fn is_doomed(e: Entity, doomed: Seq<u64>) -> bool {
    doomed.contains(e.handle) || (e.parent is Some && doomed.contains(e.parent.unwrap()))
}

/// The entities of `s` that survive the removal of `doomed` and of their
/// children, in order.
pub open spec fn survivors(s: Seq<Entity>, doomed: Seq<u64>) -> Seq<Entity>
    decreases s.len(),
{
    if s.len() == 0 {
        seq![]
    } else if is_doomed(s.last(), doomed) {
        survivors(s.drop_last(), doomed)
    } else {
        survivors(s.drop_last(), doomed).push(s.last())
    }
}

proof fn lemma_survivors_from(s: Seq<Entity>, doomed: Seq<u64>)
    ensures
        forall|i: int|
            0 <= i < survivors(s, doomed).len() ==> exists|j: int|
                0 <= j < s.len() && s[j] == #[trigger] survivors(s, doomed)[i] && !is_doomed(
                    s[j],
                    doomed,
                ),
        forall|j: int|
            0 <= j < s.len() && !is_doomed(#[trigger] s[j], doomed) ==> exists|i: int|
                0 <= i < survivors(s, doomed).len() && survivors(s, doomed)[i] == s[j],
    decreases s.len(),
{
    if s.len() > 0 {
        let init = s.drop_last();
        lemma_survivors_from(init, doomed);
        let r0 = survivors(init, doomed);
        assert forall|i: int| 0 <= i < survivors(s, doomed).len() implies exists|j: int|
            0 <= j < s.len() && s[j] == #[trigger] survivors(s, doomed)[i] && !is_doomed(
                s[j],
                doomed,
            ) by {
            if i < r0.len() {
                let j = choose|j: int|
                    0 <= j < init.len() && init[j] == r0[i] && !is_doomed(init[j], doomed);
                assert(s[j] == init[j]);
            } else {
                assert(s[s.len() - 1] == survivors(s, doomed)[i]);
            }
        }
        assert forall|j: int| 0 <= j < s.len() && !is_doomed(#[trigger] s[j], doomed) implies exists|
            i: int,
        | 0 <= i < survivors(s, doomed).len() && survivors(s, doomed)[i] == s[j] by {
            if j < s.len() - 1 {
                assert(init[j] == s[j]);
                let i = choose|i: int| 0 <= i < r0.len() && r0[i] == init[j];
                assert(survivors(s, doomed)[i] == s[j]);
            } else {
                assert(survivors(s, doomed)[r0.len() as int] == s[j]);
            }
        }
    }
}

proof fn lemma_survivors_avoid(s: Seq<Entity>, doomed: Seq<u64>, h: u64)
    requires
        forall|k: int| 0 <= k < s.len() ==> (#[trigger] s[k]).handle != h,
    ensures
        forall|i: int|
            0 <= i < survivors(s, doomed).len() ==> (#[trigger] survivors(s, doomed)[i]).handle != h,
    decreases s.len(),
{
    if s.len() > 0 {
        let init = s.drop_last();
        assert forall|k: int| 0 <= k < init.len() implies (#[trigger] init[k]).handle != h by {
            assert(init[k] == s[k]);
        }
        lemma_survivors_avoid(init, doomed, h);
        assert(s[s.len() - 1].handle != h);
    }
}

proof fn lemma_survivors_distinct(s: Seq<Entity>, doomed: Seq<u64>)
    requires
        handles_distinct(s),
    ensures
        handles_distinct(survivors(s, doomed)),
    decreases s.len(),
{
    if s.len() > 0 {
        let init = s.drop_last();
        let q = s.last();
        assert(handles_distinct(init)) by {
            assert forall|i: int, j: int|
                0 <= i < init.len() && 0 <= j < init.len() && i != j implies init[i].handle
                != init[j].handle by {
                assert(init[i] == s[i] && init[j] == s[j]);
            }
        }
        lemma_survivors_distinct(init, doomed);
        assert forall|k: int| 0 <= k < init.len() implies (#[trigger] init[k]).handle != q.handle by {
            assert(init[k] == s[k]);
            assert(s[k].handle != s[s.len() - 1].handle);
        }
        lemma_survivors_avoid(init, doomed, q.handle);
        let r0 = survivors(init, doomed);
        if !is_doomed(q, doomed) {
            let r = r0.push(q);
            assert forall|i: int, j: int|
                0 <= i < r.len() && 0 <= j < r.len() && i != j implies #[trigger] r[i].handle
                != #[trigger] r[j].handle by {
                if i < r0.len() && j < r0.len() {
                    assert(r[i] == r0[i] && r[j] == r0[j]);
                } else if i < r0.len() {
                    assert(r[i] == r0[i]);
                } else {
                    assert(r[j] == r0[j]);
                }
            }
        }
    }
}

/// Removing entities together with their children keeps every child's
/// owner alive, and keeps each surviving entity as it was.
pub proof fn lemma_despawn_keeps_owners(s: Seq<Entity>, doomed: Seq<u64>, next: u64)
    requires
        parents_alive(s),
    ensures
        parents_alive(survivors(s, doomed)),
        all_wf(s) ==> all_wf(survivors(s, doomed)),
        handles_below(s, next) ==> handles_below(survivors(s, doomed), next),
        forall|i: int|
            0 <= i < survivors(s, doomed).len() ==> !is_doomed(
                #[trigger] survivors(s, doomed)[i],
                doomed,
            ),
{
    lemma_survivors_from(s, doomed);
    let r = survivors(s, doomed);
    assert forall|i: int| 0 <= i < r.len() && (#[trigger] r[i].parent) is Some implies owner_alive(
        r,
        r[i].parent.unwrap(),
    ) by {
        let j = choose|j: int| 0 <= j < s.len() && s[j] == r[i] && !is_doomed(s[j], doomed);
        let p = r[i].parent.unwrap();
        assert(s[j].parent is Some);
        assert(owner_alive(s, p));
        let k = choose|k: int| 0 <= k < s.len() && #[trigger] s[k].handle == p && s[k].parent is None;
        assert(!is_doomed(s[k], doomed));
        let m = choose|m: int| 0 <= m < r.len() && r[m] == s[k];
        assert(r[m].handle == p);
    }
    if all_wf(s) {
        assert forall|i: int| 0 <= i < r.len() implies #[trigger] r[i].wf() by {
            let j = choose|j: int| 0 <= j < s.len() && s[j] == r[i] && !is_doomed(s[j], doomed);
        }
    }
    if handles_below(s, next) {
        assert forall|i: int| 0 <= i < r.len() implies #[trigger] r[i].handle < next by {
            let j = choose|j: int| 0 <= j < s.len() && s[j] == r[i] && !is_doomed(s[j], doomed);
        }
    }
}


/// The heading the keys ask for: left/right set x, down/up set y; no key,
/// or both keys of an axis, give 0 on that axis.
pub open spec fn key_direction(k: Keys) -> Direction {
    Direction {
        x: if k.left && !k.right { -1i32 } else if k.right && !k.left { 1 } else { 0 },
        y: if k.down && !k.up { -1i32 } else if k.up && !k.down { 1 } else { 0 },
    }
}

pub open spec fn steered(e: Entity, d: Direction) -> Entity {
    if e.kind == Kind::Player && e.motion is Some {
        Entity { motion: Some(crate::entity::Motion { direction: d, ..e.motion.unwrap() }), ..e }
    } else {
        e
    }
}

/// A position moved by a step, held within the position limits.
pub open spec fn clamp_pos(v: int) -> int {
    if v > POS_LIMIT {
        POS_LIMIT as int
    } else if v < -POS_LIMIT {
        -POS_LIMIT
    } else {
        v
    }
}

/// `f` is `e` after one tick of movement.
pub open spec fn moved(e: Entity, f: Entity) -> bool {
    if e.motion is Some && !(e.motion.unwrap().direction.x == 0
        && e.motion.unwrap().direction.y == 0) {
        let m = e.motion.unwrap();
        exists|mx: int, my: int|
            #![trigger is_step(m.direction, m.speed as int, mx, my)]
            is_step(m.direction, m.speed as int, mx, my) && f == (Entity {
                transform: crate::geometry::Transform {
                    x: clamp_pos(e.transform.x + mx) as i64,
                    y: clamp_pos(e.transform.y + my) as i64,
                    ..e.transform
                },
                ..e
            })
    } else {
        f == e
    }
}

pub open spec fn locked(e: Entity) -> Entity {
    match e.bounds {
        Some(r) => Entity { transform: clamp_spec(e.transform, r), ..e },
        None => e,
    }
}

pub open spec fn aged(e: Entity, delta: u64) -> Entity {
    match e.lifespan {
        Some(l) => Entity {
            lifespan: Some(
                Lifespan {
                    current: if l.current + delta > u64::MAX {
                        u64::MAX
                    } else {
                        (l.current + delta) as u64
                    },
                    ..l
                },
            ),
            ..e
        },
        None => e,
    }
}

pub open spec fn is_expired(e: Entity) -> bool {
    e.lifespan is Some && e.lifespan.unwrap().current >= e.lifespan.unwrap().lifespan
}

/// Handles of the expired entities of `s`, in order.
pub open spec fn expired(s: Seq<Entity>) -> Seq<u64>
    decreases s.len(),
{
    if s.len() == 0 {
        seq![]
    } else if is_expired(s.last()) {
        expired(s.drop_last()).push(s.last().handle)
    } else {
        expired(s.drop_last())
    }
}

/// `v` holds the handle `h`.
pub fn contains_handle(v: &Vec<u64>, h: u64) -> (r: bool)
    ensures
        r == v@.contains(h),
{
    let mut i: usize = 0;
    while i < v.len()
        invariant
            i <= v@.len(),
            forall|k: int| 0 <= k < i ==> v@[k] != h,
        decreases v@.len() - i,
    {
        if v[i] == h {
            return true;
        }
        i += 1;
    }
    false
}

fn doomed_now(e: &Entity, doomed: &Vec<u64>) -> (r: bool)
    ensures
        r == is_doomed(*e, doomed@),
{
    if contains_handle(doomed, e.handle) {
        return true;
    }
    match e.parent {
        Some(p) => contains_handle(doomed, p),
        None => false,
    }
}

impl World {
    /// Removes the entities that `doomed` names, each together with its
    /// children; handles of entities already gone are ignored.
    pub fn despawn_recursive(&mut self, doomed: &Vec<u64>)
        requires
            old(self).wf(),
        ensures
            final(self).wf(),
            final(self).entities@ == survivors(old(self).entities@, doomed@),
            final(self).same_rest(*old(self)),
    {
        let mut next: Vec<Entity> = Vec::new();
        let mut i: usize = 0;
        while i < self.entities.len()
            invariant
                i <= self.entities@.len(),
                next@ == survivors(self.entities@.subrange(0, i as int), doomed@),
            decreases self.entities@.len() - i,
        {
            let e = self.entities[i];
            proof {
                assert(self.entities@.subrange(0, i + 1).drop_last() =~= self.entities@.subrange(0, i as int));
            }
            if !doomed_now(&e, doomed) {
                next.push(e);
            }
            i += 1;
        }
        assert(self.entities@.subrange(0, self.entities@.len() as int) =~= self.entities@);
        proof {
            lemma_despawn_keeps_owners(self.entities@, doomed@, self.next_handle);
            lemma_survivors_distinct(self.entities@, doomed@);
        }
        self.entities = next;
    }

    /// Points every player along the heading that the keys ask for.
    pub fn player_movement_input(&mut self, keys: Keys)
        requires
            old(self).wf(),
        ensures
            final(self).wf(),
            final(self).entities@ == old(self).entities@.map_values(
                |e: Entity| steered(e, key_direction(keys)),
            ),
            final(self).same_rest(*old(self)),
    {
        let d = Direction {
            x: if keys.left && !keys.right { -1 } else if keys.right && !keys.left { 1 } else { 0 },
            y: if keys.down && !keys.up { -1 } else if keys.up && !keys.down { 1 } else { 0 },
        };
        let ghost before = self.entities@;
        let mut i: usize = 0;
        while i < self.entities.len()
            invariant
                self.entities@.len() == before.len(),
                i <= before.len(),
                self.same_rest(*old(self)),
                before == old(self).entities@,
                old(self).wf(),
                d == key_direction(keys),
                forall|k: int| 0 <= k < i ==> self.entities@[k] == steered(before[k], d),
                forall|k: int| i <= k < before.len() ==> self.entities@[k] == before[k],
            decreases before.len() - i,
        {
            let e = self.entities[i];
            if e.kind == Kind::Player {
                if let Some(m) = e.motion {
                    let f = Entity { motion: Some(crate::entity::Motion { direction: d, ..m }), ..e };
                    self.entities.set(i, f);
                }
            }
            i += 1;
        }
        proof {
            assert(self.entities@ =~= before.map_values(|e: Entity| steered(e, key_direction(keys))));
            lemma_same_shape(before, self.entities@, self.next_handle);
        }
    }
}

/// Entities that keep their handle, owner and well-formedness keep the
/// store's invariant.
pub(crate) proof fn lemma_same_shape(a: Seq<Entity>, b: Seq<Entity>, next: u64)
    requires
        a.len() == b.len(),
        forall|k: int| 0 <= k < a.len() ==> (#[trigger] b[k]).handle == a[k].handle && b[k].parent == a[k].parent,
        forall|k: int| 0 <= k < a.len() ==> a[k].wf() ==> (#[trigger] b[k]).wf(),
        all_wf(a),
        parents_alive(a),
        handles_below(a, next),
        handles_distinct(a),
    ensures
        all_wf(b),
        parents_alive(b),
        handles_below(b, next),
        handles_distinct(b),
{
    assert forall|i: int, j: int|
        0 <= i < b.len() && 0 <= j < b.len() && i != j implies #[trigger] b[i].handle
        != #[trigger] b[j].handle by {
        assert(a[i].handle != a[j].handle);
    }
    assert forall|i: int| 0 <= i < b.len() && (#[trigger] b[i].parent) is Some implies owner_alive(
        b,
        b[i].parent.unwrap(),
    ) by {
        assert(a[i].parent == b[i].parent);
        let j = choose|j: int| 0 <= j < a.len() && #[trigger] a[j].handle == a[i].parent.unwrap() && a[j].parent is None;
        assert(b[j].handle == a[j].handle);
    }
    assert forall|i: int| 0 <= i < b.len() implies #[trigger] b[i].wf() by {
        assert(a[i].wf());
    }
    assert forall|i: int| 0 <= i < b.len() implies #[trigger] b[i].handle < next by {
        assert(a[i].handle < next);
    }
}

fn clamp_position(v: i64) -> (r: i64)
    ensures
        r == clamp_pos(v as int),
{
    if v > POS_LIMIT {
        POS_LIMIT
    } else if v < -POS_LIMIT {
        -POS_LIMIT
    } else {
        v
    }
}

fn move_one(e: &Entity) -> (f: Entity)
    requires
        e.wf(),
    ensures
        moved(*e, f),
        f.wf(),
        f.handle == e.handle,
        f.parent == e.parent,
{
    if let Some(m) = e.motion {
        if !(m.direction.x == 0 && m.direction.y == 0) {
            let (mx, my) = step(m.direction, m.speed);
            let x = clamp_position(e.transform.x + mx);
            let y = clamp_position(e.transform.y + my);
            let f = Entity { transform: crate::geometry::Transform { x, y, ..e.transform }, ..*e };
            assert(is_step(m.direction, m.speed as int, mx as int, my as int));
            return f;
        }
    }
    *e
}

fn lock_one(e: &Entity) -> (f: Entity)
    requires
        e.wf(),
    ensures
        f == locked(*e),
        f.wf(),
{
    match e.bounds {
        Some(r) => Entity { transform: lock_to_region(&e.transform, &r), ..*e },
        None => *e,
    }
}

fn age_one(e: &Entity, delta: u64) -> (f: Entity)
    requires
        e.wf(),
    ensures
        f == aged(*e, delta),
        f.wf(),
{
    match e.lifespan {
        Some(l) => Entity {
            lifespan: Some(Lifespan { current: l.current.saturating_add(delta), ..l }),
            ..*e
        },
        None => *e,
    }
}

impl World {
    /// Moves every entity that has a heading and a speed by one step.
    pub fn move_entity(&mut self)
        requires
            old(self).wf(),
        ensures
            final(self).wf(),
            final(self).same_rest(*old(self)),
            final(self).entities@.len() == old(self).entities@.len(),
            forall|i: int|
                0 <= i < old(self).entities@.len() ==> moved(
                    #[trigger] old(self).entities@[i],
                    final(self).entities@[i],
                ),
    {
        let ghost before = self.entities@;
        let mut i: usize = 0;
        while i < self.entities.len()
            invariant
                self.entities@.len() == before.len(),
                i <= before.len(),
                self.same_rest(*old(self)),
                before == old(self).entities@,
                old(self).wf(),
                forall|k: int| 0 <= k < i ==> moved(#[trigger] before[k], self.entities@[k]),
                forall|k: int| 0 <= k < i ==> (#[trigger] self.entities@[k]).wf()
                    && self.entities@[k].handle == before[k].handle
                    && self.entities@[k].parent == before[k].parent,
                forall|k: int| i <= k < before.len() ==> self.entities@[k] == before[k],
            decreases before.len() - i,
        {
            let f = move_one(&self.entities[i]);
            self.entities.set(i, f);
            i += 1;
        }
        proof {
            lemma_same_shape(before, self.entities@, self.next_handle);
        }
    }

    /// Snaps every entity that has a region back inside it.
    pub fn lock_bounded_entity(&mut self)
        requires
            old(self).wf(),
        ensures
            final(self).wf(),
            final(self).same_rest(*old(self)),
            final(self).entities@ == old(self).entities@.map_values(|e: Entity| locked(e)),
    {
        let ghost before = self.entities@;
        let mut i: usize = 0;
        while i < self.entities.len()
            invariant
                self.entities@.len() == before.len(),
                i <= before.len(),
                self.same_rest(*old(self)),
                before == old(self).entities@,
                old(self).wf(),
                forall|k: int| 0 <= k < i ==> self.entities@[k] == locked(before[k]),
                forall|k: int| 0 <= k < i ==> (#[trigger] self.entities@[k]).wf(),
                forall|k: int| i <= k < before.len() ==> self.entities@[k] == before[k],
            decreases before.len() - i,
        {
            let f = lock_one(&self.entities[i]);
            self.entities.set(i, f);
            i += 1;
        }
        proof {
            assert(self.entities@ =~= before.map_values(|e: Entity| locked(e)));
            lemma_same_shape(before, self.entities@, self.next_handle);
        }
    }

    /// Ages every entity that has a lifespan by `delta` milliseconds, then
    /// removes those whose time is up, with their children.
    pub fn entity_lifespan_system(&mut self, delta: u64)
        requires
            old(self).wf(),
        ensures
            final(self).wf(),
            final(self).same_rest(*old(self)),
            final(self).entities@ == survivors(
                old(self).entities@.map_values(|e: Entity| aged(e, delta)),
                expired(old(self).entities@.map_values(|e: Entity| aged(e, delta))),
            ),
    {
        let ghost before = self.entities@;
        let mut gone: Vec<u64> = Vec::new();
        let mut i: usize = 0;
        while i < self.entities.len()
            invariant
                self.entities@.len() == before.len(),
                i <= before.len(),
                self.same_rest(*old(self)),
                before == old(self).entities@,
                old(self).wf(),
                forall|k: int| 0 <= k < i ==> self.entities@[k] == aged(before[k], delta),
                forall|k: int| 0 <= k < i ==> (#[trigger] self.entities@[k]).wf(),
                forall|k: int| i <= k < before.len() ==> self.entities@[k] == before[k],
                gone@ == expired(self.entities@.subrange(0, i as int)),
            decreases before.len() - i,
        {
            let f = age_one(&self.entities[i], delta);
            proof {
                let s0 = self.entities@.subrange(0, i as int);
                let s1 = self.entities@.update(i as int, f).subrange(0, i + 1);
                assert(s1.drop_last() =~= s0);
            }
            self.entities.set(i, f);
            if let Some(l) = f.lifespan {
                if l.current >= l.lifespan {
                    gone.push(f.handle);
                }
            }
            i += 1;
        }
        proof {
            assert(self.entities@ =~= before.map_values(|e: Entity| aged(e, delta)));
            assert(self.entities@.subrange(0, before.len() as int) =~= self.entities@);
            lemma_same_shape(before, self.entities@, self.next_handle);
        }
        self.despawn_recursive(&gone);
    }
}

/// Adding a well-formed entity with a fresh handle, whose owner, if any, is
/// alive, keeps the store's invariant.
pub(crate) proof fn lemma_push_entity(s: Seq<Entity>, e: Entity, next: u64, next2: u64)
    requires
        all_wf(s),
        parents_alive(s),
        handles_below(s, next),
        next <= next2,
        e.wf(),
        e.handle < next2,
        e.parent is Some ==> owner_alive(s, e.parent.unwrap()),
        handles_distinct(s),
        handles_below(s, e.handle),
    ensures
        all_wf(s.push(e)),
        parents_alive(s.push(e)),
        handles_below(s.push(e), next2),
        handles_distinct(s.push(e)),
        handles_below(s.push(e), (e.handle + 1) as u64),
{
    let t = s.push(e);
    assert forall|i: int, j: int|
        0 <= i < t.len() && 0 <= j < t.len() && i != j implies #[trigger] t[i].handle
        != #[trigger] t[j].handle by {
        if i < s.len() && j < s.len() {
            assert(s[i].handle != s[j].handle);
        } else if i < s.len() {
            assert(s[i].handle < e.handle);
        } else {
            assert(s[j].handle < e.handle);
        }
    }
    assert forall|i: int| 0 <= i < t.len() implies #[trigger] t[i].handle < e.handle + 1 by {
        if i < s.len() {
            assert(s[i].handle < e.handle);
        }
    }
    assert forall|i: int| 0 <= i < t.len() && (#[trigger] t[i].parent) is Some implies owner_alive(
        t,
        t[i].parent.unwrap(),
    ) by {
        let p = t[i].parent.unwrap();
        if i < s.len() {
            assert(s[i].parent == t[i].parent);
        }
        let j = choose|j: int| 0 <= j < s.len() && #[trigger] s[j].handle == p && s[j].parent is None;
        assert(t[j] == s[j]);
    }
    assert forall|i: int| 0 <= i < t.len() implies #[trigger] t[i].wf() by {
        if i < s.len() {
            assert(s[i].wf());
        }
    }
    assert forall|i: int| 0 <= i < t.len() implies #[trigger] t[i].handle < next2 by {
        if i < s.len() {
            assert(s[i].handle < next);
        }
    }
}

} // verus!
