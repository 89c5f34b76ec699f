//! Edge-triggered collision detection between layered axis-aligned boxes.
//!
//! A tick has two phases. Detection scans every ordered pair of entities
//! and lists those that interact now. Recording compares that list with
//! the contacts kept from the previous tick: a pair that was not in contact
//! yields one enter-event, a contact that no longer overlaps is forgotten.

use vstd::prelude::*;
use crate::entity::Entity;
use crate::geometry::{overlaps, rect_to_rect_collision};

verus! {

/// An ordered pair of handles: `(this, other)`.
pub type Pair = (u64, u64);

/// `a` reacts to `b`: both have a body, `a` targets a layer that `b` is
/// on, and their boxes overlap.
pub open spec fn interacts(a: Entity, b: Entity) -> bool {
    &&& a.handle != b.handle
    &&& a.body is Some
    &&& b.body is Some
    &&& a.body.unwrap().target_layer_mask & b.body.unwrap().self_layer_mask != 0
    &&& overlaps(a.transform, b.transform)
}

/// The pairs `(s[i], s[j])` that interact, for `j < n`, in order of `j`.
pub open spec fn row_pairs(s: Seq<Entity>, i: int, n: int) -> Seq<Pair>
    decreases n,
{
    if n <= 0 {
        seq![]
    } else if interacts(s[i], s[n - 1]) {
        row_pairs(s, i, n - 1).push((s[i].handle, s[n - 1].handle))
    } else {
        row_pairs(s, i, n - 1)
    }
}

/// The interacting pairs of the rows `i < m`, row after row.
pub open spec fn scan_pairs(s: Seq<Entity>, m: int) -> Seq<Pair>
    decreases m,
{
    if m <= 0 {
        seq![]
    } else {
        scan_pairs(s, m - 1) + row_pairs(s, m - 1, s.len() as int)
    }
}

/// The pairs of `pairs` that are not in `contacts`, each once, in order
/// of first appearance.
pub open spec fn entered(pairs: Seq<Pair>, contacts: Seq<Pair>) -> Seq<Pair>
    decreases pairs.len(),
{
    if pairs.len() == 0 {
        seq![]
    } else {
        let e = entered(pairs.drop_last(), contacts);
        let p = pairs.last();
        if contacts.contains(p) || e.contains(p) {
            e
        } else {
            e.push(p)
        }
    }
}

/// The contacts that still interact, in their order.
pub open spec fn kept(contacts: Seq<Pair>, pairs: Seq<Pair>) -> Seq<Pair>
    decreases contacts.len(),
{
    if contacts.len() == 0 {
        seq![]
    } else {
        let k = kept(contacts.drop_last(), pairs);
        if pairs.contains(contacts.last()) {
            k.push(contacts.last())
        } else {
            k
        }
    }
}

pub open spec fn all_wf(s: Seq<Entity>) -> bool {
    forall|i: int| 0 <= i < s.len() ==> #[trigger] s[i].wf()
}

fn interacting(a: &Entity, b: &Entity) -> (r: bool)
    requires
        a.wf(),
        b.wf(),
    ensures
        r == interacts(*a, *b),
{
    if a.handle == b.handle {
        return false;
    }
    match (a.body, b.body) {
        (Some(ab), Some(bb)) => {
            if ab.target_layer_mask & bb.self_layer_mask == 0 {
                return false;
            }
            rect_to_rect_collision(&a.transform, &b.transform)
        },
        _ => false,
    }
}

/// Lists every ordered pair of entities that interact this tick, scanning
/// rows in store order.
pub fn detect_collisions(entities: &Vec<Entity>) -> (r: Vec<Pair>)
    requires
        all_wf(entities@),
    ensures
        r@ == scan_pairs(entities@, entities@.len() as int),
{
    let n = entities.len();
    let mut out: Vec<Pair> = Vec::new();
    let mut i: usize = 0;
    while i < n
        invariant
            n == entities@.len(),
            all_wf(entities@),
            i <= n,
            out@ == scan_pairs(entities@, i as int),
        decreases n - i,
    {
        let mut j: usize = 0;
        while j < n
            invariant
                n == entities@.len(),
                all_wf(entities@),
                i < n,
                j <= n,
                out@ == scan_pairs(entities@, i as int) + row_pairs(entities@, i as int, j as int),
            decreases n - j,
        {
            let a = &entities[i];
            let b = &entities[j];
            if interacting(a, b) {
                out.push((a.handle, b.handle));
            }
            proof {
                let s = entities@;
                assert(scan_pairs(s, i as int) + row_pairs(s, i as int, j + 1) =~= out@);
            }
            j += 1;
        }
        i += 1;
    }
    out
}

/// `v` holds the pair `p`.
pub fn contains_pair(v: &Vec<Pair>, p: Pair) -> (r: bool)
    ensures
        r == v@.contains(p),
{
    let mut i: usize = 0;
    while i < v.len()
        invariant
            i <= v@.len(),
            forall|k: int| 0 <= k < i ==> v@[k] != p,
        decreases v@.len() - i,
    {
        if v[i].0 == p.0 && v[i].1 == p.1 {
            assert(v@[i as int] == p);
            return true;
        }
        i += 1;
    }
    false
}

/// Turns this tick's interacting pairs into enter-events: each pair not
/// already in contact yields one event and becomes a contact; contacts
/// that no longer interact are dropped.
pub fn record_contacts(contacts: &mut Vec<Pair>, pairs: &Vec<Pair>) -> (events: Vec<Pair>)
    ensures
        events@ == entered(pairs@, old(contacts)@),
        final(contacts)@ == kept(old(contacts)@, pairs@) + events@,
{
    let mut events: Vec<Pair> = Vec::new();
    let mut i: usize = 0;
    while i < pairs.len()
        invariant
            i <= pairs@.len(),
            events@ == entered(pairs@.subrange(0, i as int), contacts@),
        decreases pairs@.len() - i,
    {
        let p = pairs[i];
        proof {
            assert(pairs@.subrange(0, i + 1).drop_last() =~= pairs@.subrange(0, i as int));
        }
        if !contains_pair(contacts, p) && !contains_pair(&events, p) {
            events.push(p);
        }
        i += 1;
    }
    assert(pairs@.subrange(0, pairs@.len() as int) =~= pairs@);
    let mut next: Vec<Pair> = Vec::new();
    let mut k: usize = 0;
    while k < contacts.len()
        invariant
            k <= contacts@.len(),
            next@ == kept(contacts@.subrange(0, k as int), pairs@),
        decreases contacts@.len() - k,
    {
        let c = contacts[k];
        proof {
            assert(contacts@.subrange(0, k + 1).drop_last() =~= contacts@.subrange(0, k as int));
        }
        if contains_pair(pairs, c) {
            next.push(c);
        }
        k += 1;
    }
    assert(contacts@.subrange(0, contacts@.len() as int) =~= contacts@);
    let ghost kept_part = next@;
    let mut m: usize = 0;
    while m < events.len()
        invariant
            m <= events@.len(),
            next@ == kept_part + events@.subrange(0, m as int),
        decreases events@.len() - m,
    {
        next.push(events[m]);
        proof {
            assert(kept_part + events@.subrange(0, m + 1) =~= next@);
        }
        m += 1;
    }
    assert(events@.subrange(0, events@.len() as int) =~= events@);
    *contacts = next;
    events
}

proof fn lemma_entered_members(pairs: Seq<Pair>, contacts: Seq<Pair>)
    ensures
        forall|p: Pair|
            #[trigger] entered(pairs, contacts).contains(p) <==> (pairs.contains(p)
                && !contacts.contains(p)),
        entered(pairs, contacts).no_duplicates(),
    decreases pairs.len(),
{
    if pairs.len() > 0 {
        let init = pairs.drop_last();
        lemma_entered_members(init, contacts);
        assert forall|p: Pair| pairs.contains(p) <==> (init.contains(p) || p == pairs.last()) by {
            if pairs.contains(p) {
                let k = choose|k: int| 0 <= k < pairs.len() && pairs[k] == p;
                if k < pairs.len() - 1 {
                    assert(init[k] == p);
                }
            }
            if init.contains(p) {
                let k = choose|k: int| 0 <= k < init.len() && init[k] == p;
                assert(pairs[k] == p);
            }
            if p == pairs.last() {
                assert(pairs[pairs.len() - 1] == p);
            }
        }
        let e = entered(init, contacts);
        let q = pairs.last();
        if !(contacts.contains(q) || e.contains(q)) {
            assert forall|p: Pair| e.push(q).contains(p) <==> (e.contains(p) || p == q) by {
                if e.push(q).contains(p) {
                    let k = choose|k: int| 0 <= k < e.push(q).len() && e.push(q)[k] == p;
                    if k < e.len() {
                        assert(e[k] == p);
                    }
                }
                if e.contains(p) {
                    let k = choose|k: int| 0 <= k < e.len() && e[k] == p;
                    assert(e.push(q)[k] == p);
                }
                if p == q {
                    assert(e.push(q)[e.len() as int] == p);
                }
            }
            assert forall|a: int, b: int|
                0 <= a < e.push(q).len() && 0 <= b < e.push(q).len() && a != b implies
                e.push(q)[a] != e.push(q)[b] by {
                if a < e.len() && b < e.len() {
                } else if a < e.len() {
                    assert(e.contains(e[a]));
                } else if b < e.len() {
                    assert(e.contains(e[b]));
                }
            }
        }
        assert forall|p: Pair|
            #[trigger] entered(pairs, contacts).contains(p) <==> (pairs.contains(p)
                && !contacts.contains(p)) by {
            if !(contacts.contains(q) || e.contains(q)) {
                assert(e.push(q).contains(p) <==> (e.contains(p) || p == q));
            }
        }
    } else {
        assert forall|p: Pair|
            #[trigger] entered(pairs, contacts).contains(p) <==> (pairs.contains(p)
                && !contacts.contains(p)) by {
            assert(!pairs.contains(p));
        }
    }
}

proof fn lemma_kept_members(contacts: Seq<Pair>, pairs: Seq<Pair>)
    ensures
        forall|p: Pair|
            #[trigger] kept(contacts, pairs).contains(p) <==> (contacts.contains(p)
                && pairs.contains(p)),
    decreases contacts.len(),
{
    if contacts.len() > 0 {
        let init = contacts.drop_last();
        let q = contacts.last();
        lemma_kept_members(init, pairs);
        let k0 = kept(init, pairs);
        assert forall|p: Pair| contacts.contains(p) <==> (init.contains(p) || p == q) by {
            if contacts.contains(p) {
                let k = choose|k: int| 0 <= k < contacts.len() && contacts[k] == p;
                if k < contacts.len() - 1 {
                    assert(init[k] == p);
                }
            }
            if init.contains(p) {
                let k = choose|k: int| 0 <= k < init.len() && init[k] == p;
                assert(contacts[k] == p);
            }
            if p == q {
                assert(contacts[contacts.len() - 1] == p);
            }
        }
        assert forall|p: Pair| k0.push(q).contains(p) <==> (k0.contains(p) || p == q) by {
            if k0.push(q).contains(p) {
                let k = choose|k: int| 0 <= k < k0.push(q).len() && k0.push(q)[k] == p;
                if k < k0.len() {
                    assert(k0[k] == p);
                }
            }
            if k0.contains(p) {
                let k = choose|k: int| 0 <= k < k0.len() && k0[k] == p;
                assert(k0.push(q)[k] == p);
            }
            if p == q {
                assert(k0.push(q)[k0.len() as int] == p);
            }
        }
        assert forall|p: Pair|
            #[trigger] kept(contacts, pairs).contains(p) <==> (contacts.contains(p)
                && pairs.contains(p)) by {
            assert(contacts.contains(p) <==> (init.contains(p) || p == q));
            assert(k0.push(q).contains(p) <==> (k0.contains(p) || p == q));
        }
    } else {
        assert forall|p: Pair|
            #[trigger] kept(contacts, pairs).contains(p) <==> (contacts.contains(p)
                && pairs.contains(p)) by {
            assert(!contacts.contains(p));
        }
    }
}

proof fn lemma_concat_contains(a: Seq<Pair>, b: Seq<Pair>, p: Pair)
    ensures
        (a + b).contains(p) <==> (a.contains(p) || b.contains(p)),
{
    if (a + b).contains(p) {
        let k = choose|k: int| 0 <= k < (a + b).len() && (a + b)[k] == p;
        if k < a.len() {
            assert(a[k] == p);
        } else {
            assert(b[k - a.len()] == p);
        }
    }
    if a.contains(p) {
        let k = choose|k: int| 0 <= k < a.len() && a[k] == p;
        assert((a + b)[k] == p);
    }
    if b.contains(p) {
        let k = choose|k: int| 0 <= k < b.len() && b[k] == p;
        assert((a + b)[a.len() + k] == p);
    }
}

/// Collision-enter is edge-triggered. In one tick a pair yields an
/// enter-event exactly when it interacts now and was not in contact, and
/// never more than one; after the tick the contacts are exactly the pairs
/// that interact now.
pub proof fn lemma_enter_on_new_contact(pairs: Seq<Pair>, contacts: Seq<Pair>, p: Pair)
    ensures
        entered(pairs, contacts).contains(p) <==> (pairs.contains(p) && !contacts.contains(p)),
        entered(pairs, contacts).no_duplicates(),
        (kept(contacts, pairs) + entered(pairs, contacts)).contains(p) <==> pairs.contains(p),
{
    lemma_entered_members(pairs, contacts);
    lemma_kept_members(contacts, pairs);
    lemma_concat_contains(kept(contacts, pairs), entered(pairs, contacts), p);
}

/// Over two consecutive ticks, a pair that interacts in both yields no
/// enter-event in the second: an overlap that lasts fires once, on the
/// tick it begins.
pub proof fn lemma_sustained_contact_is_silent(
    contacts: Seq<Pair>,
    first: Seq<Pair>,
    second: Seq<Pair>,
    p: Pair,
)
    ensures
        entered(second, kept(contacts, first) + entered(first, contacts)).contains(p) <==> (
        second.contains(p) && !first.contains(p)),
{
    lemma_enter_on_new_contact(first, contacts, p);
    lemma_enter_on_new_contact(second, kept(contacts, first) + entered(first, contacts), p);
}

proof fn lemma_row_pairs_below(s: Seq<Entity>, i: int, n: int, next: u64)
    requires
        0 <= i < s.len(),
        n <= s.len(),
        forall|k: int| 0 <= k < s.len() ==> (#[trigger] s[k]).handle < next,
    ensures
        forall|k: int|
            0 <= k < row_pairs(s, i, n).len() ==> (#[trigger] row_pairs(s, i, n)[k]).0 < next
                && row_pairs(s, i, n)[k].1 < next,
    decreases n,
{
    if n > 0 {
        lemma_row_pairs_below(s, i, n - 1, next);
        assert(s[n - 1].handle < next && s[i].handle < next);
        let r0 = row_pairs(s, i, n - 1);
        if interacts(s[i], s[n - 1]) {
            let r = r0.push((s[i].handle, s[n - 1].handle));
            assert forall|k: int| 0 <= k < r.len() implies (#[trigger] r[k]).0 < next && r[k].1 < next by {
                if k < r0.len() {
                    assert(r[k] == r0[k]);
                }
            }
        }
    }
}

proof fn lemma_scan_pairs_below(s: Seq<Entity>, m: int, next: u64)
    requires
        m <= s.len(),
        forall|k: int| 0 <= k < s.len() ==> (#[trigger] s[k]).handle < next,
    ensures
        forall|k: int|
            0 <= k < scan_pairs(s, m).len() ==> (#[trigger] scan_pairs(s, m)[k]).0 < next
                && scan_pairs(s, m)[k].1 < next,
    decreases m,
{
    if m > 0 {
        lemma_scan_pairs_below(s, m - 1, next);
        lemma_row_pairs_below(s, m - 1, s.len() as int, next);
        let a = scan_pairs(s, m - 1);
        let b = row_pairs(s, m - 1, s.len() as int);
        assert forall|k: int| 0 <= k < (a + b).len() implies (#[trigger] (a + b)[k]).0 < next
            && (a + b)[k].1 < next by {
            if k < a.len() {
                assert((a + b)[k] == a[k]);
            } else {
                assert((a + b)[k] == b[k - a.len()]);
            }
        }
    }
}

/// After recording, the contacts name only handles of this tick's entities
/// or of contacts kept from before.
pub proof fn lemma_contacts_stay_below(s: Seq<Entity>, contacts: Seq<Pair>, next: u64)
    requires
        forall|k: int| 0 <= k < s.len() ==> (#[trigger] s[k]).handle < next,
    ensures
        forall|k: int|
            0 <= k < (kept(contacts, scan_pairs(s, s.len() as int)) + entered(
                scan_pairs(s, s.len() as int),
                contacts,
            )).len() ==> (#[trigger] (kept(contacts, scan_pairs(s, s.len() as int)) + entered(
                scan_pairs(s, s.len() as int),
                contacts,
            ))[k]).0 < next && (kept(contacts, scan_pairs(s, s.len() as int)) + entered(
                scan_pairs(s, s.len() as int),
                contacts,
            ))[k].1 < next,
{
    let pairs = scan_pairs(s, s.len() as int);
    let c = kept(contacts, pairs) + entered(pairs, contacts);
    lemma_scan_pairs_below(s, s.len() as int, next);
    assert forall|k: int| 0 <= k < c.len() implies (#[trigger] c[k]).0 < next && c[k].1 < next by {
        let p = c[k];
        assert(c.contains(p));
        lemma_enter_on_new_contact(pairs, contacts, p);
        let j = choose|j: int| 0 <= j < pairs.len() && pairs[j] == p;
    }
}

/// The contacts after recording each tick's interacting pairs in turn,
/// starting from `c0`.
pub open spec fn contacts_after(c0: Seq<Pair>, ticks: Seq<Seq<Pair>>) -> Seq<Pair>
    decreases ticks.len(),
{
    if ticks.len() == 0 {
        c0
    } else {
        let c = contacts_after(c0, ticks.drop_last());
        kept(c, ticks.last()) + entered(ticks.last(), c)
    }
}

/// How many of those ticks yield an enter-event for `p`.
pub open spec fn enter_count(c0: Seq<Pair>, ticks: Seq<Seq<Pair>>, p: Pair) -> nat
    decreases ticks.len(),
{
    if ticks.len() == 0 {
        0
    } else {
        enter_count(c0, ticks.drop_last(), p) + if entered(
            ticks.last(),
            contacts_after(c0, ticks.drop_last()),
        ).contains(p) {
            1nat
        } else {
            0nat
        }
    }
}

/// How many ticks begin an overlap of `p`: it interacts on the tick and
/// did not on the tick before.
pub open spec fn overlap_starts(ticks: Seq<Seq<Pair>>, p: Pair) -> nat
    decreases ticks.len(),
{
    if ticks.len() == 0 {
        0
    } else {
        overlap_starts(ticks.drop_last(), p) + if ticks.last().contains(p) && !(ticks.len() >= 2
            && ticks[ticks.len() - 2].contains(p)) {
            1nat
        } else {
            0nat
        }
    }
}

proof fn lemma_contacts_after_members(c0: Seq<Pair>, ticks: Seq<Seq<Pair>>, p: Pair)
    requires
        ticks.len() > 0,
    ensures
        contacts_after(c0, ticks).contains(p) <==> ticks.last().contains(p),
{
    let c = contacts_after(c0, ticks.drop_last());
    lemma_enter_on_new_contact(ticks.last(), c, p);
}

/// Over any run of ticks that starts without `p` in contact, `p` yields
/// exactly one enter-event per contiguous stretch of ticks on which it
/// interacts: the count of its enter-events equals the count of ticks
/// that begin such a stretch.
pub proof fn lemma_enter_once_per_overlap(c0: Seq<Pair>, ticks: Seq<Seq<Pair>>, p: Pair)
    requires
        !c0.contains(p),
    ensures
        enter_count(c0, ticks, p) == overlap_starts(ticks, p),
    decreases ticks.len(),
{
    if ticks.len() > 0 {
        let init = ticks.drop_last();
        lemma_enter_once_per_overlap(c0, init, p);
        let c = contacts_after(c0, init);
        lemma_enter_on_new_contact(ticks.last(), c, p);
        if init.len() > 0 {
            lemma_contacts_after_members(c0, init, p);
            assert(init.last() == ticks[ticks.len() - 2]);
        }
    }
}

} // verus!
