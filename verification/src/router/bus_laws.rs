//! What the event bus promises of delivery: an event goes to exactly the
//! subscriptions that take it, and never to one that was removed.

use vstd::prelude::*;

use super::event::Event;
use super::event_bus::{
    event_types, has_id, head_ok, ids_by_type, ids_taking, matching_ids, of_type, without_id, SubscriptionEntry,
};

verus! {

type Name = Seq<char>;

/// The ids taken from a list belong to subscriptions of it that take the
/// event, and every subscription of it that takes the event is there.
proof fn lemma_ids_taking<C>(s: Seq<SubscriptionEntry<C>>, ev: Event)
    ensures
        forall|x: Name| #[trigger]
            ids_taking(s, ev).contains(x) ==> exists|i: int|
                0 <= i < s.len() && #[trigger] s[i].subscription_id@ == x && head_ok(s[i], ev),
        forall|i: int| 0 <= i < s.len() && head_ok(#[trigger] s[i], ev) ==> ids_taking(s, ev).contains(s[i].subscription_id@),
    decreases s.len(),
{
    if s.len() > 0 {
        let p = s.drop_last();
        lemma_ids_taking(p, ev);
        let r = ids_taking(p, ev);
        assert forall|x: Name| #[trigger] ids_taking(s, ev).contains(x) implies exists|i: int|
            0 <= i < s.len() && #[trigger] s[i].subscription_id@ == x && head_ok(s[i], ev) by {
            if r.contains(x) {
                let i = choose|i: int| 0 <= i < p.len() && #[trigger] p[i].subscription_id@ == x && head_ok(p[i], ev);
                assert(s[i] == p[i]);
            } else {
                let k = choose|k: int| 0 <= k < ids_taking(s, ev).len() && ids_taking(s, ev)[k] == x;
                assert(k == r.len());
                assert(s[s.len() - 1] == s.last());
            }
        }
        assert forall|i: int| 0 <= i < s.len() && head_ok(#[trigger] s[i], ev) implies ids_taking(s, ev).contains(
            s[i].subscription_id@,
        ) by {
            if i < s.len() - 1 {
                assert(p[i] == s[i]);
                assert(r.contains(s[i].subscription_id@));
                let k = choose|k: int| 0 <= k < r.len() && r[k] == s[i].subscription_id@;
                if head_ok(s.last(), ev) {
                    assert(r.push(s.last().subscription_id@)[k] == s[i].subscription_id@);
                }
            } else {
                assert(s[i] == s.last());
                assert(ids_taking(s, ev)[r.len() as int] == s[i].subscription_id@);
            }
        }
    }
}

/// The subscriptions of a pattern are those of the list with that pattern.
proof fn lemma_of_type<C>(s: Seq<SubscriptionEntry<C>>, t: Name)
    ensures
        forall|j: int|
            0 <= j < of_type(s, t).len() ==> exists|i: int| 0 <= i < s.len() && s[i] == #[trigger] of_type(s, t)[j],
        forall|j: int| 0 <= j < of_type(s, t).len() ==> (#[trigger] of_type(s, t)[j]).event_type@ == t,
        forall|i: int| 0 <= i < s.len() && (#[trigger] s[i]).event_type@ == t ==> of_type(s, t).contains(s[i]),
    decreases s.len(),
{
    if s.len() > 0 {
        let p = s.drop_last();
        lemma_of_type(p, t);
        let r = of_type(p, t);
        assert forall|j: int| 0 <= j < of_type(s, t).len() implies exists|i: int|
            0 <= i < s.len() && s[i] == #[trigger] of_type(s, t)[j] by {
            if j < r.len() {
                let i = choose|i: int| 0 <= i < p.len() && p[i] == r[j];
                assert(s[i] == p[i]);
                assert(of_type(s, t)[j] == r[j]);
            } else {
                assert(of_type(s, t)[j] == s.last());
                assert(s[s.len() - 1] == s.last());
            }
        }
        assert forall|j: int| 0 <= j < of_type(s, t).len() implies (#[trigger] of_type(s, t)[j]).event_type@ == t by {
            if j < r.len() {
                assert(of_type(s, t)[j] == r[j]);
            }
        }
        assert forall|i: int| 0 <= i < s.len() && (#[trigger] s[i]).event_type@ == t implies of_type(s, t).contains(
            s[i],
        ) by {
            if i < s.len() - 1 {
                assert(p[i] == s[i]);
                let k = choose|k: int| 0 <= k < r.len() && r[k] == s[i];
                assert(of_type(s, t)[k] == s[i]);
            } else {
                assert(s[i] == s.last());
                assert(of_type(s, t)[r.len() as int] == s[i]);
            }
        }
    }
}

/// The event types listed are those of the subscriptions.
proof fn lemma_event_types<C>(s: Seq<SubscriptionEntry<C>>)
    ensures
        forall|t: Name| #[trigger]
            event_types(s).contains(t) <==> exists|i: int| 0 <= i < s.len() && (#[trigger] s[i]).event_type@ == t,
    decreases s.len(),
{
    if s.len() > 0 {
        let p = s.drop_last();
        lemma_event_types(p);
        let r = event_types(p);
        assert forall|t: Name| #[trigger]
            event_types(s).contains(t) <==> exists|i: int| 0 <= i < s.len() && (#[trigger] s[i]).event_type@ == t by {
            if event_types(s).contains(t) {
                if r.contains(t) {
                    let i = choose|i: int| 0 <= i < p.len() && (#[trigger] p[i]).event_type@ == t;
                    assert(s[i] == p[i]);
                } else {
                    let k = choose|k: int| 0 <= k < event_types(s).len() && event_types(s)[k] == t;
                    assert(k == r.len());
                    assert(s[s.len() - 1] == s.last());
                }
            }
            if exists|i: int| 0 <= i < s.len() && (#[trigger] s[i]).event_type@ == t {
                let i = choose|i: int| 0 <= i < s.len() && (#[trigger] s[i]).event_type@ == t;
                if i < s.len() - 1 {
                    assert(p[i] == s[i]);
                    assert(r.contains(t));
                    let k = choose|k: int| 0 <= k < r.len() && r[k] == t;
                    if !r.contains(s.last().event_type@) {
                        assert(r.push(s.last().event_type@)[k] == t);
                    }
                } else {
                    assert(s[i] == s.last());
                    if !r.contains(t) {
                        assert(event_types(s)[r.len() as int] == t);
                    }
                }
            }
        }
    }
}

/// The ids the first `n` event types contribute belong to subscriptions
/// that take the event; a subscription that takes it is among them when its
/// pattern is one of those types.
proof fn lemma_ids_by_type<C>(s: Seq<SubscriptionEntry<C>>, ev: Event, n: nat)
    requires
        n <= event_types(s).len(),
    ensures
        forall|x: Name| #[trigger]
            ids_by_type(s, ev, n).contains(x) ==> exists|i: int|
                0 <= i < s.len() && #[trigger] s[i].subscription_id@ == x && head_ok(s[i], ev),
        forall|i: int, k: int|
            0 <= i < s.len() && 0 <= k < n && head_ok(#[trigger] s[i], ev) && s[i].event_type@ == #[trigger] event_types(
                s,
            )[k] ==> ids_by_type(s, ev, n).contains(s[i].subscription_id@),
    decreases n,
{
    if n > 0 {
        lemma_ids_by_type(s, ev, (n - 1) as nat);
        let r = ids_by_type(s, ev, (n - 1) as nat);
        let t = event_types(s)[n - 1];
        let o = of_type(s, t);
        lemma_ids_taking(o, ev);
        lemma_of_type(s, t);
        let a = ids_taking(o, ev);
        assert forall|x: Name| #[trigger] ids_by_type(s, ev, n).contains(x) implies exists|i: int|
            0 <= i < s.len() && #[trigger] s[i].subscription_id@ == x && head_ok(s[i], ev) by {
            if r.contains(x) {
            } else {
                let k = choose|k: int| 0 <= k < ids_by_type(s, ev, n).len() && ids_by_type(s, ev, n)[k] == x;
                assert(ids_by_type(s, ev, n) == r + a);
                assert(a[k - r.len()] == x);
                assert(a.contains(x));
                let j = choose|j: int| 0 <= j < o.len() && #[trigger] o[j].subscription_id@ == x && head_ok(o[j], ev);
                let i = choose|i: int| 0 <= i < s.len() && s[i] == #[trigger] o[j];
                assert(s[i].subscription_id@ == x);
            }
        }
        assert forall|i: int, k: int|
            0 <= i < s.len() && 0 <= k < n && head_ok(#[trigger] s[i], ev) && s[i].event_type@ == #[trigger] event_types(
                s,
            )[k] implies ids_by_type(s, ev, n).contains(s[i].subscription_id@) by {
            let id = s[i].subscription_id@;
            if k < n - 1 {
                assert(r.contains(id));
                let q = choose|q: int| 0 <= q < r.len() && r[q] == id;
                if super::event_bus::bus_pattern_matches(t, ev.event_type@) {
                    assert((r + a)[q] == id);
                }
            } else {
                assert(s[i].event_type@ == t);
                assert(o.contains(s[i]));
                let j = choose|j: int| 0 <= j < o.len() && o[j] == s[i];
                assert(head_ok(o[j], ev));
                assert(a.contains(id));
                let q = choose|q: int| 0 <= q < a.len() && a[q] == id;
                assert(super::event_bus::bus_pattern_matches(t, ev.event_type@));
                assert((r + a)[r.len() + q] == id);
            }
        }
    }
}

/// An event goes to a subscription only when that subscription takes it:
/// it is enabled, its pattern matches the event's type, and its filter
/// lets the event through.
pub proof fn lemma_delivered_only_to_takers<C>(s: Seq<SubscriptionEntry<C>>, ev: Event)
    ensures
        forall|x: Name| #[trigger]
            matching_ids(s, ev).contains(x) ==> exists|i: int|
                0 <= i < s.len() && #[trigger] s[i].subscription_id@ == x && head_ok(s[i], ev),
{
    lemma_ids_by_type(s, ev, event_types(s).len());
    let w = of_type(s, seq!['*']);
    lemma_ids_taking(w, ev);
    lemma_of_type(s, seq!['*']);
    let b = ids_by_type(s, ev, event_types(s).len());
    let c: Seq<Name> = if event_types(s).contains(seq!['*']) {
        ids_taking(w, ev)
    } else {
        Seq::empty()
    };
    assert forall|x: Name| #[trigger] matching_ids(s, ev).contains(x) implies exists|i: int|
        0 <= i < s.len() && #[trigger] s[i].subscription_id@ == x && head_ok(s[i], ev) by {
        let k = choose|k: int| 0 <= k < matching_ids(s, ev).len() && matching_ids(s, ev)[k] == x;
        assert(matching_ids(s, ev) == b + c);
        if k < b.len() {
            assert(b[k] == x);
            assert(b.contains(x));
        } else {
            assert(c[k - b.len()] == x);
            assert(ids_taking(w, ev).contains(x));
            let j = choose|j: int| 0 <= j < w.len() && #[trigger] w[j].subscription_id@ == x && head_ok(w[j], ev);
            let i = choose|i: int| 0 <= i < s.len() && s[i] == #[trigger] w[j];
            assert(s[i].subscription_id@ == x);
        }
    }
}

/// Every subscription that takes an event receives it.
pub proof fn lemma_takers_receive<C>(s: Seq<SubscriptionEntry<C>>, ev: Event)
    ensures
        forall|i: int| 0 <= i < s.len() && head_ok(#[trigger] s[i], ev) ==> matching_ids(s, ev).contains(s[i].subscription_id@),
{
    lemma_ids_by_type(s, ev, event_types(s).len());
    lemma_event_types(s);
    let b = ids_by_type(s, ev, event_types(s).len());
    let c: Seq<Name> = if event_types(s).contains(seq!['*']) {
        ids_taking(of_type(s, seq!['*']), ev)
    } else {
        Seq::empty()
    };
    assert forall|i: int| 0 <= i < s.len() && head_ok(#[trigger] s[i], ev) implies matching_ids(s, ev).contains(
        s[i].subscription_id@,
    ) by {
        let t = s[i].event_type@;
        assert(event_types(s).contains(t));
        let k = choose|k: int| 0 <= k < event_types(s).len() && event_types(s)[k] == t;
        assert(b.contains(s[i].subscription_id@));
        let q = choose|q: int| 0 <= q < b.len() && b[q] == s[i].subscription_id@;
        assert(matching_ids(s, ev) == b + c);
        assert((b + c)[q] == s[i].subscription_id@);
    }
}

/// Removing the subscriptions with an id leaves none with it.
proof fn lemma_without_id<C>(s: Seq<SubscriptionEntry<C>>, id: Name)
    ensures
        !has_id(without_id(s, id), id),
    decreases s.len(),
{
    if s.len() > 0 {
        lemma_without_id(s.drop_last(), id);
        let r = without_id(s.drop_last(), id);
        if s.last().subscription_id@ != id {
            assert forall|i: int| 0 <= i < r.push(s.last()).len() implies (#[trigger] r.push(s.last())[i]).subscription_id@
                != id by {
                if i < r.len() {
                    assert(r.push(s.last())[i] == r[i]);
                }
            }
        }
    }
}

/// Once a subscription is removed, no event reaches it.
pub proof fn lemma_unsubscribed_receives_nothing<C>(s: Seq<SubscriptionEntry<C>>, id: Name, ev: Event)
    ensures
        !matching_ids(without_id(s, id), ev).contains(id),
{
    let u = without_id(s, id);
    lemma_without_id(s, id);
    lemma_delivered_only_to_takers(u, ev);
    if matching_ids(u, ev).contains(id) {
        let i = choose|i: int| 0 <= i < u.len() && #[trigger] u[i].subscription_id@ == id && head_ok(u[i], ev);
        assert(has_id(u, id));
    }
}

} // verus!
