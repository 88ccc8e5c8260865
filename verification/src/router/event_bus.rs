//! The event bus: subscriptions, and which subscriptions an event goes to.
//!
//! The bus keeps its subscriptions in the order they were made. Running the
//! callbacks, with their timeouts, is left to the caller: the bus says which
//! subscriptions an event goes to, and records how each delivery went.
//! Times are milliseconds since the Unix epoch.

use vstd::prelude::*;

use super::event::{filter_matches, type_pattern_matches, Event, EventFilter};
use crate::utils::clock::now_millis;
use crate::utils::error::{CoreError, ErrorView};
use crate::utils::id::{generate_id, is_id};
use crate::utils::text::str_eq;

verus! {

/// Seconds a callback may run when the configuration does not say.
pub const DEFAULT_HANDLER_TIMEOUT_SECS: u64 = 5;

/// A subscription held by the bus, with its callback.
pub struct SubscriptionEntry<C> {
    /// Unique subscription id.
    pub subscription_id: String,
    /// Module that subscribed.
    pub subscriber_id: String,
    /// Pattern of event types.
    pub event_type: String,
    /// Further filter, if any.
    pub filter: Option<EventFilter>,
    /// What to call with a matching event.
    pub callback: C,
    /// When the subscription was made.
    pub subscribed_at: i64,
    /// Whether the subscription is in use.
    pub enabled: bool,
}

/// Whether event-type pattern `pattern` matches `value`, as the bus
/// decides: like [`type_pattern_matches`], except that `p.*` needs at least
/// one more character after `p`.
pub open spec fn bus_pattern_matches(pattern: Seq<char>, value: Seq<char>) -> bool {
    if pattern.len() >= 2 && pattern != seq!['*'] && pattern.skip(pattern.len() - 2) == seq!['.', '*'] {
        type_pattern_matches(pattern, value) && value.len() > pattern.len() - 2
    } else {
        type_pattern_matches(pattern, value)
    }
}

impl<C> SubscriptionEntry<C> {
    /// Whether event-type pattern `pattern` matches `value` (see
    /// [`bus_pattern_matches`]).
    pub fn matches_pattern(pattern: &str, value: &str) -> (r: bool)
        ensures
            r == bus_pattern_matches(pattern@, value@),
    {
        let m = EventFilter::matches_pattern(pattern, value);
        let pl = pattern.as_bytes().len();
        let ps = crate::utils::text::chars_of(pattern);
        let vs = crate::utils::text::chars_of(value);
        let n = ps.len();
        if n >= 2 && !(n == 1) && ps[n - 2] == '.' && ps[n - 1] == '*' {
            proof {
                assert(pattern@.skip(pattern@.len() - 2) =~= seq!['.', '*']);
            }
            m && vs.len() > n - 2
        } else {
            proof {
                if pattern@.len() >= 2 && pattern@.skip(pattern@.len() - 2) == seq!['.', '*'] {
                    assert(pattern@.skip(pattern@.len() - 2)[0] == ps@[n - 2]);
                    assert(pattern@.skip(pattern@.len() - 2)[1] == ps@[n - 1]);
                }
            }
            m
        }
    }
}

/// The event types of the subscriptions, each once, in the order first
/// subscribed.
pub open spec fn event_types<C>(s: Seq<SubscriptionEntry<C>>) -> Seq<Seq<char>>
    decreases s.len(),
{
    if s.len() == 0 {
        Seq::empty()
    } else {
        let r = event_types(s.drop_last());
        if r.contains(s.last().event_type@) { r } else { r.push(s.last().event_type@) }
    }
}

/// The subscriptions of event-type pattern `t`, in order.
pub open spec fn of_type<C>(s: Seq<SubscriptionEntry<C>>, t: Seq<char>) -> Seq<SubscriptionEntry<C>>
    decreases s.len(),
{
    if s.len() == 0 {
        Seq::empty()
    } else {
        let r = of_type(s.drop_last(), t);
        if s.last().event_type@ == t { r.push(s.last()) } else { r }
    }
}

/// The subscriptions without those with id `id`.
pub open spec fn without_id<C>(s: Seq<SubscriptionEntry<C>>, id: Seq<char>) -> Seq<SubscriptionEntry<C>>
    decreases s.len(),
{
    if s.len() == 0 {
        Seq::empty()
    } else {
        let r = without_id(s.drop_last(), id);
        if s.last().subscription_id@ == id { r } else { r.push(s.last()) }
    }
}

/// The subscriptions without those of subscriber `m`.
pub open spec fn without_subscriber<C>(s: Seq<SubscriptionEntry<C>>, m: Seq<char>) -> Seq<SubscriptionEntry<C>>
    decreases s.len(),
{
    if s.len() == 0 {
        Seq::empty()
    } else {
        let r = without_subscriber(s.drop_last(), m);
        if s.last().subscriber_id@ == m { r } else { r.push(s.last()) }
    }
}

/// The ids of the subscriptions of subscriber `m`, in order.
pub open spec fn ids_of_subscriber<C>(s: Seq<SubscriptionEntry<C>>, m: Seq<char>) -> Seq<Seq<char>>
    decreases s.len(),
{
    if s.len() == 0 {
        Seq::empty()
    } else {
        let r = ids_of_subscriber(s.drop_last(), m);
        if s.last().subscriber_id@ == m { r.push(s.last().subscription_id@) } else { r }
    }
}

/// Whether some subscription has id `id`.
pub open spec fn has_id<C>(s: Seq<SubscriptionEntry<C>>, id: Seq<char>) -> bool {
    exists|i: int| 0 <= i < s.len() && #[trigger] s[i].subscription_id@ == id
}

/// Delivery counts of the bus.
#[derive(Debug, Clone, Copy)]
pub struct DispatchStats {
    /// Deliveries made.
    pub total_dispatched: u64,
    /// Deliveries whose callback returned.
    pub successful: u64,
    /// Deliveries whose callback failed.
    pub failed: u64,
    /// Deliveries whose callback ran out of time.
    pub timeouts: u64,
    /// When the last delivery was recorded.
    pub last_dispatch_at: Option<i64>,
}

impl Default for DispatchStats {
    fn default() -> (r: Self)
        ensures
            r.total_dispatched == 0,
            r.successful == 0,
            r.failed == 0,
            r.timeouts == 0,
            r.last_dispatch_at is None,
    {
        DispatchStats { total_dispatched: 0, successful: 0, failed: 0, timeouts: 0, last_dispatch_at: None }
    }
}

/// How a delivery went.
#[derive(Debug, Clone, PartialEq, Eq)]
pub enum DispatchResult {
    /// The callback returned.
    Success,
    /// The callback failed, with the reason.
    Failed(String),
    /// The callback ran out of time.
    Timeout,
}

/// How many of `rs` are successes, failures and timeouts.
pub open spec fn tally_of(rs: Seq<DispatchResult>) -> (nat, nat, nat)
    decreases rs.len(),
{
    if rs.len() == 0 {
        (0, 0, 0)
    } else {
        let (s, f, t) = tally_of(rs.drop_last());
        match rs.last() {
            DispatchResult::Success => (s + 1, f, t),
            DispatchResult::Failed(_) => (s, f + 1, t),
            DispatchResult::Timeout => (s, f, t + 1),
        }
    }
}

/// How many of `results` are successes, failures and timeouts.
pub fn tally(results: &Vec<DispatchResult>) -> (r: (usize, usize, usize))
    ensures
        r.0 == tally_of(results@).0,
        r.1 == tally_of(results@).1,
        r.2 == tally_of(results@).2,
{
    let mut s: usize = 0;
    let mut f: usize = 0;
    let mut t: usize = 0;
    let mut i: usize = 0;
    proof {
        assert(results@.take(0) =~= Seq::<DispatchResult>::empty());
    }
    while i < results.len()
        invariant
            i <= results.len(),
            s + f + t == i,
            (s as nat, f as nat, t as nat) == tally_of(results@.take(i as int)),
        decreases results.len() - i,
    {
        proof {
            assert(results@.take(i + 1).drop_last() =~= results@.take(i as int));
        }
        match &results[i] {
            DispatchResult::Success => s = s + 1,
            DispatchResult::Failed(_) => f = f + 1,
            DispatchResult::Timeout => t = t + 1,
        }
        i = i + 1;
    }
    proof {
        assert(results@.take(results.len() as int) =~= results@);
    }
    (s, f, t)
}

impl DispatchStats {
    /// Records one delivery with outcome `result` at time `now`. Counts
    /// wrap around at `u64::MAX`.
    pub fn record(&mut self, result: &DispatchResult, now: i64)
        ensures
            final(self).total_dispatched == old(self).total_dispatched.wrapping_add(1),
            final(self).successful == if *result == DispatchResult::Success { old(self).successful.wrapping_add(1) } else { old(self).successful },
            final(self).failed == if result is Failed { old(self).failed.wrapping_add(1) } else { old(self).failed },
            final(self).timeouts == if *result == DispatchResult::Timeout { old(self).timeouts.wrapping_add(1) } else { old(self).timeouts },
            final(self).last_dispatch_at == Some(now),
    {
        self.total_dispatched = self.total_dispatched.wrapping_add(1);
        self.last_dispatch_at = Some(now);
        match result {
            DispatchResult::Success => self.successful = self.successful.wrapping_add(1),
            DispatchResult::Failed(_) => self.failed = self.failed.wrapping_add(1),
            DispatchResult::Timeout => self.timeouts = self.timeouts.wrapping_add(1),
        }
    }

    /// Records the outcomes `results` of one publication at time `now`:
    /// the counts grow by how many deliveries, successes, failures and
    /// timeouts there were. Counts wrap around at `u64::MAX`.
    pub fn record_all(&mut self, results: &Vec<DispatchResult>, now: i64) -> (r: (usize, usize, usize))
        ensures
            r.0 == tally_of(results@).0,
            r.1 == tally_of(results@).1,
            r.2 == tally_of(results@).2,
            final(self).total_dispatched == old(self).total_dispatched.wrapping_add(results@.len() as u64),
            final(self).successful == old(self).successful.wrapping_add(r.0 as u64),
            final(self).failed == old(self).failed.wrapping_add(r.1 as u64),
            final(self).timeouts == old(self).timeouts.wrapping_add(r.2 as u64),
            final(self).last_dispatch_at == Some(now),
    {
        let (s, f, t) = tally(results);
        self.total_dispatched = self.total_dispatched.wrapping_add(results.len() as u64);
        self.successful = self.successful.wrapping_add(s as u64);
        self.failed = self.failed.wrapping_add(f as u64);
        self.timeouts = self.timeouts.wrapping_add(t as u64);
        self.last_dispatch_at = Some(now);
        (s, f, t)
    }
}

/// Settings of the bus.
#[derive(Debug, Clone, Copy)]
pub struct EventBusConfig {
    /// How long a callback may run, in milliseconds.
    pub handler_timeout_ms: u64,
    /// Whether callbacks of one event run concurrently.
    pub concurrent_dispatch: bool,
    /// Most callbacks running at once.
    pub max_concurrent_handlers: usize,
}

impl Default for EventBusConfig {
    fn default() -> (r: Self)
        ensures
            r.handler_timeout_ms == DEFAULT_HANDLER_TIMEOUT_SECS * 1000,
            r.concurrent_dispatch,
            r.max_concurrent_handlers == 100,
    {
        EventBusConfig {
            handler_timeout_ms: DEFAULT_HANDLER_TIMEOUT_SECS * 1000,
            concurrent_dispatch: true,
            max_concurrent_handlers: 100,
        }
    }
}

/// The event bus: subscriptions with their callbacks of type `C`, delivery
/// counts, and settings.
pub struct EventBus<C> {
    subscriptions: Vec<SubscriptionEntry<C>>,
    stats: DispatchStats,
    config: EventBusConfig,
}

impl<C> EventBus<C> {
    /// The subscriptions, in the order they were made.
    pub closed spec fn subs(&self) -> Seq<SubscriptionEntry<C>> {
        self.subscriptions@
    }

    /// The delivery counts.
    pub closed spec fn counts(&self) -> DispatchStats {
        self.stats
    }

    /// The settings.
    pub closed spec fn settings(&self) -> EventBusConfig {
        self.config
    }

    /// A bus with no subscription and the default settings.
    pub fn new() -> (r: Self)
        ensures
            r.subs().len() == 0,
            r.settings().handler_timeout_ms == 5000,
            r.settings().concurrent_dispatch,
            r.settings().max_concurrent_handlers == 100,
            r.counts().total_dispatched == 0,
    {
        Self::with_config(EventBusConfig::default())
    }

    /// A bus with no subscription and settings `config`.
    pub fn with_config(config: EventBusConfig) -> (r: Self)
        ensures
            r.subs().len() == 0,
            r.settings() == config,
            r.counts().total_dispatched == 0,
            r.counts().successful == 0,
            r.counts().failed == 0,
            r.counts().timeouts == 0,
            r.counts().last_dispatch_at is None,
    {
        EventBus { subscriptions: Vec::new(), stats: DispatchStats::default(), config }
    }

    /// The settings.
    pub fn config(&self) -> (r: &EventBusConfig)
        ensures
            *r == self.settings(),
    {
        &self.config
    }

    /// Subscribes `subscriber_id` to events of type pattern `event_type`,
    /// with `filter` and `callback`. Returns the id of the new
    /// subscription, a fresh base-62 id; the subscription is enabled and
    /// comes after every other.
    pub fn subscribe(
        &mut self,
        subscriber_id: &str,
        event_type: &str,
        filter: Option<EventFilter>,
        callback: C,
    ) -> (r: Result<String, CoreError>)
        ensures
            r matches Ok(id) && is_id(id@) && final(self).subs().len() == old(self).subs().len() + 1
                && final(self).subs().drop_last() == old(self).subs() && final(self).subs().last().subscription_id@ == id@
                && final(self).subs().last().subscriber_id@ == subscriber_id@
                && final(self).subs().last().event_type@ == event_type@
                && final(self).subs().last().filter == filter
                && final(self).subs().last().callback == callback
                && final(self).subs().last().enabled,
            final(self).counts() == old(self).counts(),
            final(self).settings() == old(self).settings(),
    {
        let id = generate_id();
        let entry = SubscriptionEntry {
            subscription_id: id.clone(),
            subscriber_id: subscriber_id.to_owned(),
            event_type: event_type.to_owned(),
            filter,
            callback,
            subscribed_at: now_millis(),
            enabled: true,
        };
        let ghost s0 = self.subscriptions@;
        self.subscriptions.push(entry);
        proof {
            assert(self.subscriptions@.drop_last() =~= s0);
        }
        Ok(id)
    }

    /// Removes the subscriptions with id `subscription_id`; fails with
    /// `SubscriptionNotFound`, changing nothing, if there is none.
    pub fn unsubscribe(&mut self, subscription_id: &str) -> (r: Result<(), CoreError>)
        ensures
            has_id(old(self).subs(), subscription_id@) ==> r is Ok && final(self).subs() == without_id(
                old(self).subs(),
                subscription_id@,
            ),
            !has_id(old(self).subs(), subscription_id@) ==> (r matches Err(e) && e@ == ErrorView::SubscriptionNotFound(
                subscription_id@,
            )) && final(self).subs() == old(self).subs(),
            final(self).counts() == old(self).counts(),
            final(self).settings() == old(self).settings(),
    {
        let ghost s0 = self.subscriptions@;
        let mut kept: Vec<SubscriptionEntry<C>> = Vec::new();
        let mut old_subs: Vec<SubscriptionEntry<C>> = Vec::new();
        std::mem::swap(&mut old_subs, &mut self.subscriptions);
        proof {
            assert(old_subs@.len() == old_subs.len());
        }
        let mut found = false;
        let mut i: usize = 0;
        proof {
            assert(s0.take(0) =~= Seq::<SubscriptionEntry<C>>::empty());
            assert(kept@ =~= without_id(s0.take(0), subscription_id@));
        }
        while old_subs.len() > 0
            invariant
                i <= s0.len(),
                s0.len() <= usize::MAX,
                old_subs@ == s0.skip(i as int),
                kept@ == without_id(s0.take(i as int), subscription_id@),
                found == has_id(s0.take(i as int), subscription_id@),
            decreases old_subs.len(),
        {
            let e = old_subs.remove(0);
            proof {
                assert(e == s0[i as int]);
                assert(s0.take(i + 1).drop_last() =~= s0.take(i as int));
                assert(s0.take(i + 1).last() == e);
                assert(old_subs@ =~= s0.skip(i + 1));
                if has_id(s0.take(i as int), subscription_id@) {
                    let j = choose|j: int| 0 <= j < i && #[trigger] s0.take(i as int)[j].subscription_id@ == subscription_id@;
                    assert(s0.take(i + 1)[j] == s0.take(i as int)[j]);
                }
                if has_id(s0.take(i + 1), subscription_id@) {
                    let j = choose|j: int| 0 <= j < i + 1 && #[trigger] s0.take(i + 1)[j].subscription_id@ == subscription_id@;
                    if j < i {
                        assert(s0.take(i as int)[j] == s0.take(i + 1)[j]);
                    }
                }
            }
            if str_eq(e.subscription_id.as_str(), subscription_id) {
                found = true;
            } else {
                kept.push(e);
            }
            i = i + 1;
        }
        proof {
            assert(s0.take(i as int) =~= s0);
        }
        if !found {
            self.subscriptions = old_subs;
            self.subscriptions = kept;
            proof {
                lemma_without_absent_id(s0, subscription_id@);
            }
            return Err(CoreError::SubscriptionNotFound(subscription_id.to_owned()));
        }
        self.subscriptions = kept;
        Ok(())
    }

    /// Removes every subscription of `subscriber_id`; returns how many
    /// there were.
    pub fn unsubscribe_all(&mut self, subscriber_id: &str) -> (r: Result<usize, CoreError>)
        ensures
            r matches Ok(n) && n == ids_of_subscriber(old(self).subs(), subscriber_id@).len(),
            final(self).subs() == without_subscriber(old(self).subs(), subscriber_id@),
            final(self).counts() == old(self).counts(),
            final(self).settings() == old(self).settings(),
    {
        let ghost s0 = self.subscriptions@;
        let mut kept: Vec<SubscriptionEntry<C>> = Vec::new();
        let mut old_subs: Vec<SubscriptionEntry<C>> = Vec::new();
        std::mem::swap(&mut old_subs, &mut self.subscriptions);
        proof {
            assert(old_subs@.len() == old_subs.len());
        }
        let mut removed: usize = 0;
        let mut i: usize = 0;
        proof {
            assert(s0.take(0) =~= Seq::<SubscriptionEntry<C>>::empty());
        }
        while old_subs.len() > 0
            invariant
                i <= s0.len(),
                s0.len() <= usize::MAX,
                removed <= i,
                old_subs@ == s0.skip(i as int),
                kept@ == without_subscriber(s0.take(i as int), subscriber_id@),
                removed == ids_of_subscriber(s0.take(i as int), subscriber_id@).len(),
            decreases old_subs.len(),
        {
            let e = old_subs.remove(0);
            proof {
                assert(e == s0[i as int]);
                assert(s0.take(i + 1).drop_last() =~= s0.take(i as int));
                assert(s0.take(i + 1).last() == e);
                assert(old_subs@ =~= s0.skip(i + 1));
            }
            if str_eq(e.subscriber_id.as_str(), subscriber_id) {
                removed = removed + 1;
            } else {
                kept.push(e);
            }
            i = i + 1;
        }
        proof {
            assert(s0.take(i as int) =~= s0);
        }
        self.subscriptions = kept;
        Ok(removed)
    }

    /// Turns subscription `subscription_id` on or off: the first
    /// subscription with that id. Fails with `SubscriptionNotFound`,
    /// changing nothing, if there is none.
    pub fn set_subscription_enabled(&mut self, subscription_id: &str, enabled: bool) -> (r: Result<(), CoreError>)
        ensures
            has_id(old(self).subs(), subscription_id@) ==> r is Ok && exists|i: int|
                0 <= i < old(self).subs().len() && old(self).subs()[i].subscription_id@ == subscription_id@
                    && (forall|j: int| 0 <= j < i ==> (#[trigger] old(self).subs()[j]).subscription_id@ != subscription_id@)
                    && final(self).subs() == old(self).subs().update(
                    i,
                    SubscriptionEntry { enabled, ..old(self).subs()[i] },
                ),
            !has_id(old(self).subs(), subscription_id@) ==> (r matches Err(e) && e@ == ErrorView::SubscriptionNotFound(
                subscription_id@,
            )) && final(self).subs() == old(self).subs(),
            final(self).counts() == old(self).counts(),
            final(self).settings() == old(self).settings(),
    {
        let mut i: usize = 0;
        while i < self.subscriptions.len()
            invariant
                i <= self.subscriptions.len(),
                self.subscriptions@ == old(self).subscriptions@,
                self.stats == old(self).stats,
                self.config == old(self).config,
                forall|j: int| 0 <= j < i ==> (#[trigger] self.subscriptions@[j]).subscription_id@ != subscription_id@,
            decreases self.subscriptions.len() - i,
        {
            if str_eq(self.subscriptions[i].subscription_id.as_str(), subscription_id) {
                let ghost s0 = self.subscriptions@;
                let mut e = self.subscriptions.remove(i);
                e.enabled = enabled;
                self.subscriptions.insert(i, e);
                proof {
                    assert(self.subscriptions@ =~= s0.update(i as int, SubscriptionEntry { enabled, ..s0[i as int] }));
                }
                return Ok(());
            }
            i = i + 1;
        }
        Err(CoreError::SubscriptionNotFound(subscription_id.to_owned()))
    }

    /// How many subscriptions there are.
    pub fn subscription_count(&self) -> (r: usize)
        ensures
            r == self.subs().len(),
    {
        self.subscriptions.len()
    }

    /// How many subscriptions have event-type pattern `event_type`.
    pub fn subscription_count_for_type(&self, event_type: &str) -> (r: usize)
        ensures
            r == of_type(self.subs(), event_type@).len(),
    {
        let mut n: usize = 0;
        let mut i: usize = 0;
        proof {
            assert(self.subscriptions@.take(0) =~= Seq::<SubscriptionEntry<C>>::empty());
        }
        while i < self.subscriptions.len()
            invariant
                i <= self.subscriptions.len(),
                n <= i,
                n == of_type(self.subscriptions@.take(i as int), event_type@).len(),
            decreases self.subscriptions.len() - i,
        {
            proof {
                assert(self.subscriptions@.take(i + 1).drop_last() =~= self.subscriptions@.take(i as int));
            }
            if str_eq(self.subscriptions[i].event_type.as_str(), event_type) {
                n = n + 1;
            }
            i = i + 1;
        }
        proof {
            assert(self.subscriptions@.take(i as int) =~= self.subscriptions@);
        }
        n
    }

    /// The ids of the subscriptions of `subscriber_id`, in order.
    pub fn get_subscriptions_for_module(&self, subscriber_id: &str) -> (r: Vec<String>)
        ensures
            r.deep_view() == ids_of_subscriber(self.subs(), subscriber_id@),
    {
        let mut r: Vec<String> = Vec::new();
        let mut i: usize = 0;
        proof {
            assert(self.subscriptions@.take(0) =~= Seq::<SubscriptionEntry<C>>::empty());
            assert(r.deep_view() =~= Seq::<Seq<char>>::empty());
        }
        while i < self.subscriptions.len()
            invariant
                i <= self.subscriptions.len(),
                r.deep_view() == ids_of_subscriber(self.subscriptions@.take(i as int), subscriber_id@),
            decreases self.subscriptions.len() - i,
        {
            proof {
                assert(self.subscriptions@.take(i + 1).drop_last() =~= self.subscriptions@.take(i as int));
            }
            if str_eq(self.subscriptions[i].subscriber_id.as_str(), subscriber_id) {
                let ghost before = r.deep_view();
                r.push(self.subscriptions[i].subscription_id.clone());
                proof {
                    assert(r.deep_view() =~= before.push(self.subscriptions@[i as int].subscription_id@));
                }
            }
            i = i + 1;
        }
        proof {
            assert(self.subscriptions@.take(i as int) =~= self.subscriptions@);
        }
        r
    }

    /// Whether some subscription's pattern matches `event_type`.
    pub fn has_subscribers(&self, event_type: &str) -> (r: bool)
        ensures
            r == exists|i: int| 0 <= i < self.subs().len() && bus_pattern_matches(
                #[trigger] self.subs()[i].event_type@,
                event_type@,
            ),
    {
        let mut i: usize = 0;
        while i < self.subscriptions.len()
            invariant
                i <= self.subscriptions.len(),
                forall|j: int| 0 <= j < i ==> !bus_pattern_matches(#[trigger] self.subscriptions@[j].event_type@, event_type@),
            decreases self.subscriptions.len() - i,
        {
            if SubscriptionEntry::<C>::matches_pattern(self.subscriptions[i].event_type.as_str(), event_type) {
                return true;
            }
            i = i + 1;
        }
        false
    }

    /// The callback of the first subscription with id `subscription_id`.
    pub fn callback_of(&self, subscription_id: &str) -> (r: Option<&C>)
        ensures
            r is Some <==> has_id(self.subs(), subscription_id@),
            r matches Some(c) ==> exists|i: int| 0 <= i < self.subs().len() && self.subs()[i].subscription_id@ == subscription_id@ && self.subs()[i].callback == *c,
    {
        let mut i: usize = 0;
        while i < self.subscriptions.len()
            invariant
                i <= self.subscriptions.len(),
                forall|j: int| 0 <= j < i ==> (#[trigger] self.subscriptions@[j]).subscription_id@ != subscription_id@,
            decreases self.subscriptions.len() - i,
        {
            if str_eq(self.subscriptions[i].subscription_id.as_str(), subscription_id) {
                return Some(&self.subscriptions[i].callback);
            }
            i = i + 1;
        }
        None
    }

    /// The delivery counts.
    pub fn stats(&self) -> (r: DispatchStats)
        ensures
            r == self.counts(),
    {
        self.stats
    }

    /// Sets every delivery count to zero.
    pub fn reset_stats(&mut self)
        ensures
            final(self).counts().total_dispatched == 0,
            final(self).counts().successful == 0,
            final(self).counts().failed == 0,
            final(self).counts().timeouts == 0,
            final(self).counts().last_dispatch_at is None,
            final(self).subs() == old(self).subs(),
            final(self).settings() == old(self).settings(),
    {
        self.stats = DispatchStats::default();
    }

    /// Records the outcomes of one publication at time `now`.
    pub fn record_results(&mut self, results: &Vec<DispatchResult>, now: i64) -> (r: (usize, usize, usize))
        ensures
            r.0 == tally_of(results@).0,
            r.1 == tally_of(results@).1,
            r.2 == tally_of(results@).2,
            final(self).counts().total_dispatched == old(self).counts().total_dispatched.wrapping_add(results@.len() as u64),
            final(self).counts().successful == old(self).counts().successful.wrapping_add(r.0 as u64),
            final(self).counts().failed == old(self).counts().failed.wrapping_add(r.1 as u64),
            final(self).counts().timeouts == old(self).counts().timeouts.wrapping_add(r.2 as u64),
            final(self).counts().last_dispatch_at == Some(now),
            final(self).subs() == old(self).subs(),
            final(self).settings() == old(self).settings(),
    {
        self.stats.record_all(results, now)
    }

    /// Records one delivery with outcome `result` at time `now`.
    pub fn record_result(&mut self, result: &DispatchResult, now: i64)
        ensures
            final(self).counts().total_dispatched == old(self).counts().total_dispatched.wrapping_add(1),
            final(self).counts().last_dispatch_at == Some(now),
            final(self).subs() == old(self).subs(),
            final(self).settings() == old(self).settings(),
    {
        self.stats.record(result, now)
    }
}

/// Without the absent id, the subscriptions are unchanged.
proof fn lemma_without_absent_id<C>(s: Seq<SubscriptionEntry<C>>, id: Seq<char>)
    requires
        !has_id(s, id),
    ensures
        without_id(s, id) == s,
    decreases s.len(),
{
    if s.len() > 0 {
        assert(!has_id(s.drop_last(), id)) by {
            if has_id(s.drop_last(), id) {
                let j = choose|j: int| 0 <= j < s.drop_last().len() && #[trigger] s.drop_last()[j].subscription_id@ == id;
                assert(s[j].subscription_id@ == id);
            }
        }
        lemma_without_absent_id(s.drop_last(), id);
        assert(s.last().subscription_id@ != id) by {
            assert(s[s.len() - 1].subscription_id@ != id);
        }
        assert(s.drop_last().push(s.last()) =~= s);
    }
}

/// Whether subscription `e` takes event `ev`: it is enabled, its pattern
/// matches the event's type and its filter, if any, lets the event through.
pub open spec fn head_ok<C>(e: SubscriptionEntry<C>, ev: Event) -> bool {
    &&& e.enabled
    &&& bus_pattern_matches(e.event_type@, ev.event_type@)
    &&& (e.filter matches Some(f) ==> filter_matches(f, ev))
}

/// The ids of the subscriptions of `s` that take `ev` by [`head_ok`], in
/// order.
pub open spec fn ids_taking<C>(s: Seq<SubscriptionEntry<C>>, ev: Event) -> Seq<Seq<char>>
    decreases s.len(),
{
    if s.len() == 0 {
        Seq::empty()
    } else {
        let r = ids_taking(s.drop_last(), ev);
        if head_ok(s.last(), ev) { r.push(s.last().subscription_id@) } else { r }
    }
}

/// The ids the first `n` event types of `s` contribute: for each type
/// whose pattern matches the event, its subscriptions that take it.
pub open spec fn ids_by_type<C>(s: Seq<SubscriptionEntry<C>>, ev: Event, n: nat) -> Seq<Seq<char>>
    decreases n,
{
    if n == 0 || n > event_types(s).len() {
        Seq::empty()
    } else {
        let r = ids_by_type(s, ev, (n - 1) as nat);
        let t = event_types(s)[n - 1];
        if bus_pattern_matches(t, ev.event_type@) { r + ids_taking(of_type(s, t), ev) } else { r }
    }
}

/// The ids of the subscriptions an event goes to, in delivery order: by
/// event type in the order first subscribed, then the subscriptions to `*`
/// once more.
pub open spec fn matching_ids<C>(s: Seq<SubscriptionEntry<C>>, ev: Event) -> Seq<Seq<char>> {
    ids_by_type(s, ev, event_types(s).len()) + if event_types(s).contains(seq!['*']) {
        ids_taking(of_type(s, seq!['*']), ev)
    } else {
        Seq::empty()
    }
}

impl<C> SubscriptionEntry<C> {
    /// Whether this subscription takes `event`: it is enabled, its pattern
    /// matches the event's type, and its filter lets the event through.
    pub fn matches(&self, event: &Event) -> (r: bool)
        ensures
            r == head_ok(*self, *event),
    {
        if !self.enabled {
            return false;
        }
        if !Self::matches_pattern(self.event_type.as_str(), event.event_type.as_str()) {
            return false;
        }
        match &self.filter {
            Some(f) => f.matches(event),
            None => true,
        }
    }
}

/// The event types of `s`, each once, in the order first met.
fn types_in_order<C>(s: &Vec<SubscriptionEntry<C>>) -> (r: Vec<String>)
    ensures
        r.deep_view() == event_types(s@),
{
    let mut r: Vec<String> = Vec::new();
    let mut i: usize = 0;
    proof {
        assert(s@.take(0) =~= Seq::<SubscriptionEntry<C>>::empty());
        assert(r.deep_view() =~= Seq::<Seq<char>>::empty());
    }
    while i < s.len()
        invariant
            i <= s.len(),
            r.deep_view() == event_types(s@.take(i as int)),
        decreases s.len() - i,
    {
        proof {
            assert(s@.take(i + 1).drop_last() =~= s@.take(i as int));
        }
        if crate::utils::text::position_of(&r, s[i].event_type.as_str()).is_none() {
            let ghost before = r.deep_view();
            r.push(s[i].event_type.clone());
            proof {
                assert(r.deep_view() =~= before.push(s@[i as int].event_type@));
            }
        }
        i = i + 1;
    }
    proof {
        assert(s@.take(i as int) =~= s@);
    }
    r
}

impl<C> EventBus<C> {
    /// Appends to `out` the ids of the subscriptions of type pattern `t`
    /// that take `event`.
    fn collect_of_type(&self, t: &str, event: &Event, out: &mut Vec<String>)
        ensures
            final(out).deep_view() == old(out).deep_view() + ids_taking(of_type(self.subs(), t@), *event),
    {
        let ghost o0 = out.deep_view();
        let mut i: usize = 0;
        proof {
            assert(self.subscriptions@.take(0) =~= Seq::<SubscriptionEntry<C>>::empty());
            assert(out.deep_view() =~= o0 + Seq::<Seq<char>>::empty());
        }
        while i < self.subscriptions.len()
            invariant
                i <= self.subscriptions.len(),
                out.deep_view() == o0 + ids_taking(of_type(self.subscriptions@.take(i as int), t@), *event),
            decreases self.subscriptions.len() - i,
        {
            proof {
                assert(self.subscriptions@.take(i + 1).drop_last() =~= self.subscriptions@.take(i as int));
                assert(self.subscriptions@.take(i + 1).last() == self.subscriptions@[i as int]);
            }
            let e = &self.subscriptions[i];
            let ghost pre = of_type(self.subscriptions@.take(i as int), t@);
            if str_eq(e.event_type.as_str(), t) {
                proof {
                    assert(of_type(self.subscriptions@.take(i + 1), t@) == pre.push(*e));
                    assert(pre.push(*e).drop_last() =~= pre);
                    assert(self.subs()[i as int] == *e);
                }
                if e.matches(event) {
                    let ghost before = out.deep_view();
                    out.push(e.subscription_id.clone());
                    proof {
                        assert(out.deep_view() =~= before.push(e.subscription_id@));
                        assert(ids_taking(pre.push(*e), *event) == ids_taking(pre, *event).push(e.subscription_id@));
                    }
                } else {
                    proof {
                        assert(ids_taking(pre.push(*e), *event) == ids_taking(pre, *event));
                    }
                }
            } else {
                proof {
                    assert(of_type(self.subscriptions@.take(i + 1), t@) == pre);
                }
            }
            i = i + 1;
        }
        proof {
            assert(self.subscriptions@.take(i as int) =~= self.subscriptions@);
        }
    }

    /// The ids of the subscriptions `event` goes to, in delivery order: by
    /// event type in the order first subscribed, then the subscriptions to
    /// `*` once more ([`matching_ids`]).
    pub fn find_matching_subscriptions(&self, event: &Event) -> (r: Vec<String>)
        ensures
            r.deep_view() == matching_ids(self.subs(), *event),
    {
        let types = types_in_order(&self.subscriptions);
        let mut out: Vec<String> = Vec::new();
        proof {
            assert(out.deep_view() =~= Seq::<Seq<char>>::empty());
        }
        let mut k: usize = 0;
        while k < types.len()
            invariant
                k <= types.len(),
                types.deep_view() == event_types(self.subs()),
                out.deep_view() == ids_by_type(self.subs(), *event, k as nat),
            decreases types.len() - k,
        {
            proof {
                assert(types.deep_view()[k as int] == types@[k as int]@);
            }
            if SubscriptionEntry::<C>::matches_pattern(types[k].as_str(), event.event_type.as_str()) {
                self.collect_of_type(types[k].as_str(), event, &mut out);
            }
            k = k + 1;
        }
        if crate::utils::text::position_of(&types, "*").is_some() {
            proof {
                reveal_strlit("*");
                assert("*"@ =~= seq!['*']);
            }
            self.collect_of_type("*", event, &mut out);
        } else {
            proof {
                reveal_strlit("*");
                assert("*"@ =~= seq!['*']);
            }
        }
        proof {
            assert(out.deep_view() =~= matching_ids(self.subs(), *event));
        }
        out
    }
}

} // verus!
