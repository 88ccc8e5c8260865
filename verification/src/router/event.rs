//! Events, event filters and subscriptions.
//!
//! Times are milliseconds since the Unix epoch.

use vstd::prelude::*;

use super::request::{has_key, insert_entry, set_entry};
use crate::utils::clock::now_millis;
use crate::utils::id::{generate_uuid, is_hyphenated_uuid};
use crate::utils::json::{json_eq_of, json_equals, json_member, json_member_of, json_null};
use crate::utils::text::{chars_of, starts_with, str_eq};

verus! {

/// An event published on the bus.
#[derive(Debug, Clone)]
pub struct Event {
    /// Unique event id.
    pub event_id: String,
    /// Event type, such as `module.loaded`.
    pub event_type: String,
    /// Module that published the event.
    pub sender: String,
    /// Data carried.
    pub data: serde_json::Value,
    /// When the event was made.
    pub timestamp: i64,
    /// Whether the event propagates.
    pub propagate: bool,
    /// Extra data, by key.
    pub metadata: Vec<(String, serde_json::Value)>,
}

/// Whether an event propagates when it does not say.
pub fn default_propagate() -> (r: bool)
    ensures
        r,
{
    true
}

impl Event {
    /// An event of `event_type` from `sender` with `data`: a new UUID as
    /// its id, made now, propagating, with no extra data.
    pub fn new(event_type: &str, sender: &str, data: serde_json::Value) -> (r: Self)
        ensures
            is_hyphenated_uuid(r.event_id@),
            r.event_type@ == event_type@,
            r.sender@ == sender@,
            r.data == data,
            r.propagate,
            r.metadata@.len() == 0,
    {
        Event {
            event_id: generate_uuid(),
            event_type: event_type.to_owned(),
            sender: sender.to_owned(),
            data,
            timestamp: now_millis(),
            propagate: true,
            metadata: Vec::new(),
        }
    }

    /// A builder for an event of `event_type` from `sender`.
    pub fn builder(event_type: &str, sender: &str) -> (r: EventBuilder)
        ensures
            r.event_type@ == event_type@,
            r.sender@ == sender@,
            r.propagate,
            r.metadata@.len() == 0,
    {
        EventBuilder::new(event_type, sender)
    }

    /// The event with `propagate` set.
    pub fn with_propagate(self, propagate: bool) -> (r: Self)
        ensures
            r == (Event { propagate, ..self }),
    {
        let mut s = self;
        s.propagate = propagate;
        s
    }

    /// The event with extra data `key` set to `value`.
    pub fn with_metadata(self, key: &str, value: serde_json::Value) -> (r: Self)
        ensures
            r == (Event { metadata: r.metadata, ..self }),
            has_key(r.metadata@, key@),
    {
        let mut s = self;
        insert_entry(&mut s.metadata, key, value);
        proof {
            let m = s.metadata@;
            if has_key(self.metadata@, key@) {
                let i = choose|i: int|
                    set_entry(self.metadata@, key@, value, i) && m.len() == self.metadata@.len() && m[i].0
                        == self.metadata@[i].0 && m[i].1 == value && forall|j: int|
                        0 <= j < self.metadata@.len() && j != i ==> #[trigger] m[j] == self.metadata@[j];
                assert(m[i].0@ == key@);
            } else {
                assert(m[m.len() - 1].0@ == key@);
            }
        }
        s
    }
}

impl Default for Event {
    fn default() -> (r: Self)
        ensures
            is_hyphenated_uuid(r.event_id@),
            r.event_type@.len() == 0,
            r.sender@.len() == 0,
            r.propagate,
            r.metadata@.len() == 0,
    {
        Event {
            event_id: generate_uuid(),
            event_type: String::new(),
            sender: String::new(),
            data: json_null(),
            timestamp: now_millis(),
            propagate: true,
            metadata: Vec::new(),
        }
    }
}

/// An event being built.
#[derive(Debug)]
pub struct EventBuilder {
    /// Event type.
    pub event_type: String,
    /// Sender.
    pub sender: String,
    /// Data.
    pub data: serde_json::Value,
    /// Whether the event propagates.
    pub propagate: bool,
    /// Extra data, by key.
    pub metadata: Vec<(String, serde_json::Value)>,
}

impl EventBuilder {
    /// A builder for an event of `event_type` from `sender`, with null
    /// data, propagating, with no extra data.
    pub fn new(event_type: &str, sender: &str) -> (r: Self)
        ensures
            r.event_type@ == event_type@,
            r.sender@ == sender@,
            r.propagate,
            r.metadata@.len() == 0,
    {
        EventBuilder {
            event_type: event_type.to_owned(),
            sender: sender.to_owned(),
            data: json_null(),
            propagate: true,
            metadata: Vec::new(),
        }
    }

    /// Sets the data.
    pub fn data(self, data: serde_json::Value) -> (r: Self)
        ensures
            r == (EventBuilder { data, ..self }),
    {
        let mut s = self;
        s.data = data;
        s
    }

    /// Sets whether the event propagates.
    pub fn propagate(self, propagate: bool) -> (r: Self)
        ensures
            r == (EventBuilder { propagate, ..self }),
    {
        let mut s = self;
        s.propagate = propagate;
        s
    }

    /// Sets extra data `key` to `value`.
    pub fn metadata(self, key: &str, value: serde_json::Value) -> (r: Self)
        ensures
            r == (EventBuilder { metadata: r.metadata, ..self }),
            has_key(r.metadata@, key@),
    {
        let mut s = self;
        insert_entry(&mut s.metadata, key, value);
        proof {
            let m = s.metadata@;
            if has_key(self.metadata@, key@) {
                let i = choose|i: int|
                    set_entry(self.metadata@, key@, value, i) && m.len() == self.metadata@.len() && m[i].0
                        == self.metadata@[i].0 && m[i].1 == value && forall|j: int|
                        0 <= j < self.metadata@.len() && j != i ==> #[trigger] m[j] == self.metadata@[j];
                assert(m[i].0@ == key@);
            } else {
                assert(m[m.len() - 1].0@ == key@);
            }
        }
        s
    }

    /// The event: a new UUID as its id, made now, with the built fields.
    pub fn build(self) -> (r: Event)
        ensures
            is_hyphenated_uuid(r.event_id@),
            r.event_type == self.event_type,
            r.sender == self.sender,
            r.data == self.data,
            r.propagate == self.propagate,
            r.metadata == self.metadata,
    {
        Event {
            event_id: generate_uuid(),
            event_type: self.event_type,
            sender: self.sender,
            data: self.data,
            timestamp: now_millis(),
            propagate: self.propagate,
            metadata: self.metadata,
        }
    }
}

/// Whether an event-type pattern matches an event type: `*` matches every
/// type, `p.*` every type that begins with `p`, and any other pattern the
/// type equal to it.
pub open spec fn type_pattern_matches(pattern: Seq<char>, value: Seq<char>) -> bool {
    if pattern == seq!['*'] {
        true
    } else if pattern.len() >= 2 && pattern.skip(pattern.len() - 2) == seq!['.', '*'] {
        pattern.take(pattern.len() - 2).is_prefix_of(value)
    } else {
        pattern == value
    }
}

/// Whether `pattern` is `*`, ends with `.*`, or neither; and for the
/// second, the prefix before `.*`.
fn pattern_kind(pattern: &str) -> (r: (u8, Vec<char>))
    ensures
        r.0 == 0 ==> pattern@ == seq!['*'],
        r.0 == 1 ==> pattern@ != seq!['*'] && pattern@.len() >= 2 && pattern@.skip(pattern@.len() - 2) == seq!['.', '*']
            && r.1@ == pattern@.take(pattern@.len() - 2),
        r.0 == 2 ==> pattern@ != seq!['*'] && !(pattern@.len() >= 2 && pattern@.skip(pattern@.len() - 2) == seq!['.', '*']),
        r.0 <= 2,
{
    let cs = chars_of(pattern);
    if cs.len() == 1 && cs[0] == '*' {
        proof {
            assert(pattern@ =~= seq!['*']);
        }
        return (0, Vec::new());
    }
    let n = cs.len();
    if n >= 2 && cs[n - 2] == '.' && cs[n - 1] == '*' {
        let mut p: Vec<char> = Vec::new();
        let mut i: usize = 0;
        while i < n - 2
            invariant
                n == cs.len(),
                n >= 2,
                i <= n - 2,
                p@ == cs@.take(i as int),
            decreases n - 2 - i,
        {
            p.push(cs[i]);
            proof {
                assert(cs@.take(i + 1) =~= cs@.take(i as int).push(cs@[i as int]));
            }
            i = i + 1;
        }
        proof {
            assert(pattern@.skip(pattern@.len() - 2) =~= seq!['.', '*']);
            if pattern@ == seq!['*'] {
                assert(pattern@.len() == 1);
            }
        }
        return (1, p);
    }
    proof {
        if pattern@ == seq!['*'] {
            assert(cs@.len() == 1 && cs@[0] == '*');
        }
        if pattern@.len() >= 2 && pattern@.skip(pattern@.len() - 2) == seq!['.', '*'] {
            assert(pattern@.skip(pattern@.len() - 2)[0] == cs@[n - 2]);
            assert(pattern@.skip(pattern@.len() - 2)[1] == cs@[n - 1]);
        }
    }
    (2, Vec::new())
}

/// Whether `prefix` begins `value`.
fn chars_prefix(prefix: &Vec<char>, value: &str) -> (r: bool)
    ensures
        r == prefix@.is_prefix_of(value@),
{
    let v = chars_of(value);
    if prefix.len() > v.len() {
        return false;
    }
    let mut i: usize = 0;
    while i < prefix.len()
        invariant
            v@ == value@,
            prefix.len() <= v.len(),
            i <= prefix.len(),
            forall|j: int| 0 <= j < i ==> prefix@[j] == v@[j],
        decreases prefix.len() - i,
    {
        if prefix[i] != v[i] {
            return false;
        }
        i = i + 1;
    }
    assert(prefix@ =~= v@.take(prefix.len() as int));
    true
}

/// Whether `pattern` matches event type `value` (see
/// [`type_pattern_matches`]).
pub fn event_type_matches(pattern: &str, value: &str) -> (r: bool)
    ensures
        r == type_pattern_matches(pattern@, value@),
{
    let (kind, prefix) = pattern_kind(pattern);
    if kind == 0 {
        true
    } else if kind == 1 {
        chars_prefix(&prefix, value)
    } else {
        str_eq(pattern, value)
    }
}

/// What events a filter lets through.
#[derive(Debug, Clone)]
pub struct EventFilter {
    /// Pattern of event types, if any.
    pub event_type: Option<String>,
    /// Required sender, if any.
    pub sender: Option<String>,
    /// Fields the event data must hold, with their values.
    pub data_filters: Vec<(String, serde_json::Value)>,
}

/// Whether an event passes a filter's type and sender checks.
pub open spec fn filter_head_matches(f: EventFilter, e: Event) -> bool {
    &&& (f.event_type matches Some(t) ==> type_pattern_matches(t@, e.event_type@))
    &&& (f.sender matches Some(s) ==> s@ == e.sender@)
}

/// Whether `data` has the member of filter field `f`, with an equal value.
pub open spec fn field_matches(f: (String, serde_json::Value), data: serde_json::Value) -> bool {
    json_member_of(data, f.0@) matches Some(a) && json_eq_of(a, f.1)
}

/// Whether `data` has every filtered member, each with an equal value.
pub open spec fn data_matches(filters: Seq<(String, serde_json::Value)>, data: serde_json::Value) -> bool {
    forall|i: int| 0 <= i < filters.len() ==> #[trigger] field_matches(filters[i], data)
}

/// Whether an event passes a filter.
pub open spec fn filter_matches(f: EventFilter, e: Event) -> bool {
    filter_head_matches(f, e) && data_matches(f.data_filters@, e.data)
}

/// A filter lets an event through exactly when the event's type matches
/// the filter's type pattern (if any), its sender is the filter's sender
/// (if any), and its data holds every filtered member, each with a value
/// equal to the filtered one: a single missing or different member is
/// enough to keep the event out.
pub proof fn lemma_filter_needs_every_field(f: EventFilter, e: Event)
    ensures
        filter_matches(f, e) <==> {
            &&& f.event_type matches Some(t) ==> type_pattern_matches(t@, e.event_type@)
            &&& f.sender matches Some(s) ==> s@ == e.sender@
            &&& forall|i: int|
                0 <= i < f.data_filters@.len() ==> (#[trigger] json_member_of(e.data, f.data_filters@[i].0@) matches Some(
                    v,
                ) && json_eq_of(v, f.data_filters@[i].1))
        },
{
    let fs = f.data_filters@;
    if data_matches(fs, e.data) {
        assert forall|i: int| 0 <= i < fs.len() implies (#[trigger] json_member_of(e.data, fs[i].0@) matches Some(v)
            && json_eq_of(v, fs[i].1)) by {
            assert(field_matches(fs[i], e.data));
        }
    }
    if forall|i: int|
        0 <= i < fs.len() ==> (#[trigger] json_member_of(e.data, fs[i].0@) matches Some(v) && json_eq_of(v, fs[i].1)) {
        assert forall|i: int| 0 <= i < fs.len() implies #[trigger] field_matches(fs[i], e.data) by {
            assert(json_member_of(e.data, fs[i].0@) matches Some(v) && json_eq_of(v, fs[i].1));
        }
    }
}

impl EventFilter {
    /// A filter that lets every event through.
    pub fn new() -> (r: Self)
        ensures
            r.event_type is None,
            r.sender is None,
            r.data_filters@.len() == 0,
    {
        EventFilter { event_type: None, sender: None, data_filters: Vec::new() }
    }

    /// A filter on event type pattern `event_type`.
    pub fn by_type(event_type: &str) -> (r: Self)
        ensures
            r.event_type matches Some(t) && t@ == event_type@,
            r.sender is None,
            r.data_filters@.len() == 0,
    {
        EventFilter { event_type: Some(event_type.to_owned()), sender: None, data_filters: Vec::new() }
    }

    /// A filter on sender `sender`.
    pub fn by_sender(sender: &str) -> (r: Self)
        ensures
            r.event_type is None,
            r.sender matches Some(s) && s@ == sender@,
            r.data_filters@.len() == 0,
    {
        EventFilter { event_type: None, sender: Some(sender.to_owned()), data_filters: Vec::new() }
    }

    /// The filter with event type pattern `event_type`.
    pub fn with_type(self, event_type: &str) -> (r: Self)
        ensures
            r.event_type matches Some(t) && t@ == event_type@,
            r.sender == self.sender,
            r.data_filters == self.data_filters,
    {
        let mut s = self;
        s.event_type = Some(event_type.to_owned());
        s
    }

    /// The filter with sender `sender`.
    pub fn with_sender(self, sender: &str) -> (r: Self)
        ensures
            r.event_type == self.event_type,
            r.sender matches Some(x) && x@ == sender@,
            r.data_filters == self.data_filters,
    {
        let mut s = self;
        s.sender = Some(sender.to_owned());
        s
    }

    /// Whether `event` passes: its type matches the type pattern, its
    /// sender is the required one, and its data holds every filtered field
    /// with the filtered value.
    pub fn matches(&self, event: &Event) -> (r: bool)
        ensures
            r == filter_matches(*self, *event),
    {
        match &self.event_type {
            Some(t) => {
                if !Self::matches_pattern(t.as_str(), event.event_type.as_str()) {
                    return false;
                }
            },
            None => {},
        }
        match &self.sender {
            Some(s) => {
                if !str_eq(s.as_str(), event.sender.as_str()) {
                    return false;
                }
            },
            None => {},
        }
        let mut i: usize = 0;
        while i < self.data_filters.len()
            invariant
                i <= self.data_filters.len(),
                filter_head_matches(*self, *event),
                forall|j: int| 0 <= j < i ==> #[trigger] field_matches(self.data_filters@[j], event.data),
            decreases self.data_filters.len() - i,
        {
            let (key, expected) = &self.data_filters[i];
            match json_member(&event.data, key.as_str()) {
                Some(actual) => {
                    if !json_equals(actual, expected) {
                        proof {
                            assert(!field_matches(self.data_filters@[i as int], event.data));
                        }
                        return false;
                    }
                },
                None => {
                    proof {
                        assert(!field_matches(self.data_filters@[i as int], event.data));
                    }
                    return false;
                },
            }
            i = i + 1;
        }
        true
    }

    /// Whether event-type pattern `pattern` matches `value`: `*` matches
    /// every type, `p.*` every type that begins with `p`, any other pattern
    /// only itself.
    pub fn matches_pattern(pattern: &str, value: &str) -> (r: bool)
        ensures
            r == type_pattern_matches(pattern@, value@),
    {
        event_type_matches(pattern, value)
    }
}

impl Default for EventFilter {
    fn default() -> (r: Self)
        ensures
            r.event_type is None,
            r.sender is None,
            r.data_filters@.len() == 0,
    {
        EventFilter::new()
    }
}

/// A subscription to events.
#[derive(Debug, Clone)]
pub struct Subscription {
    /// Unique subscription id.
    pub subscription_id: String,
    /// Module that subscribed.
    pub subscriber_id: String,
    /// Pattern of event types.
    pub event_type: String,
    /// Further filter, if any.
    pub filter: Option<EventFilter>,
    /// When the subscription was made.
    pub subscribed_at: i64,
    /// Whether the subscription is in use.
    pub enabled: bool,
}

impl Subscription {
    /// A subscription of `subscriber_id` to `event_type`: a new UUID as its
    /// id, made now, enabled, without filter.
    pub fn new(subscriber_id: &str, event_type: &str) -> (r: Self)
        ensures
            is_hyphenated_uuid(r.subscription_id@),
            r.subscriber_id@ == subscriber_id@,
            r.event_type@ == event_type@,
            r.filter is None,
            r.enabled,
    {
        Subscription {
            subscription_id: generate_uuid(),
            subscriber_id: subscriber_id.to_owned(),
            event_type: event_type.to_owned(),
            filter: None,
            subscribed_at: now_millis(),
            enabled: true,
        }
    }

    /// The subscription with filter `filter`.
    pub fn with_filter(self, filter: EventFilter) -> (r: Self)
        ensures
            r == (Subscription { filter: Some(filter), ..self }),
    {
        let mut s = self;
        s.filter = Some(filter);
        s
    }

    /// Whether `event` is for this subscription: it is enabled, its type
    /// pattern matches, and its filter (if any) lets the event through.
    pub fn matches(&self, event: &Event) -> (r: bool)
        ensures
            r == (self.enabled && type_pattern_matches(self.event_type@, event.event_type@) && (self.filter matches Some(
                f,
            ) ==> filter_matches(f, *event))),
    {
        if !self.enabled {
            return false;
        }
        if !EventFilter::matches_pattern(self.event_type.as_str(), event.event_type.as_str()) {
            return false;
        }
        match &self.filter {
            Some(f) => f.matches(event),
            None => true,
        }
    }
}

} // verus!
