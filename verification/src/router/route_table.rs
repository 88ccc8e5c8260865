//! The route table: which module handles an action.
//!
//! Routes are looked up in a fixed order: regular-expression routes, then
//! routes registered for the exact action, then prefix routes, then the
//! default route. Within each list, routes of higher priority come first,
//! and routes of equal priority in the order they were registered.

use vstd::prelude::*;

use super::pattern::{compile_pattern, matches_pattern, pattern_matches, regex_compile_error, regex_is_match, CompiledPattern};
use crate::utils::error::{CoreError, ErrorView};
use crate::utils::text::{position_of, starts_with, str_eq};

verus! {

/// How a route's pattern is matched against an action.
#[derive(Debug, Clone, Copy, PartialEq, Eq, Structural)]
pub enum RouteType {
    /// The action equals the pattern.
    Exact,
    /// The pattern, a regular expression, matches in the action.
    Regex,
    /// The action begins with the pattern.
    Prefix,
}

/// A route to a module.
#[derive(Debug, Clone)]
pub struct RouteEntry {
    /// The module that handles matching actions.
    pub module_id: String,
    /// How the pattern is matched.
    pub route_type: RouteType,
    /// The pattern.
    pub pattern: String,
    /// The priority; higher comes first.
    pub priority: i32,
    /// A description.
    pub description: Option<String>,
    /// Whether the route is in use.
    pub enabled: bool,
}

/// Whether a route is in use when its description does not say.
pub fn default_enabled() -> (r: bool)
    ensures
        r,
{
    true
}

/// Whether route `e` matches action `a`: it is enabled, and the action
/// equals the pattern, begins with it, or is matched by it as a regular
/// expression that compiles.
pub open spec fn entry_matches(e: RouteEntry, a: Seq<char>) -> bool {
    e.enabled && match e.route_type {
        RouteType::Exact => e.pattern@ == a,
        RouteType::Prefix => e.pattern@.is_prefix_of(a),
        RouteType::Regex => regex_compile_error(e.pattern@) is None && regex_is_match(e.pattern@, a),
    }
}

fn copy_opt(s: &Option<String>) -> (r: Option<String>)
    ensures
        r == *s,
{
    match s {
        Some(x) => Some(x.clone()),
        None => None,
    }
}

impl RouteEntry {
    /// An exact route of priority 0 for `action` to `module_id`.
    pub fn exact(module_id: &str, action: &str) -> (r: Self)
        ensures
            r.module_id@ == module_id@,
            r.route_type == RouteType::Exact,
            r.pattern@ == action@,
            r.priority == 0,
            r.description is None,
            r.enabled,
    {
        RouteEntry {
            module_id: module_id.to_owned(),
            route_type: RouteType::Exact,
            pattern: action.to_owned(),
            priority: 0,
            description: None,
            enabled: true,
        }
    }

    /// A regular-expression route of priority 10 for `pattern` to
    /// `module_id`.
    pub fn regex(module_id: &str, pattern: &str) -> (r: Self)
        ensures
            r.module_id@ == module_id@,
            r.route_type == RouteType::Regex,
            r.pattern@ == pattern@,
            r.priority == 10,
            r.description is None,
            r.enabled,
    {
        RouteEntry {
            module_id: module_id.to_owned(),
            route_type: RouteType::Regex,
            pattern: pattern.to_owned(),
            priority: 10,
            description: None,
            enabled: true,
        }
    }

    /// A prefix route of priority 5 for `prefix` to `module_id`.
    pub fn prefix(module_id: &str, prefix: &str) -> (r: Self)
        ensures
            r.module_id@ == module_id@,
            r.route_type == RouteType::Prefix,
            r.pattern@ == prefix@,
            r.priority == 5,
            r.description is None,
            r.enabled,
    {
        RouteEntry {
            module_id: module_id.to_owned(),
            route_type: RouteType::Prefix,
            pattern: prefix.to_owned(),
            priority: 5,
            description: None,
            enabled: true,
        }
    }

    /// The route with priority `priority`.
    pub fn with_priority(self, priority: i32) -> (r: Self)
        ensures
            r == (RouteEntry { priority, ..self }),
    {
        let mut s = self;
        s.priority = priority;
        s
    }

    /// The route with description `desc`.
    pub fn with_description(self, desc: &str) -> (r: Self)
        ensures
            r == (RouteEntry { description: r.description, ..self }),
            r.description matches Some(d) && d@ == desc@,
    {
        let mut s = self;
        s.description = Some(desc.to_owned());
        s
    }

    /// A copy of the route.
    pub fn duplicate(&self) -> (r: Self)
        ensures
            r == *self,
    {
        RouteEntry {
            module_id: self.module_id.clone(),
            route_type: self.route_type,
            pattern: self.pattern.clone(),
            priority: self.priority,
            description: copy_opt(&self.description),
            enabled: self.enabled,
        }
    }

    /// Whether this route matches `action`.
    pub fn matches(&self, action: &str) -> (r: bool)
        ensures
            r == entry_matches(*self, action@),
    {
        if !self.enabled {
            return false;
        }
        match self.route_type {
            RouteType::Exact => str_eq(self.pattern.as_str(), action),
            RouteType::Prefix => starts_with(action, self.pattern.as_str()),
            RouteType::Regex => matches_pattern(self.pattern.as_str(), action),
        }
    }
}

/// The list is ordered by priority, highest first.
pub open spec fn by_priority(s: Seq<RouteEntry>) -> bool {
    forall|i: int, j: int| 0 <= i < j < s.len() ==> s[i].priority >= s[j].priority
}

/// `i` is where a route of priority `p` goes in `s`: after every route of
/// priority `p` or more.
pub open spec fn slot(s: Seq<RouteEntry>, p: i32, i: int) -> bool {
    &&& 0 <= i <= s.len()
    &&& (i == s.len() || s[i].priority < p)
    &&& forall|j: int| 0 <= j < i ==> s[j].priority >= p
}

/// `s` with route `e` placed after every route of its priority or more.
pub open spec fn insert_by_priority(s: Seq<RouteEntry>, e: RouteEntry) -> Seq<RouteEntry> {
    let i = choose|i: int| slot(s, e.priority, i);
    s.insert(i, e)
}

/// The first enabled route of `s` whose pattern matches in `a` as a
/// regular expression.
pub open spec fn first_regex_match(s: Seq<RouteEntry>, a: Seq<char>) -> Option<RouteEntry>
    decreases s.len(),
{
    if s.len() == 0 {
        None
    } else if s[0].enabled && regex_is_match(s[0].pattern@, a) {
        Some(s[0])
    } else {
        first_regex_match(s.drop_first(), a)
    }
}

/// The first enabled route of `s`.
pub open spec fn first_enabled(s: Seq<RouteEntry>) -> Option<RouteEntry>
    decreases s.len(),
{
    if s.len() == 0 {
        None
    } else if s[0].enabled {
        Some(s[0])
    } else {
        first_enabled(s.drop_first())
    }
}

/// The first route of `s` that matches `a`.
pub open spec fn first_matching(s: Seq<RouteEntry>, a: Seq<char>) -> Option<RouteEntry>
    decreases s.len(),
{
    if s.len() == 0 {
        None
    } else if entry_matches(s[0], a) {
        Some(s[0])
    } else {
        first_matching(s.drop_first(), a)
    }
}

/// The routes of `s` that do not belong to module `m`.
pub open spec fn without_module(s: Seq<RouteEntry>, m: Seq<char>) -> Seq<RouteEntry>
    decreases s.len(),
{
    if s.len() == 0 {
        s
    } else {
        let r = without_module(s.drop_last(), m);
        if s.last().module_id@ == m { r } else { r.push(s.last()) }
    }
}

/// A regular-expression route with its compiled expression.
struct CompiledRoute {
    entry: RouteEntry,
    compiled: CompiledPattern,
}

/// The routes of the kernel.
pub struct RouteTable {
    action_keys: Vec<String>,
    action_lists: Vec<Vec<RouteEntry>>,
    custom_routes: Vec<CompiledRoute>,
    prefix_routes: Vec<RouteEntry>,
    default_route: Option<RouteEntry>,
}

/// Counts of the routes in a table.
#[derive(Debug, Clone)]
pub struct RouteTableStats {
    /// Routes registered for exact actions.
    pub action_route_count: usize,
    /// Regular-expression routes.
    pub custom_route_count: usize,
    /// Prefix routes.
    pub prefix_route_count: usize,
    /// Whether there is a default route.
    pub has_default_route: bool,
}

/// The routes of a table, for inspection: each action with its routes in
/// lookup order, the regular-expression and prefix routes, and the default
/// route.
#[derive(Debug, Clone)]
pub struct RouteTableExport {
    /// Each action with its routes, in the order first registered.
    pub action_routes: Vec<(String, Vec<RouteEntry>)>,
    /// The regular-expression routes.
    pub custom_routes: Vec<RouteEntry>,
    /// The prefix routes.
    pub prefix_routes: Vec<RouteEntry>,
    /// The default route.
    pub default_route: Option<RouteEntry>,
}

/// A copy of a list of routes.
fn copy_entries(v: &Vec<RouteEntry>) -> (r: Vec<RouteEntry>)
    ensures
        r@ == v@,
{
    let mut r: Vec<RouteEntry> = Vec::new();
    let mut i: usize = 0;
    while i < v.len()
        invariant
            i <= v.len(),
            r@ == v@.take(i as int),
        decreases v.len() - i,
    {
        r.push(v[i].duplicate());
        proof {
            assert(v@.take(i + 1) =~= v@.take(i as int).push(v@[i as int]));
        }
        i = i + 1;
    }
    proof {
        assert(v@.take(i as int) =~= v@);
    }
    r
}

impl RouteTable {
    /// The actions with routes, in the order first registered.
    pub closed spec fn actions(&self) -> Seq<Seq<char>> {
        self.action_keys.deep_view()
    }

    /// The routes registered for exact action `a`, in lookup order.
    pub closed spec fn routes_for(&self, a: Seq<char>) -> Seq<RouteEntry> {
        if self.action_keys.deep_view().contains(a) {
            self.action_lists@[self.action_keys.deep_view().index_of(a)]@
        } else {
            Seq::empty()
        }
    }

    /// The regular-expression routes, in lookup order.
    pub closed spec fn custom(&self) -> Seq<RouteEntry> {
        self.custom_routes@.map_values(|c: CompiledRoute| c.entry)
    }

    /// The prefix routes, in lookup order.
    pub closed spec fn prefixes(&self) -> Seq<RouteEntry> {
        self.prefix_routes@
    }

    /// The default route.
    pub closed spec fn default_entry(&self) -> Option<RouteEntry> {
        self.default_route
    }

    /// The table's invariant: every list is ordered by priority, each
    /// action has one non-empty list, and every compiled expression is that
    /// of its route's pattern.
    pub closed spec fn wf(&self) -> bool {
        &&& self.action_keys.len() == self.action_lists.len()
        &&& self.action_keys.deep_view().no_duplicates()
        &&& forall|i: int| 0 <= i < self.action_lists.len() ==> by_priority(#[trigger] self.action_lists@[i]@)
        &&& forall|i: int| 0 <= i < self.action_lists.len() ==> (#[trigger] self.action_lists@[i]@).len() > 0
        &&& by_priority(self.custom())
        &&& forall|i: int| 0 <= i < self.custom_routes.len() ==> (#[trigger] self.custom_routes@[i]).compiled.source()
            == self.custom_routes@[i].entry.pattern@
        &&& by_priority(self.prefix_routes@)
    }

    /// The route for action `a`: the first enabled regular-expression route
    /// matching in it, else the first enabled route registered for it, else
    /// the first prefix route matching it, else the default route.
    pub open spec fn lookup(&self, a: Seq<char>) -> Option<RouteEntry> {
        match first_regex_match(self.custom(), a) {
            Some(e) => Some(e),
            None => match first_enabled(self.routes_for(a)) {
                Some(e) => Some(e),
                None => match first_matching(self.prefixes(), a) {
                    Some(e) => Some(e),
                    None => self.default_entry(),
                },
            },
        }
    }

    /// An empty table.
    pub fn new() -> (r: Self)
        ensures
            r.wf(),
            r.actions().len() == 0,
            forall|a: Seq<char>| (#[trigger] r.routes_for(a)).len() == 0,
            r.custom().len() == 0,
            r.prefixes().len() == 0,
            r.default_entry() is None,
    {
        let r = RouteTable {
            action_keys: Vec::new(),
            action_lists: Vec::new(),
            custom_routes: Vec::new(),
            prefix_routes: Vec::new(),
            default_route: None,
        };
        proof {
            assert(r.action_keys.deep_view() =~= Seq::<Seq<char>>::empty());
            assert(r.custom() =~= Seq::<RouteEntry>::empty());
        }
        r
    }
}

/// Where a route of priority `p` goes in `s`.
fn slot_of(s: &Vec<RouteEntry>, p: i32) -> (i: usize)
    ensures
        slot(s@, p, i as int),
{
    let mut i: usize = 0;
    while i < s.len()
        invariant
            i <= s.len(),
            forall|j: int| 0 <= j < i ==> s@[j].priority >= p,
        decreases s.len() - i,
    {
        if s[i].priority < p {
            return i;
        }
        i = i + 1;
    }
    i
}

/// A slot is unique.
proof fn lemma_slot_unique(s: Seq<RouteEntry>, p: i32, i: int, k: int)
    requires
        slot(s, p, i),
        slot(s, p, k),
    ensures
        i == k,
{
    if i < k {
        assert(s[i].priority >= p);
    }
    if k < i {
        assert(s[k].priority >= p);
    }
}

/// Inserting by priority keeps a list ordered by priority.
pub proof fn lemma_insert_keeps_order(s: Seq<RouteEntry>, e: RouteEntry, i: int)
    requires
        by_priority(s),
        slot(s, e.priority, i),
    ensures
        by_priority(s.insert(i, e)),
        insert_by_priority(s, e) == s.insert(i, e),
{
    let t = s.insert(i, e);
    assert forall|a: int, b: int| 0 <= a < b < t.len() implies t[a].priority >= t[b].priority by {
        if a < i && b == i {
        } else if a == i && b > i {
            assert(t[b] == s[b - 1]);
            if b - 1 > i {
                assert(s[i].priority >= s[b - 1].priority);
            }
        }
    }
    let k = choose|k: int| slot(s, e.priority, k);
    lemma_slot_unique(s, e.priority, i, k);
}

/// `v` with route `e` placed by priority.
fn insert_entry_by_priority(v: &mut Vec<RouteEntry>, e: RouteEntry)
    requires
        by_priority(old(v)@),
    ensures
        final(v)@ == insert_by_priority(old(v)@, e),
        by_priority(final(v)@),
{
    let i = slot_of(v, e.priority);
    proof {
        lemma_insert_keeps_order(v@, e, i as int);
    }
    v.insert(i, e);
}

/// In a list without repetitions, the position of an element is where it
/// stands.
proof fn lemma_index_of_unique(s: Seq<Seq<char>>, i: int)
    requires
        s.no_duplicates(),
        0 <= i < s.len(),
    ensures
        s.index_of(s[i]) == i,
{
    assert(s.contains(s[i]));
    let j = s.index_of(s[i]);
    assert(s[j] == s[i]);
}

/// `keys` with `a` appended unless it already holds it.
pub open spec fn with_action(keys: Seq<Seq<char>>, a: Seq<char>) -> Seq<Seq<char>> {
    if keys.contains(a) { keys } else { keys.push(a) }
}

/// A route placed above every route of its list comes first there.
proof fn lemma_insert_on_top(s: Seq<RouteEntry>, e: RouteEntry)
    requires
        forall|j: int| 0 <= j < s.len() ==> s[j].priority < e.priority,
    ensures
        insert_by_priority(s, e) == s.insert(0, e),
{
    assert(slot(s, e.priority, 0));
    let k = choose|k: int| slot(s, e.priority, k);
    lemma_slot_unique(s, e.priority, 0, k);
}

/// The routes kept when those of module `m` are removed belong to other
/// modules.
proof fn lemma_without_module_others(s: Seq<RouteEntry>, m: Seq<char>)
    ensures
        forall|i: int| 0 <= i < without_module(s, m).len() ==> (#[trigger] without_module(s, m)[i]).module_id@ != m,
    decreases s.len(),
{
    if s.len() > 0 {
        lemma_without_module_others(s.drop_last(), m);
        let r = without_module(s.drop_last(), m);
        if s.last().module_id@ != m {
            assert forall|i: int| 0 <= i < r.push(s.last()).len() implies (#[trigger] r.push(s.last())[i]).module_id@ != m by {
                if i < r.len() {
                    assert(r.push(s.last())[i] == r[i]);
                }
            }
        }
    }
}

/// What the lookups pick is a route of the list they search.
proof fn lemma_picked_from(s: Seq<RouteEntry>, a: Seq<char>)
    ensures
        first_regex_match(s, a) matches Some(e) ==> s.contains(e),
        first_enabled(s) matches Some(e) ==> s.contains(e),
        first_matching(s, a) matches Some(e) ==> s.contains(e),
    decreases s.len(),
{
    if s.len() > 0 {
        lemma_picked_from(s.drop_first(), a);
        assert(s[0] == s[0]);
        assert forall|e: RouteEntry| s.drop_first().contains(e) implies s.contains(e) by {
            let i = choose|i: int| 0 <= i < s.drop_first().len() && s.drop_first()[i] == e;
            assert(s[i + 1] == e);
        }
    }
}

/// `s[i]` is an enabled route whose pattern matches in `a` as a regular
/// expression.
pub open spec fn regex_takes(s: Seq<RouteEntry>, i: int, a: Seq<char>) -> bool {
    s[i].enabled && regex_is_match(s[i].pattern@, a)
}

/// The first regular-expression route chosen for `a` is the earliest
/// enabled route whose pattern matches; there is none only when no enabled
/// route matches.
proof fn lemma_first_regex_is_earliest(s: Seq<RouteEntry>, a: Seq<char>)
    ensures
        match first_regex_match(s, a) {
            Some(e) => exists|i: int|
                0 <= i < s.len() && s[i] == e && regex_takes(s, i, a) && forall|j: int|
                    0 <= j < i ==> !#[trigger] regex_takes(s, j, a),
            None => forall|i: int| 0 <= i < s.len() ==> !#[trigger] regex_takes(s, i, a),
        },
    decreases s.len(),
{
    if s.len() > 0 {
        let t = s.drop_first();
        lemma_first_regex_is_earliest(t, a);
        assert forall|i: int| 0 < i < s.len() implies #[trigger] regex_takes(s, i, a) == regex_takes(t, i - 1, a) by {
            assert(s[i] == t[i - 1]);
        }
        if !(s[0].enabled && regex_is_match(s[0].pattern@, a)) {
            match first_regex_match(t, a) {
                Some(e) => {
                    let k = choose|k: int|
                        0 <= k < t.len() && t[k] == e && regex_takes(t, k, a) && forall|j: int|
                            0 <= j < k ==> !#[trigger] regex_takes(t, j, a);
                    assert(regex_takes(s, k + 1, a));
                    assert forall|j: int| 0 <= j < k + 1 implies !#[trigger] regex_takes(s, j, a) by {
                        if j > 0 {
                            assert(regex_takes(s, j, a) == regex_takes(t, j - 1, a));
                        }
                    }
                    assert(s[k + 1] == e);
                },
                None => {
                    assert forall|i: int| 0 <= i < s.len() implies !#[trigger] regex_takes(s, i, a) by {
                        if i > 0 {
                            assert(regex_takes(s, i, a) == regex_takes(t, i - 1, a));
                        }
                    }
                },
            }
        } else {
            assert(regex_takes(s, 0, a));
        }
    }
}

/// The first enabled route is one of the list's and is enabled.
proof fn lemma_first_enabled_is_enabled(s: Seq<RouteEntry>)
    ensures
        first_enabled(s) matches Some(e) ==> s.contains(e) && e.enabled,
        first_enabled(s) is None ==> forall|i: int| 0 <= i < s.len() ==> !(#[trigger] s[i]).enabled,
    decreases s.len(),
{
    if s.len() > 0 {
        lemma_first_enabled_is_enabled(s.drop_first());
        assert forall|i: int| 0 < i < s.len() implies #[trigger] s[i] == s.drop_first()[i - 1] by {}
        if !s[0].enabled {
            if let Some(e) = first_enabled(s.drop_first()) {
                let k = choose|k: int| 0 <= k < s.drop_first().len() && s.drop_first()[k] == e;
                assert(s[k + 1] == e);
            }
        } else {
            assert(s[0] == s[0]);
        }
    }
}

/// The first matching route is one of the list's and matches.
proof fn lemma_first_matching_matches(s: Seq<RouteEntry>, a: Seq<char>)
    ensures
        first_matching(s, a) matches Some(e) ==> s.contains(e) && entry_matches(e, a),
        first_matching(s, a) is None ==> forall|i: int| 0 <= i < s.len() ==> !entry_matches(#[trigger] s[i], a),
    decreases s.len(),
{
    if s.len() > 0 {
        lemma_first_matching_matches(s.drop_first(), a);
        assert forall|i: int| 0 < i < s.len() implies #[trigger] s[i] == s.drop_first()[i - 1] by {}
        if !entry_matches(s[0], a) {
            if let Some(e) = first_matching(s.drop_first(), a) {
                let k = choose|k: int| 0 <= k < s.drop_first().len() && s.drop_first()[k] == e;
                assert(s[k + 1] == e);
            }
        } else {
            assert(s[0] == s[0]);
        }
    }
}

/// The route found for an action takes it: an enabled regular-expression
/// route whose pattern matches in the action (the earliest such, and one
/// is found whenever any enabled regular-expression route matches), else
/// an enabled route registered for that action, else a prefix route that
/// matches it, else the default route; each kind is tried only when no
/// route of the kinds before it takes the action. A disabled route is
/// never found, save as the default.
pub proof fn lemma_found_route_takes_action(t: RouteTable, a: Seq<char>)
    ensures
        t.lookup(a) matches Some(e) ==> {
            ||| exists|i: int|
                0 <= i < t.custom().len() && t.custom()[i] == e && e.enabled && regex_is_match(e.pattern@, a)
                    && forall|j: int|
                    0 <= j < i ==> !(#[trigger] t.custom()[j].enabled && regex_is_match(t.custom()[j].pattern@, a))
            ||| t.routes_for(a).contains(e) && e.enabled
            ||| t.prefixes().contains(e) && entry_matches(e, a)
            ||| t.default_entry() == Some(e)
        },
        (exists|i: int|
            0 <= i < t.custom().len() && #[trigger] t.custom()[i].enabled && regex_is_match(t.custom()[i].pattern@, a))
            ==> (t.lookup(a) matches Some(e) && t.custom().contains(e) && e.enabled && regex_is_match(e.pattern@, a)),
        (forall|i: int|
            0 <= i < t.custom().len() ==> !(#[trigger] t.custom()[i].enabled && regex_is_match(t.custom()[i].pattern@, a)))
            ==> {
            &&& (exists|i: int| 0 <= i < t.routes_for(a).len() && (#[trigger] t.routes_for(a)[i]).enabled) ==> (t.lookup(
                a,
            ) matches Some(e) && t.routes_for(a).contains(e) && e.enabled)
            &&& (forall|i: int| 0 <= i < t.routes_for(a).len() ==> !(#[trigger] t.routes_for(a)[i]).enabled) ==> {
                &&& (exists|i: int| 0 <= i < t.prefixes().len() && entry_matches(#[trigger] t.prefixes()[i], a)) ==> (
                t.lookup(a) matches Some(e) && t.prefixes().contains(e) && entry_matches(e, a))
                &&& (forall|i: int| 0 <= i < t.prefixes().len() ==> !entry_matches(#[trigger] t.prefixes()[i], a))
                    ==> t.lookup(a) == t.default_entry()
            }
        },
{
    let c = t.custom();
    lemma_first_regex_is_earliest(c, a);
    lemma_first_enabled_is_enabled(t.routes_for(a));
    lemma_first_matching_matches(t.prefixes(), a);
    match first_regex_match(c, a) {
        Some(e) => {
            let i = choose|i: int|
                0 <= i < c.len() && c[i] == e && regex_takes(c, i, a) && forall|j: int|
                    0 <= j < i ==> !#[trigger] regex_takes(c, j, a);
            assert forall|j: int| 0 <= j < i implies !(#[trigger] c[j].enabled && regex_is_match(c[j].pattern@, a)) by {
                assert(!regex_takes(c, j, a));
            }
            assert(c[i] == e);
        },
        None => {
            assert forall|i: int| 0 <= i < c.len() implies !(#[trigger] c[i].enabled && regex_is_match(c[i].pattern@, a)) by {
                assert(!regex_takes(c, i, a));
            }
        },
    }
}

impl RouteTable {
    /// Registers `entry` for exact action `action`, placed after the routes
    /// of that action with its priority or more.
    pub fn register_action_route(&mut self, action: &str, entry: RouteEntry) -> (r: Result<(), CoreError>)
        requires
            old(self).wf(),
        ensures
            r is Ok,
            final(self).wf(),
            final(self).actions() == with_action(old(self).actions(), action@),
            final(self).routes_for(action@) == insert_by_priority(old(self).routes_for(action@), entry),
            forall|a: Seq<char>| a != action@ ==> #[trigger] final(self).routes_for(a) == old(self).routes_for(a),
            final(self).custom() == old(self).custom(),
            final(self).prefixes() == old(self).prefixes(),
            final(self).default_entry() == old(self).default_entry(),
            entry.enabled && first_regex_match(old(self).custom(), action@) is None && (forall|j: int|
                0 <= j < old(self).routes_for(action@).len() ==> #[trigger] old(self).routes_for(action@)[j].priority
                    < entry.priority) ==> final(self).lookup(action@) == Some(entry),
    {
        proof {
            if forall|j: int|
                0 <= j < old(self).routes_for(action@).len() ==> #[trigger] old(self).routes_for(action@)[j].priority
                    < entry.priority {
                lemma_insert_on_top(old(self).routes_for(action@), entry);
            }
        }
        let ghost keys0 = self.action_keys.deep_view();
        let ghost lists0 = self.action_lists@;
        match position_of(&self.action_keys, action) {
            Some(i) => {
                let mut list = self.action_lists.remove(i);
                insert_entry_by_priority(&mut list, entry);
                self.action_lists.insert(i, list);
                proof {
                    assert(self.action_lists@ =~= lists0.update(i as int, list));
                    lemma_index_of_unique(keys0, i as int);
                    assert forall|a: Seq<char>| a != action@ implies #[trigger] self.routes_for(a) == old(self).routes_for(a) by {
                        if keys0.contains(a) {
                            let j = choose|j: int| 0 <= j < keys0.len() && keys0[j] == a;
                            lemma_index_of_unique(keys0, j);
                        }
                    }
                    assert forall|k: int| 0 <= k < self.action_lists.len() implies (#[trigger] self.action_lists@[k]@).len() > 0 by {
                        if k != i {
                            assert(self.action_lists@[k] == lists0[k]);
                        }
                    }
                }
            },
            None => {
                let mut list: Vec<RouteEntry> = Vec::new();
                insert_entry_by_priority(&mut list, entry);
                self.action_keys.push(action.to_owned());
                self.action_lists.push(list);
                proof {
                    let keys1 = self.action_keys.deep_view();
                    assert(keys1 =~= keys0.push(action@));
                    lemma_index_of_unique(keys1, keys0.len() as int);
                    assert forall|a: Seq<char>| a != action@ implies #[trigger] self.routes_for(a) == old(self).routes_for(a) by {
                        if keys0.contains(a) {
                            let j = choose|j: int| 0 <= j < keys0.len() && keys0[j] == a;
                            lemma_index_of_unique(keys0, j);
                            lemma_index_of_unique(keys1, j);
                        }
                        if keys1.contains(a) {
                            let j = choose|j: int| 0 <= j < keys1.len() && keys1[j] == a;
                            assert(j < keys0.len());
                        }
                    }
                    assert(self.routes_for(action@) == list@);
                    assert(list@.len() > 0);
                }
            },
        }
        Ok(())
    }

    /// Registers regular-expression route `entry`, placed after the
    /// regular-expression routes of its priority or more. Fails with
    /// `InvalidRequest` when its pattern does not compile, leaving the
    /// table as it was.
    pub fn register_custom_route(&mut self, entry: RouteEntry) -> (r: Result<(), CoreError>)
        requires
            old(self).wf(),
        ensures
            final(self).wf(),
            match regex_compile_error(entry.pattern@) {
                Some(m) => r matches Err(e) && e@ == ErrorView::InvalidRequest("Invalid regex pattern: "@ + m)
                    && *final(self) == *old(self),
                None => r is Ok && final(self).custom() == insert_by_priority(old(self).custom(), entry)
                    && final(self).actions() == old(self).actions()
                    && (forall|a: Seq<char>| #[trigger] final(self).routes_for(a) == old(self).routes_for(a))
                    && final(self).prefixes() == old(self).prefixes()
                    && final(self).default_entry() == old(self).default_entry(),
            },
    {
        let compiled = match compile_pattern(entry.pattern.as_str()) {
            Ok(c) => c,
            Err(e) => {
                let mut m = String::from_str("Invalid regex pattern: ");
                m.append(e.as_str());
                return Err(CoreError::InvalidRequest(m));
            },
        };
        let ghost c0 = self.custom();
        let ghost v0 = self.custom_routes@;
        let i = self.custom_slot(entry.priority);
        proof {
            lemma_insert_keeps_order(c0, entry, i as int);
        }
        self.custom_routes.insert(i, CompiledRoute { entry, compiled });
        proof {
            assert(self.custom() =~= c0.insert(i as int, entry));
            assert forall|k: int| 0 <= k < self.custom_routes.len() implies (#[trigger] self.custom_routes@[k]).compiled.source()
                == self.custom_routes@[k].entry.pattern@ by {
                if k < i {
                    assert(self.custom_routes@[k] == v0[k]);
                } else if k > i {
                    assert(self.custom_routes@[k] == v0[k - 1]);
                }
            }
        }
        Ok(())
    }

    fn custom_slot(&self, p: i32) -> (i: usize)
        ensures
            slot(self.custom(), p, i as int),
    {
        let mut i: usize = 0;
        while i < self.custom_routes.len()
            invariant
                i <= self.custom_routes.len(),
                forall|j: int| 0 <= j < i ==> self.custom()[j].priority >= p,
            decreases self.custom_routes.len() - i,
        {
            if self.custom_routes[i].entry.priority < p {
                return i;
            }
            i = i + 1;
        }
        i
    }

    /// Registers prefix route `entry`, placed after the prefix routes of
    /// its priority or more.
    pub fn register_prefix_route(&mut self, entry: RouteEntry) -> (r: Result<(), CoreError>)
        requires
            old(self).wf(),
        ensures
            r is Ok,
            final(self).wf(),
            final(self).prefixes() == insert_by_priority(old(self).prefixes(), entry),
            final(self).actions() == old(self).actions(),
            forall|a: Seq<char>| #[trigger] final(self).routes_for(a) == old(self).routes_for(a),
            final(self).custom() == old(self).custom(),
            final(self).default_entry() == old(self).default_entry(),
    {
        insert_entry_by_priority(&mut self.prefix_routes, entry);
        Ok(())
    }

    /// Makes `entry` the default route.
    pub fn set_default_route(&mut self, entry: RouteEntry)
        requires
            old(self).wf(),
        ensures
            final(self).wf(),
            final(self).default_entry() == Some(entry),
            final(self).actions() == old(self).actions(),
            forall|a: Seq<char>| #[trigger] final(self).routes_for(a) == old(self).routes_for(a),
            final(self).custom() == old(self).custom(),
            final(self).prefixes() == old(self).prefixes(),
    {
        self.default_route = Some(entry);
    }

    /// The route for `action` (see [`RouteTable::lookup`]).
    pub fn find_route(&self, action: &str) -> (r: Option<RouteEntry>)
        requires
            self.wf(),
        ensures
            r == self.lookup(action@),
    {
        let ghost a = action@;
        proof {
            assert(self.custom().skip(0) =~= self.custom());
        }
        let mut i: usize = 0;
        while i < self.custom_routes.len()
            invariant
                self.wf(),
                a == action@,
                i <= self.custom_routes.len(),
                first_regex_match(self.custom(), a) == first_regex_match(self.custom().skip(i as int), a),
            decreases self.custom_routes.len() - i,
        {
            let c = &self.custom_routes[i];
            proof {
                assert(self.custom().skip(i as int)[0] == c.entry);
                assert(self.custom().skip(i as int).drop_first() =~= self.custom().skip(i + 1));
                assert(c.compiled.source() == c.entry.pattern@);
            }
            if c.entry.enabled && pattern_matches(&c.compiled, action) {
                return Some(c.entry.duplicate());
            }
            i = i + 1;
        }
        proof {
            assert(self.custom().skip(i as int) =~= Seq::<RouteEntry>::empty());
        }
        match position_of(&self.action_keys, action) {
            Some(k) => {
                let list = &self.action_lists[k];
                proof {
                    lemma_index_of_unique(self.action_keys.deep_view(), k as int);
                    assert(self.routes_for(a) == list@);
                    assert(list@.skip(0) =~= list@);
                }
                let mut j: usize = 0;
                while j < list.len()
                    invariant
                        j <= list.len(),
                        a == action@,
                        first_regex_match(self.custom(), a) is None,
                        self.routes_for(a) == list@,
                        first_enabled(list@) == first_enabled(list@.skip(j as int)),
                    decreases list.len() - j,
                {
                    proof {
                        assert(list@.skip(j as int)[0] == list@[j as int]);
                        assert(list@.skip(j as int).drop_first() =~= list@.skip(j + 1));
                    }
                    if list[j].enabled {
                        return Some(list[j].duplicate());
                    }
                    j = j + 1;
                }
                proof {
                    assert(list@.skip(j as int) =~= Seq::<RouteEntry>::empty());
                }
            },
            None => {
                proof {
                    assert(self.routes_for(a) =~= Seq::<RouteEntry>::empty());
                }
            },
        }
        proof {
            assert(self.prefixes().skip(0) =~= self.prefixes());
        }
        let mut q: usize = 0;
        while q < self.prefix_routes.len()
            invariant
                a == action@,
                first_regex_match(self.custom(), a) is None,
                first_enabled(self.routes_for(a)) is None,
                q <= self.prefix_routes.len(),
                first_matching(self.prefixes(), a) == first_matching(self.prefixes().skip(q as int), a),
            decreases self.prefix_routes.len() - q,
        {
            proof {
                assert(self.prefixes().skip(q as int)[0] == self.prefix_routes@[q as int]);
                assert(self.prefixes().skip(q as int).drop_first() =~= self.prefixes().skip(q + 1));
            }
            if self.prefix_routes[q].matches(action) {
                return Some(self.prefix_routes[q].duplicate());
            }
            q = q + 1;
        }
        proof {
            assert(self.prefixes().skip(q as int) =~= Seq::<RouteEntry>::empty());
        }
        match &self.default_route {
            Some(e) => Some(e.duplicate()),
            None => None,
        }
    }

    /// The actions with routes, in the order first registered.
    pub fn list_actions(&self) -> (r: Vec<String>)
        ensures
            r.deep_view() == self.actions(),
    {
        crate::utils::text::clone_names(&self.action_keys)
    }

    /// The table's routes, for inspection.
    pub fn export(&self) -> (r: RouteTableExport)
        requires
            self.wf(),
        ensures
            r.action_routes@.len() == self.actions().len(),
            forall|i: int|
                0 <= i < self.actions().len() ==> (#[trigger] r.action_routes@[i]).0@ == self.actions()[i]
                    && r.action_routes@[i].1@ == self.routes_for(self.actions()[i]),
            r.custom_routes@ == self.custom(),
            r.prefix_routes@ == self.prefixes(),
            r.default_route == self.default_entry(),
    {
        let mut actions: Vec<(String, Vec<RouteEntry>)> = Vec::new();
        let mut i: usize = 0;
        while i < self.action_keys.len()
            invariant
                self.wf(),
                i <= self.action_keys.len(),
                actions@.len() == i,
                forall|j: int|
                    0 <= j < i ==> (#[trigger] actions@[j]).0@ == self.actions()[j] && actions@[j].1@ == self.routes_for(
                        self.actions()[j],
                    ),
            decreases self.action_keys.len() - i,
        {
            proof {
                lemma_index_of_unique(self.action_keys.deep_view(), i as int);
            }
            let ghost before = actions@;
            actions.push((self.action_keys[i].clone(), copy_entries(&self.action_lists[i])));
            proof {
                assert forall|j: int|
                    0 <= j < i + 1 implies (#[trigger] actions@[j]).0@ == self.actions()[j] && actions@[j].1@
                    == self.routes_for(self.actions()[j]) by {
                    if j < i {
                        assert(actions@[j] == before[j]);
                    }
                }
            }
            i = i + 1;
        }
        let mut custom: Vec<RouteEntry> = Vec::new();
        let mut k: usize = 0;
        while k < self.custom_routes.len()
            invariant
                k <= self.custom_routes.len(),
                custom@ == self.custom().take(k as int),
            decreases self.custom_routes.len() - k,
        {
            custom.push(self.custom_routes[k].entry.duplicate());
            proof {
                assert(self.custom().take(k + 1) =~= self.custom().take(k as int).push(self.custom()[k as int]));
            }
            k = k + 1;
        }
        proof {
            assert(self.custom().take(k as int) =~= self.custom());
        }
        let default_route = match &self.default_route {
            Some(e) => Some(e.duplicate()),
            None => None,
        };
        RouteTableExport {
            action_routes: actions,
            custom_routes: custom,
            prefix_routes: copy_entries(&self.prefix_routes),
            default_route,
        }
    }

    /// How many routes of each kind the table holds.
    pub fn stats(&self) -> (r: RouteTableStats)
        requires
            self.wf(),
        ensures
            r.custom_route_count == self.custom().len(),
            r.prefix_route_count == self.prefixes().len(),
            r.has_default_route == self.default_entry() is Some,
            r.action_route_count == total_routes(self, self.actions().len() as nat),
    {
        let mut total: usize = 0;
        let mut i: usize = 0;
        while i < self.action_lists.len()
            invariant
                self.wf(),
                i <= self.action_lists.len(),
                total == total_routes(self, i as nat),
                total <= usize::MAX,
            decreases self.action_lists.len() - i,
        {
            proof {
                lemma_index_of_unique(self.action_keys.deep_view(), i as int);
            }
            total = total.saturating_add(self.action_lists[i].len());
            i = i + 1;
        }
        RouteTableStats {
            action_route_count: total,
            custom_route_count: self.custom_routes.len(),
            prefix_route_count: self.prefix_routes.len(),
            has_default_route: self.default_route.is_some(),
        }
    }
}

/// How many routes the first `n` actions of `t` hold together, counted up
/// to `usize::MAX`.
pub open spec fn total_routes(t: &RouteTable, n: nat) -> int
    decreases n,
{
    if n == 0 {
        0
    } else {
        let s = total_routes(t, (n - 1) as nat) + t.routes_for(t.actions()[n - 1]).len();
        if s > usize::MAX { usize::MAX as int } else { s }
    }
}

/// The actions among the first `n` of `t` that keep a route once module
/// `m`'s routes are gone, in order.
pub open spec fn remaining_actions(t: &RouteTable, m: Seq<char>, n: nat) -> Seq<Seq<char>>
    decreases n,
{
    if n == 0 {
        Seq::empty()
    } else {
        let r = remaining_actions(t, m, (n - 1) as nat);
        let a = t.actions()[n - 1];
        if without_module(t.routes_for(a), m).len() > 0 { r.push(a) } else { r }
    }
}

/// The routes of `v` that do not belong to module `m`.
fn keep_others(v: &Vec<RouteEntry>, m: &str) -> (r: Vec<RouteEntry>)
    ensures
        r@ == without_module(v@, m@),
{
    let mut r: Vec<RouteEntry> = Vec::new();
    let mut i: usize = 0;
    proof {
        assert(v@.take(0) =~= Seq::<RouteEntry>::empty());
    }
    while i < v.len()
        invariant
            i <= v.len(),
            r@ == without_module(v@.take(i as int), m@),
        decreases v.len() - i,
    {
        proof {
            assert(v@.take(i + 1).drop_last() =~= v@.take(i as int));
            assert(v@.take(i + 1).last() == v@[i as int]);
        }
        if !str_eq(v[i].module_id.as_str(), m) {
            r.push(v[i].duplicate());
        }
        i = i + 1;
    }
    proof {
        assert(v@.take(v.len() as int) =~= v@);
    }
    r
}

/// Dropping a module's routes keeps a list ordered by priority, and what
/// is left came from the list.
proof fn lemma_without_module(s: Seq<RouteEntry>, m: Seq<char>)
    ensures
        by_priority(s) ==> by_priority(without_module(s, m)),
        forall|k: int| 0 <= k < without_module(s, m).len() ==> s.contains(#[trigger] without_module(s, m)[k]),
        forall|k: int| 0 <= k < without_module(s, m).len() ==> (#[trigger] without_module(s, m)[k]).module_id@ != m,
    decreases s.len(),
{
    if s.len() > 0 {
        let p = s.drop_last();
        lemma_without_module(p, m);
        let r = without_module(p, m);
        assert forall|k: int| 0 <= k < r.len() implies s.contains(#[trigger] r[k]) by {
            let j = choose|j: int| 0 <= j < p.len() && p[j] == r[k];
            assert(s[j] == r[k]);
        }
        if by_priority(s) {
            assert(by_priority(p)) by {
                assert forall|i: int, j: int| 0 <= i < j < p.len() implies p[i].priority >= p[j].priority by {
                    assert(s[i] == p[i] && s[j] == p[j]);
                }
            }
            if s.last().module_id@ != m {
                let t = r.push(s.last());
                assert forall|i: int, j: int| 0 <= i < j < t.len() implies t[i].priority >= t[j].priority by {
                    if j == r.len() {
                        let q = choose|q: int| 0 <= q < p.len() && p[q] == r[i];
                        assert(s[q] == r[i]);
                        assert(s[q].priority >= s[s.len() - 1].priority);
                    }
                }
            }
        }
    }
}

impl RouteTable {
    /// Removes every route of module `module_id`; actions left without a
    /// route are dropped, and the default route is cleared if it is the
    /// module's.
    pub fn remove_module_routes(&mut self, module_id: &str)
        requires
            old(self).wf(),
        ensures
            final(self).wf(),
            final(self).actions() == remaining_actions(&*old(self), module_id@, old(self).actions().len()),
            forall|a: Seq<char>| #[trigger] final(self).routes_for(a) == without_module(old(self).routes_for(a), module_id@),
            final(self).custom() == without_module(old(self).custom(), module_id@),
            final(self).prefixes() == without_module(old(self).prefixes(), module_id@),
            final(self).default_entry() == match old(self).default_entry() {
                Some(e) => if e.module_id@ == module_id@ { None } else { Some(e) },
                None => None,
            },
            forall|a: Seq<char>| #[trigger] final(self).lookup(a) matches Some(e) ==> e.module_id@ != module_id@,
    {
        let ghost t0 = *self;
        let m = module_id;
        // exact-action routes
        let mut keys: Vec<String> = Vec::new();
        let mut lists: Vec<Vec<RouteEntry>> = Vec::new();
        let mut k: usize = 0;
        proof {
            assert(keys.deep_view() =~= Seq::<Seq<char>>::empty());
        }
        while k < self.action_keys.len()
            invariant
                *self == t0,
                t0.wf(),
                k <= self.action_keys.len(),
                keys.len() == lists.len(),
                keys.deep_view() == remaining_actions(&t0, m@, k as nat),
                keys.deep_view().no_duplicates(),
                forall|x: int| 0 <= x < keys.len() ==> t0.action_keys.deep_view().take(k as int).contains(#[trigger] keys.deep_view()[x]),
                forall|x: int| 0 <= x < lists.len() ==> by_priority(#[trigger] lists@[x]@),
                forall|x: int| 0 <= x < lists.len() ==> (#[trigger] lists@[x]@).len() > 0,
                forall|x: int| 0 <= x < lists.len() ==> (#[trigger] lists@[x]@) == without_module(t0.routes_for(keys.deep_view()[x]), m@),
            decreases self.action_keys.len() - k,
        {
            proof {
                lemma_index_of_unique(t0.action_keys.deep_view(), k as int);
            }
            let filtered = keep_others(&self.action_lists[k], m);
            proof {
                lemma_without_module(t0.action_lists@[k as int]@, m@);
                assert(t0.routes_for(t0.actions()[k as int]) == t0.action_lists@[k as int]@);
            }
            if filtered.len() > 0 {
                let ghost kv = keys.deep_view();
                keys.push(self.action_keys[k].clone());
                lists.push(filtered);
                proof {
                    assert(keys.deep_view() =~= kv.push(t0.actions()[k as int]));
                    assert(!kv.contains(t0.actions()[k as int])) by {
                        if kv.contains(t0.actions()[k as int]) {
                            let x = choose|x: int| 0 <= x < kv.len() && kv[x] == t0.actions()[k as int];
                            assert(t0.action_keys.deep_view().take(k as int).contains(kv[x]));
                            let y = choose|y: int| 0 <= y < k && t0.action_keys.deep_view().take(k as int)[y] == kv[x];
                            assert(t0.action_keys.deep_view()[y] == t0.action_keys.deep_view()[k as int]);
                        }
                    }
                    assert forall|x: int| 0 <= x < keys.len() implies t0.action_keys.deep_view().take(k + 1).contains(#[trigger] keys.deep_view()[x]) by {
                        if x < kv.len() {
                            let y = choose|y: int| 0 <= y < k && t0.action_keys.deep_view().take(k as int)[y] == kv[x];
                            assert(t0.action_keys.deep_view().take(k + 1)[y] == kv[x]);
                        } else {
                            assert(t0.action_keys.deep_view().take(k + 1)[k as int] == keys.deep_view()[x]);
                        }
                    }
                }
            } else {
                proof {
                    assert forall|x: int| 0 <= x < keys.len() implies t0.action_keys.deep_view().take(k + 1).contains(#[trigger] keys.deep_view()[x]) by {
                        let y = choose|y: int| 0 <= y < k && t0.action_keys.deep_view().take(k as int)[y] == keys.deep_view()[x];
                        assert(t0.action_keys.deep_view().take(k + 1)[y] == keys.deep_view()[x]);
                    }
                }
            }
            k = k + 1;
        }
        // regular-expression routes
        let mut custom: Vec<CompiledRoute> = Vec::new();
        let mut old_custom: Vec<CompiledRoute> = Vec::new();
        std::mem::swap(&mut old_custom, &mut self.custom_routes);
        let ghost oc = old_custom@;
        proof {
            assert(oc.len() == old_custom.len());
            assert(oc.map_values(|c: CompiledRoute| c.entry) == t0.custom());
            assert(oc.map_values(|c: CompiledRoute| c.entry).take(0) =~= Seq::<RouteEntry>::empty());
            assert(custom@.map_values(|c: CompiledRoute| c.entry) =~= Seq::<RouteEntry>::empty());
        }
        let mut c: usize = 0;
        while old_custom.len() > 0
            invariant
                c <= oc.len(),
                oc.len() <= usize::MAX,
                old_custom@ == oc.skip(c as int),
                custom@.map_values(|x: CompiledRoute| x.entry) == without_module(oc.map_values(|x: CompiledRoute| x.entry).take(c as int), m@),
                forall|x: int| 0 <= x < custom.len() ==> oc.contains(#[trigger] custom@[x]),
            decreases old_custom.len(),
        {
            let item = old_custom.remove(0);
            let ghost ce = oc.map_values(|x: CompiledRoute| x.entry);
            proof {
                assert(item == oc[c as int]);
                assert(ce.take(c + 1).drop_last() =~= ce.take(c as int));
                assert(ce.take(c + 1).last() == item.entry);
                assert(old_custom@ =~= oc.skip(c + 1));
            }
            if !str_eq(item.entry.module_id.as_str(), m) {
                let ghost before = custom@;
                custom.push(item);
                proof {
                    assert(custom@.map_values(|x: CompiledRoute| x.entry) =~= before.map_values(|x: CompiledRoute| x.entry).push(oc[c as int].entry));
                    assert forall|x: int| 0 <= x < custom.len() implies oc.contains(#[trigger] custom@[x]) by {
                        if x == before.len() {
                            assert(oc[c as int] == custom@[x]);
                        }
                    }
                }
            }
            c = c + 1;
        }
        proof {
            assert(c == oc.len());
            assert(oc.map_values(|x: CompiledRoute| x.entry).take(c as int) =~= oc.map_values(|x: CompiledRoute| x.entry));
            lemma_without_module(t0.custom(), m@);
        }
        self.custom_routes = custom;
        let prefixes = keep_others(&self.prefix_routes, m);
        proof {
            lemma_without_module(t0.prefix_routes@, m@);
        }
        self.prefix_routes = prefixes;
        let clear = match &self.default_route {
            Some(e) => str_eq(e.module_id.as_str(), m),
            None => false,
        };
        if clear {
            self.default_route = None;
        }
        self.action_keys = keys;
        self.action_lists = lists;
        proof {
            let kv = self.action_keys.deep_view();
            assert forall|a: Seq<char>| #[trigger] self.routes_for(a) == without_module(t0.routes_for(a), m@) by {
                if kv.contains(a) {
                    let x = choose|x: int| 0 <= x < kv.len() && kv[x] == a;
                    lemma_index_of_unique(kv, x);
                } else {
                    assert(self.routes_for(a) =~= Seq::<RouteEntry>::empty());
                    assert(t0.actions().take(t0.actions().len() as int) =~= t0.actions());
                    lemma_remaining_actions(&t0, m@, a, t0.actions().len() as nat);
                }
            }
            assert forall|i: int| 0 <= i < self.custom_routes.len() implies (#[trigger] self.custom_routes@[i]).compiled.source()
                == self.custom_routes@[i].entry.pattern@ by {
                let j = choose|j: int| 0 <= j < oc.len() && oc[j] == self.custom_routes@[i];
                assert(t0.custom_routes@[j] == oc[j]);
            }
            assert forall|a: Seq<char>| #[trigger] self.lookup(a) is Some implies self.lookup(a)->0.module_id@ != m@ by {
                lemma_without_module_others(t0.custom(), m@);
                lemma_without_module_others(t0.routes_for(a), m@);
                lemma_without_module_others(t0.prefixes(), m@);
                lemma_picked_from(self.custom(), a);
                lemma_picked_from(self.routes_for(a), a);
                lemma_picked_from(self.prefixes(), a);
            }
        }
    }
}

/// An action of `t` missing from the remaining actions has no route left.
proof fn lemma_remaining_actions(t: &RouteTable, m: Seq<char>, a: Seq<char>, n: nat)
    requires
        t.wf(),
        n <= t.actions().len(),
        !remaining_actions(t, m, n).contains(a),
        t.actions().take(n as int).contains(a) || !t.actions().contains(a),
    ensures
        without_module(t.routes_for(a), m).len() == 0,
    decreases n,
{
    if !t.actions().contains(a) {
        assert(t.routes_for(a) =~= Seq::<RouteEntry>::empty());
    } else if n == 0 {
        assert(t.actions().take(0) =~= Seq::<Seq<char>>::empty());
    } else {
        let r = remaining_actions(t, m, (n - 1) as nat);
        let b = t.actions()[n - 1];
        if b == a {
            if without_module(t.routes_for(b), m).len() > 0 {
                assert(remaining_actions(t, m, n) == r.push(b));
                assert(r.push(b)[r.len() as int] == a);
            }
        } else {
            if without_module(t.routes_for(b), m).len() > 0 {
                assert(remaining_actions(t, m, n) == r.push(b));
                if r.contains(a) {
                    let x = choose|x: int| 0 <= x < r.len() && r[x] == a;
                    assert(r.push(b)[x] == a);
                }
            }
            let y = choose|y: int| 0 <= y < n && t.actions().take(n as int)[y] == a;
            assert(y < n - 1);
            assert(t.actions().take(n - 1)[y] == a);
            lemma_remaining_actions(t, m, a, (n - 1) as nat);
        }
    }
}

} // verus!
