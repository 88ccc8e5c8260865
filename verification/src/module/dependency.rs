//! Module dependency graph.
//!
//! A [`DependencyGraph`] records which module depends on which. It keeps
//! both directions of every edge, detects cycles, and orders modules so
//! that every module comes after the modules it depends on.

pub use super::resolver::DependencyResolver;
use vstd::prelude::*;

use crate::module::graph_index::{
    adj_ok, closed_set, iedge, ireach, is_index_cycle, is_index_order, is_index_walk, is_subset_order,
    lemma_distinct_bounded, order_or_cycle, order_subset, reach_set,
};
use crate::utils::error::CoreError;
use crate::utils::text::{clone_names, join, join_names, position_of, str_eq};

verus! {

/// A module name as a sequence of characters.
pub type Name = Seq<char>;

/// The mathematical content of a dependency graph.
///
/// `nodes[i]` is a module; `deps[i]` lists the modules it depends on and
/// `dependents[i]` the modules that depend on it, each in the order in
/// which the edges were added.
pub ghost struct GraphView {
    pub nodes: Seq<Name>,
    pub deps: Seq<Seq<Name>>,
    pub dependents: Seq<Seq<Name>>,
}

/// The graph with no module.
pub open spec fn empty_graph() -> GraphView {
    GraphView { nodes: Seq::empty(), deps: Seq::empty(), dependents: Seq::empty() }
}

/// `s` with `x` appended unless it already holds it.
pub open spec fn push_unique(s: Seq<Name>, x: Name) -> Seq<Name> {
    if s.contains(x) { s } else { s.push(x) }
}

/// `s` with every occurrence of `x` taken out, order kept.
pub open spec fn without(s: Seq<Name>, x: Name) -> Seq<Name>
    decreases s.len(),
{
    if s.len() == 0 {
        s
    } else {
        let r = without(s.drop_last(), x);
        if s.last() == x { r } else { r.push(s.last()) }
    }
}

impl GraphView {
    /// Number of modules.
    pub open spec fn len(self) -> nat {
        self.nodes.len()
    }

    /// Whether `m` is a module of the graph.
    pub open spec fn has(self, m: Name) -> bool {
        self.nodes.contains(m)
    }

    /// `a` depends directly on `b`.
    pub open spec fn edge(self, a: Name, b: Name) -> bool {
        exists|i: int| 0 <= i < self.len() && self.nodes[i] == a && #[trigger] self.deps[i].contains(b)
    }

    /// The invariant every graph keeps: modules occur once, every list
    /// is free of repetitions and names only modules of the graph, and
    /// the two directions of every edge agree.
    pub open spec fn wf(self) -> bool {
        &&& self.deps.len() == self.nodes.len()
        &&& self.dependents.len() == self.nodes.len()
        &&& self.nodes.no_duplicates()
        &&& forall|i: int| 0 <= i < self.len() ==> (#[trigger] self.deps[i]).no_duplicates()
        &&& forall|i: int| 0 <= i < self.len() ==> (#[trigger] self.dependents[i]).no_duplicates()
        &&& forall|i: int, x: Name| 0 <= i < self.len() && #[trigger] self.deps[i].contains(x) ==> self.nodes.contains(x)
        &&& forall|i: int, x: Name| 0 <= i < self.len() && #[trigger] self.dependents[i].contains(x) ==> self.nodes.contains(x)
        &&& forall|i: int, j: int| 0 <= i < self.len() && 0 <= j < self.len() ==>
            (#[trigger] self.deps[i].contains(self.nodes[j]) <==> #[trigger] self.dependents[j].contains(self.nodes[i]))
    }

    /// The graph with module `m` added, if it was not there.
    pub open spec fn with_node(self, m: Name) -> GraphView {
        if self.has(m) {
            self
        } else {
            GraphView {
                nodes: self.nodes.push(m),
                deps: self.deps.push(Seq::empty()),
                dependents: self.dependents.push(Seq::empty()),
            }
        }
    }
}

impl GraphView {
    /// The graph with the edge "`a` depends on `b`" added, both modules
    /// being added first if they are missing.
    pub open spec fn with_edge(self, a: Name, b: Name) -> GraphView {
        let g = self.with_node(a).with_node(b);
        GraphView {
            nodes: g.nodes,
            deps: Seq::new(g.len(), |i: int| if g.nodes[i] == a { push_unique(g.deps[i], b) } else { g.deps[i] }),
            dependents: Seq::new(
                g.len(),
                |i: int| if g.nodes[i] == b { push_unique(g.dependents[i], a) } else { g.dependents[i] },
            ),
        }
    }
}

impl GraphView {
    /// The graph without the edge "`a` depends on `b`".
    pub open spec fn without_edge(self, a: Name, b: Name) -> GraphView {
        GraphView {
            nodes: self.nodes,
            deps: Seq::new(self.len(), |i: int| if self.nodes[i] == a { without(self.deps[i], b) } else { self.deps[i] }),
            dependents: Seq::new(
                self.len(),
                |i: int| if self.nodes[i] == b { without(self.dependents[i], a) } else { self.dependents[i] },
            ),
        }
    }

    /// The graph without module `m` and without every edge that names it.
    pub open spec fn without_node(self, m: Name) -> GraphView {
        if !self.has(m) {
            self
        } else {
            let k = self.nodes.index_of(m);
            GraphView {
                nodes: self.nodes.remove(k),
                deps: self.deps.remove(k).map_values(|l: Seq<Name>| without(l, m)),
                dependents: self.dependents.remove(k).map_values(|l: Seq<Name>| without(l, m)),
            }
        }
    }

    /// The direct dependencies of `m` (empty if `m` is not a module).
    pub open spec fn deps_of(self, m: Name) -> Seq<Name> {
        if self.has(m) { self.deps[self.nodes.index_of(m)] } else { Seq::empty() }
    }

    /// The modules that depend directly on `m` (empty if `m` is not a module).
    pub open spec fn dependents_of(self, m: Name) -> Seq<Name> {
        if self.has(m) { self.dependents[self.nodes.index_of(m)] } else { Seq::empty() }
    }
}

/// The marked positions, in increasing order.
fn marked_positions(marked: &Vec<bool>) -> (r: Vec<usize>)
    ensures
        r@.no_duplicates(),
        forall|p: int| 0 <= p < r.len() ==> #[trigger] r@[p] < marked.len() && marked@[r@[p] as int],
        forall|x: usize| x < marked.len() && marked@[x as int] ==> #[trigger] r@.contains(x),
{
    let mut r: Vec<usize> = Vec::new();
    let mut i: usize = 0;
    while i < marked.len()
        invariant
            i <= marked.len(),
            r@.no_duplicates(),
            forall|p: int| 0 <= p < r.len() ==> #[trigger] r@[p] < i && marked@[r@[p] as int],
            forall|x: usize| x < i && marked@[x as int] ==> #[trigger] r@.contains(x),
        decreases marked.len() - i,
    {
        if marked[i] {
            let ghost prev = r@;
            r.push(i);
            proof {
                assert(r@.no_duplicates()) by {
                    assert forall|p: int, q: int| 0 <= p < q < r.len() implies r@[p] != r@[q] by {
                        if q == prev.len() {
                            assert(prev[p] < i);
                        }
                    }
                }
                assert forall|x: usize| x < i + 1 && marked@[x as int] implies #[trigger] r@.contains(x) by {
                    if x == i {
                        assert(r@[prev.len() as int] == i);
                    } else {
                        assert(prev.contains(x));
                        let p = choose|p: int| 0 <= p < prev.len() && prev[p] == x;
                        assert(r@[p] == x);
                    }
                }
            }
        }
        i = i + 1;
    }
    r
}

/// The names of `v` in reverse order.
fn reversed(v: &Vec<String>) -> (r: Vec<String>)
    ensures
        r.deep_view() == v.deep_view().reverse(),
{
    let mut r: Vec<String> = Vec::new();
    let mut i: usize = v.len();
    while i > 0
        invariant
            i <= v.len(),
            r.deep_view() =~= v.deep_view().subrange(i as int, v.len() as int).reverse(),
        decreases i,
    {
        i = i - 1;
        let ghost prev = r.deep_view();
        r.push(v[i].clone());
        proof {
            assert(r.deep_view() =~= prev.push(v@[i as int]@));
            assert(v.deep_view().subrange(i as int, v.len() as int).reverse() =~= v.deep_view().subrange(
                i + 1,
                v.len() as int,
            ).reverse().push(v.deep_view()[i as int]));
        }
    }
    proof {
        assert(v.deep_view().subrange(0, v.len() as int) =~= v.deep_view());
    }
    r
}

/// The names of `v` other than `x`, in order.
pub(crate) fn names_without(v: &Vec<String>, x: &str) -> (r: Vec<String>)
    ensures
        r.deep_view() == without(v.deep_view(), x@),
{
    let mut r: Vec<String> = Vec::new();
    let mut i: usize = 0;
    while i < v.len()
        invariant
            i <= v.len(),
            r.deep_view() == without(v.deep_view().take(i as int), x@),
        decreases v.len() - i,
    {
        proof {
            assert(v.deep_view().take(i + 1).drop_last() =~= v.deep_view().take(i as int));
        }
        if !str_eq(v[i].as_str(), x) {
            r.push(v[i].clone());
            proof {
                assert(r.deep_view() =~= without(v.deep_view().take(i as int), x@).push(v@[i as int]@));
            }
        }
        i = i + 1;
    }
    proof {
        assert(v.deep_view().take(v.len() as int) =~= v.deep_view());
    }
    r
}

impl GraphView {
    /// `c` is a closed walk along dependencies: every module in it
    /// depends on the next one, and the last module is the first.
    pub open spec fn is_cycle(self, c: Seq<Name>) -> bool {
        &&& c.len() >= 2
        &&& c[0] == c.last()
        &&& forall|k: int| #![trigger c[k]] 0 <= k < c.len() - 1 ==> self.edge(c[k], c[k + 1])
    }

    /// A cycle that visits no module twice before it closes.
    pub open spec fn is_simple_cycle(self, c: Seq<Name>) -> bool {
        self.is_cycle(c) && c.drop_last().no_duplicates()
    }

    /// The graph has no dependency cycle.
    pub open spec fn acyclic(self) -> bool {
        forall|c: Seq<Name>| !#[trigger] self.is_cycle(c)
    }

    /// `o` lists every module exactly once, and every module comes after
    /// every module it depends on.
    pub open spec fn is_load_order(self, o: Seq<Name>) -> bool {
        &&& o.len() == self.len()
        &&& o.no_duplicates()
        &&& forall|x: Name| #[trigger] o.contains(x) <==> self.has(x)
        &&& forall|p: int, q: int| #![trigger o[p], o[q]] 0 <= p <= q < o.len() ==> !self.edge(o[p], o[q])
    }
}

impl GraphView {
    /// `e` reports a simple cycle of the graph by the text of its modules.
    pub open spec fn is_cycle_error(self, e: CoreError) -> bool {
        exists|c: Seq<Name>|
            #[trigger] self.is_simple_cycle(c) && match e {
                CoreError::CircularDependency(msg) => msg@ == cycle_text(c),
                _ => false,
            }
    }
}

impl GraphView {
    /// Module `b` is reached from module `a` through one or more dependencies.
    pub open spec fn reaches(self, a: Name, b: Name) -> bool {
        exists|p: Seq<Name>|
            #![trigger p.len(), p[0], p.last()]
            p.len() >= 2 && p[0] == a && p.last() == b && forall|k: int|
                #![trigger p[k]]
                0 <= k < p.len() - 1 ==> self.edge(p[k], p[k + 1])
    }
}

/// The text of a cycle, its modules joined by arrows.
pub open spec fn cycle_text(c: Seq<Name>) -> Seq<char> {
    join(c, seq![' ', '-', '>', ' '])
}

/// `adj` numbers the dependencies of `g`: `adj[i][k]` is the position in
/// `g.nodes` of `g.deps[i][k]`.
pub open spec fn adj_matches(g: GraphView, adj: Seq<Seq<usize>>) -> bool {
    &&& adj.len() == g.len()
    &&& forall|i: int| 0 <= i < g.len() ==> (#[trigger] adj[i]).len() == g.deps[i].len()
    &&& forall|i: int, k: int|
        0 <= i < g.len() && 0 <= k < adj[i].len() ==> #[trigger] adj[i][k] < g.len() && g.nodes[adj[i][k] as int]
            == g.deps[i][k]
}

/// Numbered edges are the graph's edges.
proof fn lemma_adj_edge(g: GraphView, adj: Seq<Seq<usize>>, i: int, j: int)
    requires
        g.wf(),
        adj_matches(g, adj),
        0 <= i < g.len(),
        0 <= j < g.len(),
        j <= usize::MAX,
    ensures
        iedge(adj, i, j) <==> g.edge(g.nodes[i], g.nodes[j]),
{
    if iedge(adj, i, j) {
        let k = choose|k: int| 0 <= k < adj[i].len() && adj[i][k] == j as usize;
        assert(adj[i][k] < g.len());
        assert(adj[i][k] as int == j);
        assert(g.nodes[adj[i][k] as int] == g.deps[i][k]);
        assert(g.deps[i][k] == g.nodes[j]);
        assert(g.deps[i].contains(g.nodes[j]));
    }
    if g.edge(g.nodes[i], g.nodes[j]) {
        let i2 = choose|i2: int| 0 <= i2 < g.len() && g.nodes[i2] == g.nodes[i] && #[trigger] g.deps[i2].contains(g.nodes[j]);
        assert(i2 == i);
        let k = choose|k: int| 0 <= k < g.deps[i].len() && g.deps[i][k] == g.nodes[j];
        assert(adj[i][k] < g.len());
        assert(g.nodes[adj[i][k] as int] == g.nodes[j]);
        assert(adj[i][k] == j as usize);
        assert(adj[i].contains(j as usize));
    }
}

/// A numbered cycle is a cycle of the graph.
proof fn lemma_index_cycle_names(g: GraphView, adj: Seq<Seq<usize>>, cyc: Seq<usize>, c: Seq<Name>)
    requires
        g.wf(),
        adj_matches(g, adj),
        is_index_cycle(adj, cyc),
        c.len() == cyc.len(),
        forall|p: int| 0 <= p < cyc.len() ==> #[trigger] c[p] == g.nodes[cyc[p] as int],
    ensures
        g.is_simple_cycle(c),
        !g.acyclic(),
{
    assert forall|k: int| #![trigger c[k]] 0 <= k < c.len() - 1 implies g.edge(c[k], c[k + 1]) by {
        lemma_adj_edge(g, adj, cyc[k] as int, cyc[k + 1] as int);
        assert(iedge(adj, cyc[k] as int, cyc[k + 1] as int));
    }
    assert(c.drop_last().no_duplicates()) by {
        assert forall|p: int, q: int| 0 <= p < q < c.len() - 1 implies c.drop_last()[p] != c.drop_last()[q] by {
            assert(cyc.drop_last()[p] != cyc.drop_last()[q]);
        }
    }
    assert(c[0] == c.last());
    assert(g.is_cycle(c));
}

/// Numbered reachability is reachability between the named modules.
proof fn lemma_ireach_names(g: GraphView, adj: Seq<Seq<usize>>, i: usize, j: usize)
    requires
        g.wf(),
        adj_matches(g, adj),
        i < g.len(),
        j < g.len(),
        g.len() <= usize::MAX,
    ensures
        ireach(adj, i, j) <==> g.reaches(g.nodes[i as int], g.nodes[j as int]),
{
    if ireach(adj, i, j) {
        let w = choose|w: Seq<usize>| #[trigger] is_index_walk(adj, w) && w.len() >= 2 && w[0] == i && w.last() == j;
        let p = w.map_values(|x: usize| g.nodes[x as int]);
        assert forall|k: int| #![trigger p[k]] 0 <= k < p.len() - 1 implies g.edge(p[k], p[k + 1]) by {
            assert(iedge(adj, w[k] as int, w[k + 1] as int));
            assert(w[k] < adj.len());
            assert(w[k + 1] < adj.len());
            lemma_adj_edge(g, adj, w[k] as int, w[k + 1] as int);
        }
        assert(p[0] == g.nodes[i as int]);
        assert(p.last() == g.nodes[j as int]);
    }
    if g.reaches(g.nodes[i as int], g.nodes[j as int]) {
        let p = choose|p: Seq<Name>|
            #![trigger p.len(), p[0], p.last()]
            p.len() >= 2 && p[0] == g.nodes[i as int] && p.last() == g.nodes[j as int] && forall|k: int|
                #![trigger p[k]]
                0 <= k < p.len() - 1 ==> g.edge(p[k], p[k + 1]);
        assert forall|k: int| 0 <= k < p.len() implies #[trigger] g.has(p[k]) by {
            if k < p.len() - 1 {
                lemma_edge_nodes(g, p[k], p[k + 1]);
            } else {
                lemma_edge_nodes(g, p[k - 1], p[k]);
            }
        }
        let w = p.map_values(|x: Name| g.nodes.index_of(x) as usize);
        assert forall|k: int| 0 <= k < w.len() implies #[trigger] w[k] < adj.len() && g.nodes[w[k] as int] == p[k] by {
            assert(g.has(p[k]));
        }
        assert forall|k: int| 0 <= k < w.len() - 1 implies iedge(adj, #[trigger] w[k] as int, w[k + 1] as int) by {
            assert(g.has(p[k]));
            assert(g.has(p[k + 1]));
            assert(w[k] < adj.len() && g.nodes[w[k] as int] == p[k]);
            assert(w[k + 1] < adj.len() && g.nodes[w[k + 1] as int] == p[k + 1]);
            assert(g.edge(p[k], p[k + 1]));
            lemma_adj_edge(g, adj, w[k] as int, w[k + 1] as int);
        }
        assert(is_index_walk(adj, w));
        assert(w[0] == i) by {
            assert(g.nodes[w[0] as int] == g.nodes[i as int]);
        }
        assert(w.last() == j) by {
            assert(g.nodes[w[w.len() - 1] as int] == g.nodes[j as int]);
        }
    }
}

/// Every edge joins two modules of the graph.
proof fn lemma_edge_nodes(g: GraphView, a: Name, b: Name)
    requires
        g.wf(),
        g.edge(a, b),
    ensures
        g.has(a),
        g.has(b),
{
    let i = choose|i: int| 0 <= i < g.len() && g.nodes[i] == a && #[trigger] g.deps[i].contains(b);
    assert(g.nodes[i] == a);
}

/// A repetition-free sequence of `n` numbers below `n` holds each of them.
proof fn lemma_full_covers(s: Seq<usize>, n: usize, x: usize)
    requires
        s.no_duplicates(),
        s.len() == n,
        forall|i: int| 0 <= i < s.len() ==> #[trigger] s[i] < n,
        x < n,
    ensures
        s.contains(x),
{
    if !s.contains(x) {
        let t = s.map_values(|v: usize| if v > x { (v - 1) as usize } else { v });
        assert forall|i: int| 0 <= i < t.len() implies #[trigger] t[i] < (n - 1) as usize by {
            assert(s[i] != x);
        }
        assert(t.no_duplicates()) by {
            assert forall|p: int, q: int| 0 <= p < q < t.len() implies t[p] != t[q] by {
                assert(s[p] != s[q]);
                assert(s[p] != x);
                assert(s[q] != x);
            }
        }
        lemma_distinct_bounded(t, (n - 1) as usize);
    }
}

/// A graph that has a load order has no cycle.
pub proof fn lemma_load_order_acyclic(g: GraphView, o: Seq<Name>)
    requires
        g.wf(),
        g.is_load_order(o),
    ensures
        g.acyclic(),
{
    assert forall|c: Seq<Name>| !#[trigger] g.is_cycle(c) by {
        if g.is_cycle(c) {
            assert forall|k: int| 1 <= k < c.len() implies o.index_of(#[trigger] c[k]) < o.index_of(c[0]) && o.contains(c[k])
                && o[o.index_of(c[k])] == c[k] by {
                lemma_cycle_positions(g, o, c, k);
            }
            let l = c.len() - 1;
            assert(c[l] == c[0]);
        }
    }
}

/// Along a cycle, positions in a load order decrease from the start.
proof fn lemma_cycle_positions(g: GraphView, o: Seq<Name>, c: Seq<Name>, k: int)
    requires
        g.wf(),
        g.is_load_order(o),
        g.is_cycle(c),
        1 <= k < c.len(),
    ensures
        o.contains(c[k]),
        o[o.index_of(c[k])] == c[k],
        o.index_of(c[k]) < o.index_of(c[0]),
    decreases k,
{
    let prev = c[k - 1];
    let cur = c[k];
    assert(g.edge(c[k - 1], c[k]));
    lemma_edge_nodes(g, prev, cur);
    assert(o.contains(prev));
    assert(o.contains(cur));
    let p = o.index_of(prev);
    let q = o.index_of(cur);
    assert(o[p] == prev);
    assert(o[q] == cur);
    if q >= p {
        assert(!g.edge(o[p], o[q]));
    }
    if k > 1 {
        lemma_cycle_positions(g, o, c, k - 1);
    }
}

/// Membership in `push_unique(s, x)`.
pub proof fn lemma_push_unique_contains(s: Seq<Name>, x: Name, y: Name)
    ensures
        push_unique(s, x).contains(y) <==> (s.contains(y) || y == x),
        s.no_duplicates() ==> push_unique(s, x).no_duplicates(),
{
    if !s.contains(x) {
        let t = s.push(x);
        if s.contains(y) {
            let k = choose|k: int| 0 <= k < s.len() && s[k] == y;
            assert(t[k] == y);
        }
        if y == x {
            assert(t[s.len() as int] == y);
        }
        if t.contains(y) && y != x {
            let k = choose|k: int| 0 <= k < t.len() && t[k] == y;
            assert(s[k] == y);
        }
        if s.no_duplicates() {
            assert forall|p: int, q: int| 0 <= p < q < t.len() implies t[p] != t[q] by {
                if q == s.len() {
                    assert(s.contains(s[p]));
                }
            }
        }
    }
}

/// Membership in `without(s, x)`.
pub proof fn lemma_without(s: Seq<Name>, x: Name)
    ensures
        forall|y: Name| #[trigger] without(s, x).contains(y) <==> (s.contains(y) && y != x),
        s.no_duplicates() ==> without(s, x).no_duplicates(),
        without(s, x).len() <= s.len(),
        !s.contains(x) ==> without(s, x) == s,
    decreases s.len(),
{
    if s.len() > 0 {
        let t = s.drop_last();
        lemma_without(t, x);
        let r = without(t, x);
        assert forall|y: Name| #[trigger] without(s, x).contains(y) <==> (s.contains(y) && y != x) by {
            if s.contains(y) && y != x {
                let k = choose|k: int| 0 <= k < s.len() && s[k] == y;
                if k < t.len() {
                    assert(t[k] == y);
                    assert(r.contains(y));
                    if s.last() != x {
                        let k2 = choose|k2: int| 0 <= k2 < r.len() && r[k2] == y;
                        assert(r.push(s.last())[k2] == y);
                    }
                } else {
                    assert(r.push(s.last())[r.len() as int] == y);
                }
            }
            if without(s, x).contains(y) {
                let k = choose|k: int| 0 <= k < without(s, x).len() && without(s, x)[k] == y;
                if s.last() != x && k == r.len() {
                    assert(s[s.len() - 1] == y);
                } else {
                    assert(r[k] == y);
                    assert(r.contains(y));
                    let k2 = choose|k2: int| 0 <= k2 < t.len() && t[k2] == y;
                    assert(s[k2] == y);
                }
            }
        }
        if s.no_duplicates() {
            assert(t.no_duplicates());
            if s.last() != x {
                assert(!t.contains(s.last())) by {
                    if t.contains(s.last()) {
                        let k = choose|k: int| 0 <= k < t.len() && t[k] == s.last();
                        assert(s[k] == s[s.len() - 1]);
                    }
                }
                assert(!r.contains(s.last()));
                let w = r.push(s.last());
                assert forall|p: int, q: int| 0 <= p < q < w.len() implies w[p] != w[q] by {
                    if q == r.len() {
                        assert(r.contains(r[p]));
                    }
                }
            }
        }
        if !s.contains(x) {
            assert(!t.contains(x)) by {
                if t.contains(x) {
                    let k = choose|k: int| 0 <= k < t.len() && t[k] == x;
                    assert(s[k] == x);
                }
            }
            assert(s.last() != x) by {
                assert(s[s.len() - 1] == s.last());
            }
            assert(s =~= t.push(s.last()));
        }
    } else {
        assert(without(s, x) == s);
    }
}

/// Adding an edge between two modules of a well-formed graph keeps it well-formed.
proof fn lemma_with_edge_wf(g: GraphView, a: Name, b: Name)
    requires
        g.wf(),
        g.has(a),
        g.has(b),
    ensures
        g.with_edge(a, b).wf(),
        g.with_node(a).with_node(b) == g,
{
    let h = g.with_edge(a, b);
    assert(g.with_node(a) == g);
    assert(g.with_node(a).with_node(b) == g);
    assert forall|i: int| 0 <= i < h.len() implies (#[trigger] h.deps[i]).no_duplicates() by {
        lemma_push_unique_contains(g.deps[i], b, b);
    }
    assert forall|i: int| 0 <= i < h.len() implies (#[trigger] h.dependents[i]).no_duplicates() by {
        lemma_push_unique_contains(g.dependents[i], a, a);
    }
    assert forall|i: int, x: Name| 0 <= i < h.len() && #[trigger] h.deps[i].contains(x) implies h.nodes.contains(x) by {
        lemma_push_unique_contains(g.deps[i], b, x);
    }
    assert forall|i: int, x: Name| 0 <= i < h.len() && #[trigger] h.dependents[i].contains(x) implies h.nodes.contains(x) by {
        lemma_push_unique_contains(g.dependents[i], a, x);
    }
    assert forall|i: int, j: int| 0 <= i < h.len() && 0 <= j < h.len() implies
        (#[trigger] h.deps[i].contains(h.nodes[j]) <==> #[trigger] h.dependents[j].contains(h.nodes[i])) by {
        assert(g.deps[i].contains(g.nodes[j]) <==> g.dependents[j].contains(g.nodes[i]));
        lemma_push_unique_contains(g.deps[i], b, g.nodes[j]);
        lemma_push_unique_contains(g.dependents[j], a, g.nodes[i]);
    }
}

/// Taking an edge out of a well-formed graph keeps it well-formed.
proof fn lemma_without_edge_wf(g: GraphView, a: Name, b: Name)
    requires
        g.wf(),
    ensures
        g.without_edge(a, b).wf(),
{
    let h = g.without_edge(a, b);
    assert forall|i: int| 0 <= i < h.len() implies (#[trigger] h.deps[i]).no_duplicates() by {
        lemma_without(g.deps[i], b);
    }
    assert forall|i: int| 0 <= i < h.len() implies (#[trigger] h.dependents[i]).no_duplicates() by {
        lemma_without(g.dependents[i], a);
    }
    assert forall|i: int, x: Name| 0 <= i < h.len() && #[trigger] h.deps[i].contains(x) implies h.nodes.contains(x) by {
        lemma_without(g.deps[i], b);
    }
    assert forall|i: int, x: Name| 0 <= i < h.len() && #[trigger] h.dependents[i].contains(x) implies h.nodes.contains(x) by {
        lemma_without(g.dependents[i], a);
    }
    assert forall|i: int, j: int| 0 <= i < h.len() && 0 <= j < h.len() implies
        (#[trigger] h.deps[i].contains(h.nodes[j]) <==> #[trigger] h.dependents[j].contains(h.nodes[i])) by {
        assert(g.deps[i].contains(g.nodes[j]) <==> g.dependents[j].contains(g.nodes[i]));
        lemma_without(g.deps[i], b);
        lemma_without(g.dependents[j], a);
    }
}

/// Removing a module from a well-formed graph keeps it well-formed.
proof fn lemma_without_node_wf(g: GraphView, m: Name)
    requires
        g.wf(),
    ensures
        g.without_node(m).wf(),
        !g.without_node(m).has(m),
{
    if g.has(m) {
        let k = g.nodes.index_of(m);
        let h = g.without_node(m);
        let idx = |i: int| if i < k { i } else { i + 1 };
        assert forall|i: int| 0 <= i < h.len() implies h.nodes[i] == g.nodes[idx(i)] && h.deps[i] == without(
            g.deps[idx(i)],
            m,
        ) && h.dependents[i] == without(g.dependents[idx(i)], m) by {}
        assert(h.nodes.no_duplicates()) by {
            assert forall|p: int, q: int| 0 <= p < q < h.len() implies h.nodes[p] != h.nodes[q] by {
                assert(g.nodes[idx(p)] != g.nodes[idx(q)]);
            }
        }
        assert forall|x: Name| g.nodes.contains(x) && x != m implies #[trigger] h.nodes.contains(x) by {
            let j = choose|j: int| 0 <= j < g.len() && g.nodes[j] == x;
            if j < k {
                assert(h.nodes[j] == x);
            } else {
                assert(j != k);
                assert(h.nodes[j - 1] == x);
            }
        }
        assert forall|i: int| 0 <= i < h.len() implies (#[trigger] h.deps[i]).no_duplicates() by {
            lemma_without(g.deps[idx(i)], m);
        }
        assert forall|i: int| 0 <= i < h.len() implies (#[trigger] h.dependents[i]).no_duplicates() by {
            lemma_without(g.dependents[idx(i)], m);
        }
        assert forall|i: int, x: Name| 0 <= i < h.len() && #[trigger] h.deps[i].contains(x) implies h.nodes.contains(x) by {
            lemma_without(g.deps[idx(i)], m);
        }
        assert forall|i: int, x: Name| 0 <= i < h.len() && #[trigger] h.dependents[i].contains(x) implies h.nodes.contains(x) by {
            lemma_without(g.dependents[idx(i)], m);
        }
        assert forall|i: int, j: int| 0 <= i < h.len() && 0 <= j < h.len() implies
            (#[trigger] h.deps[i].contains(h.nodes[j]) <==> #[trigger] h.dependents[j].contains(h.nodes[i])) by {
            assert(g.deps[idx(i)].contains(g.nodes[idx(j)]) <==> g.dependents[idx(j)].contains(g.nodes[idx(i)]));
            lemma_without(g.deps[idx(i)], m);
            lemma_without(g.dependents[idx(j)], m);
            assert(g.nodes[idx(j)] != m);
            assert(g.nodes[idx(i)] != m);
        }
        assert(!h.has(m)) by {
            if h.has(m) {
                let j = choose|j: int| 0 <= j < h.len() && h.nodes[j] == m;
                assert(g.nodes[idx(j)] == m);
            }
        }
    }
}

/// Dependency relations between modules.
pub struct DependencyGraph {
    nodes: Vec<String>,
    deps: Vec<Vec<String>>,
    dependents: Vec<Vec<String>>,
}

impl View for DependencyGraph {
    type V = GraphView;

    closed spec fn view(&self) -> GraphView {
        GraphView {
            nodes: self.nodes.deep_view(),
            deps: self.deps.deep_view(),
            dependents: self.dependents.deep_view(),
        }
    }
}

impl DependencyGraph {
    /// Well-formedness of the graph (see [`GraphView::wf`]).
    pub open spec fn wf(&self) -> bool {
        self@.wf()
    }

    /// An empty graph.
    pub fn new() -> (g: Self)
        ensures
            g.wf(),
            g@.nodes.len() == 0,
            g@ == empty_graph(),
    {
        let g = DependencyGraph { nodes: Vec::new(), deps: Vec::new(), dependents: Vec::new() };
        proof {
            assert(g@.nodes =~= Seq::<Name>::empty());
            assert(g@.deps =~= Seq::<Seq<Name>>::empty());
            assert(g@.dependents =~= Seq::<Seq<Name>>::empty());
        }
        g
    }

    /// Adds module `module_id`; a module that is already there is left as it is.
    pub fn add_module(&mut self, module_id: &str)
        requires
            old(self).wf(),
        ensures
            final(self).wf(),
            final(self)@ == old(self)@.with_node(module_id@),
    {
        let ghost g = self@;
        if position_of(&self.nodes, module_id).is_none() {
            let e1: Vec<String> = Vec::new();
            let e2: Vec<String> = Vec::new();
            proof {
                assert(e1.deep_view() =~= Seq::<Name>::empty());
                assert(e2.deep_view() =~= Seq::<Name>::empty());
            }
            self.nodes.push(module_id.to_string());
            self.deps.push(e1);
            self.dependents.push(e2);
            proof {
                broadcast use vstd::string::group_string_axioms;
                let ng = g.with_node(module_id@);
                assert(self@.nodes =~= ng.nodes);
                assert(self@.deps[g.len() as int] == e1.deep_view());
                assert(self@.deps =~= ng.deps);
                assert(self@.dependents[g.len() as int] == e2.deep_view());
                assert(self@.dependents =~= ng.dependents);
                assert forall|i: int, x: Name| 0 <= i < self@.len() && #[trigger] self@.deps[i].contains(x)
                    implies self@.nodes.contains(x) by {
                    if i < g.len() {
                        assert(g.deps[i].contains(x));
                        let k = choose|k: int| 0 <= k < g.len() && g.nodes[k] == x;
                        assert(self@.nodes[k] == x);
                    }
                }
                assert forall|i: int, x: Name| 0 <= i < self@.len() && #[trigger] self@.dependents[i].contains(x)
                    implies self@.nodes.contains(x) by {
                    if i < g.len() {
                        assert(g.dependents[i].contains(x));
                        let k = choose|k: int| 0 <= k < g.len() && g.nodes[k] == x;
                        assert(self@.nodes[k] == x);
                    }
                }
                assert forall|i: int, j: int| 0 <= i < self@.len() && 0 <= j < self@.len() implies
                    (#[trigger] self@.deps[i].contains(self@.nodes[j]) <==> #[trigger] self@.dependents[j].contains(self@.nodes[i])) by {
                    if i == g.len() as int {
                        assert(!self@.deps[i].contains(self@.nodes[j]));
                        if j < g.len() {
                            if g.dependents[j].contains(module_id@) {
                                let k = choose|k: int| 0 <= k < g.len() && g.nodes[k] == module_id@;
                                assert(g.nodes.contains(module_id@));
                            }
                        }
                    } else if j == g.len() as int {
                        assert(!self@.dependents[j].contains(self@.nodes[i]));
                        if g.deps[i].contains(module_id@) {
                            let k = choose|k: int| 0 <= k < g.len() && g.nodes[k] == module_id@;
                            assert(g.nodes.contains(module_id@));
                        }
                    }
                }
            }
        } else {
            proof {
                assert(self@ == g);
            }
        }
    }

    /// Records that `module_id` depends on `dependency_id`, adding either
    /// module if it is missing. An edge that is already there is not repeated.
    pub fn add_dependency(&mut self, module_id: &str, dependency_id: &str)
        requires
            old(self).wf(),
        ensures
            final(self).wf(),
            final(self)@ == old(self)@.with_edge(module_id@, dependency_id@),
            final(self)@.edge(module_id@, dependency_id@),
    {
        let ghost g0 = self@;
        self.add_module(module_id);
        proof {
            if !g0.has(module_id@) {
                assert(self@.nodes[self@.len() - 1] == module_id@);
            }
            assert(self@.has(module_id@));
        }
        let ghost g1 = self@;
        self.add_module(dependency_id);
        let ghost g = self@;
        proof {
            if !g1.has(dependency_id@) {
                assert(self@.nodes[self@.len() - 1] == dependency_id@);
                let k = choose|k: int| 0 <= k < g1.len() && g1.nodes[k] == module_id@;
                assert(self@.nodes[k] == module_id@);
            }
            assert(self@.has(module_id@));
            assert(self@.has(dependency_id@));
        }
        let ia = position_of(&self.nodes, module_id).unwrap();
        let mut list = clone_names(&self.deps[ia]);
        if position_of(&list, dependency_id).is_none() {
            list.push(dependency_id.to_string());
        }
        self.deps.set(ia, list);
        let ib = position_of(&self.nodes, dependency_id).unwrap();
        let mut back = clone_names(&self.dependents[ib]);
        if position_of(&back, module_id).is_none() {
            back.push(module_id.to_string());
        }
        self.dependents.set(ib, back);
        proof {
            broadcast use vstd::string::group_string_axioms;
            lemma_with_edge_wf(g, module_id@, dependency_id@);
            let h = g.with_edge(module_id@, dependency_id@);
            assert(self@.nodes == h.nodes);
            assert forall|i: int| 0 <= i < h.len() implies self@.deps[i] == h.deps[i] by {
                if i == ia as int {
                    assert(self@.deps[i] =~= h.deps[i]);
                } else {
                    assert(g.nodes[i] != module_id@);
                }
            }
            assert forall|i: int| 0 <= i < h.len() implies self@.dependents[i] == h.dependents[i] by {
                if i == ib as int {
                    assert(self@.dependents[i] =~= h.dependents[i]);
                } else {
                    assert(g.nodes[i] != dependency_id@);
                }
            }
            assert(self@.deps =~= h.deps);
            assert(self@.dependents =~= h.dependents);
            assert(h.deps[ia as int].contains(dependency_id@)) by {
                if !g.deps[ia as int].contains(dependency_id@) {
                    assert(h.deps[ia as int][g.deps[ia as int].len() as int] == dependency_id@);
                }
            }
        }
    }

    /// Removes the edge "`module_id` depends on `dependency_id`"; both
    /// modules stay in the graph.
    pub fn remove_dependency(&mut self, module_id: &str, dependency_id: &str)
        requires
            old(self).wf(),
        ensures
            final(self).wf(),
            final(self)@ == old(self)@.without_edge(module_id@, dependency_id@),
            !final(self)@.edge(module_id@, dependency_id@),
    {
        let ghost g = self@;
        let ghost h = g.without_edge(module_id@, dependency_id@);
        if let Some(ia) = position_of(&self.nodes, module_id) {
            let list = names_without(&self.deps[ia], dependency_id);
            self.deps.set(ia, list);
        }
        if let Some(ib) = position_of(&self.nodes, dependency_id) {
            let back = names_without(&self.dependents[ib], module_id);
            self.dependents.set(ib, back);
        }
        proof {
            lemma_without_edge_wf(g, module_id@, dependency_id@);
            assert forall|i: int| 0 <= i < g.len() implies self@.deps[i] == h.deps[i] by {
                if g.nodes[i] == module_id@ {
                    assert(g.nodes.contains(module_id@));
                }
            }
            assert forall|i: int| 0 <= i < g.len() implies self@.dependents[i] == h.dependents[i] by {
                if g.nodes[i] == dependency_id@ {
                    assert(g.nodes.contains(dependency_id@));
                }
            }
            assert(self@.deps =~= h.deps);
            assert(self@.dependents =~= h.dependents);
            assert(self@.nodes == h.nodes);
            assert forall|i: int| 0 <= i < h.len() && h.nodes[i] == module_id@ implies !(#[trigger] h.deps[i]).contains(dependency_id@) by {
                lemma_without(g.deps[i], dependency_id@);
            }
        }
    }

    /// Removes module `module_id` together with every edge that names it.
    pub fn remove_module(&mut self, module_id: &str)
        requires
            old(self).wf(),
        ensures
            final(self).wf(),
            final(self)@ == old(self)@.without_node(module_id@),
            !final(self)@.has(module_id@),
    {
        let ghost g = self@;
        proof {
            lemma_without_node_wf(g, module_id@);
        }
        if let Some(k) = position_of(&self.nodes, module_id) {
            let ghost h = g.without_node(module_id@);
            proof {
                assert(g.nodes.contains(module_id@));
                assert(g.nodes.index_of(module_id@) == k as int);
            }
            self.nodes.remove(k);
            self.deps.remove(k);
            self.dependents.remove(k);
            let n = self.nodes.len();
            let mut new_deps: Vec<Vec<String>> = Vec::new();
            let mut new_back: Vec<Vec<String>> = Vec::new();
            let mut i: usize = 0;
            while i < n
                invariant
                    n == self.nodes.len(),
                    self.deps.len() == n,
                    self.dependents.len() == n,
                    i <= n,
                    k < g.len(),
                    g.wf(),
                    self.deps.deep_view() == g.deps.remove(k as int),
                    self.dependents.deep_view() == g.dependents.remove(k as int),
                    new_deps.deep_view() =~= h.deps.take(i as int),
                    new_back.deep_view() =~= h.dependents.take(i as int),
                    h.deps.len() == n,
                    h.dependents.len() == n,
                    h.deps == g.deps.remove(k as int).map_values(|l: Seq<Name>| without(l, module_id@)),
                    h.dependents == g.dependents.remove(k as int).map_values(|l: Seq<Name>| without(l, module_id@)),
                decreases n - i,
            {
                let a = names_without(&self.deps[i], module_id);
                let b = names_without(&self.dependents[i], module_id);
                proof {
                    assert(self.deps.deep_view()[i as int] == self.deps@[i as int].deep_view());
                    assert(a.deep_view() == h.deps[i as int]);
                    assert(self.dependents.deep_view()[i as int] == self.dependents@[i as int].deep_view());
                    assert(b.deep_view() == h.dependents[i as int]);
                }
                let ghost pd = new_deps.deep_view();
                let ghost pb = new_back.deep_view();
                let ghost ad = a.deep_view();
                let ghost bd = b.deep_view();
                new_deps.push(a);
                new_back.push(b);
                proof {
                    assert(new_deps.deep_view() =~= pd.push(ad));
                    assert(new_back.deep_view() =~= pb.push(bd));
                    assert(h.deps.take(i + 1) =~= h.deps.take(i as int).push(h.deps[i as int]));
                    assert(h.dependents.take(i + 1) =~= h.dependents.take(i as int).push(h.dependents[i as int]));
                }
                i = i + 1;
            }
            self.deps = new_deps;
            self.dependents = new_back;
            proof {
                assert(self@.nodes =~= h.nodes);
                assert(h.deps.take(n as int) =~= h.deps);
                assert(h.dependents.take(n as int) =~= h.dependents);
            }
        }
    }

    /// The modules that `module_id` depends on directly, in the order the
    /// edges were added (empty for an unknown module).
    pub fn get_dependencies(&self, module_id: &str) -> (r: Vec<String>)
        requires
            self.wf(),
        ensures
            r.deep_view() == self@.deps_of(module_id@),
    {
        match position_of(&self.nodes, module_id) {
            Some(i) => {
                proof {
                    assert(self@.nodes.contains(module_id@));
                    assert(self@.nodes.index_of(module_id@) == i as int);
                }
                clone_names(&self.deps[i])
            },
            None => {
                let r: Vec<String> = Vec::new();
                proof {
                    assert(r.deep_view() =~= Seq::<Name>::empty());
                }
                r
            },
        }
    }

    /// The modules that depend directly on `module_id`, in the order the
    /// edges were added (empty for an unknown module).
    pub fn get_dependents(&self, module_id: &str) -> (r: Vec<String>)
        requires
            self.wf(),
        ensures
            r.deep_view() == self@.dependents_of(module_id@),
    {
        match position_of(&self.nodes, module_id) {
            Some(i) => {
                proof {
                    assert(self@.nodes.contains(module_id@));
                    assert(self@.nodes.index_of(module_id@) == i as int);
                }
                clone_names(&self.dependents[i])
            },
            None => {
                let r: Vec<String> = Vec::new();
                proof {
                    assert(r.deep_view() =~= Seq::<Name>::empty());
                }
                r
            },
        }
    }

    /// Removes every module and every edge.
    pub fn clear(&mut self)
        ensures
            final(self).wf(),
            final(self)@.nodes.len() == 0,
    {
        *self = DependencyGraph::new();
    }

    /// Whether the graph holds no module.
    pub fn is_empty(&self) -> (r: bool)
        ensures
            r == (self@.nodes.len() == 0),
    {
        self.nodes.len() == 0
    }

    /// Number of modules in the graph.
    pub fn module_count(&self) -> (r: usize)
        ensures
            r == self@.nodes.len(),
    {
        self.nodes.len()
    }

    /// Whether `module_id` is a module of the graph.
    pub fn contains_module(&self, module_id: &str) -> (r: bool)
        ensures
            r == self@.has(module_id@),
    {
        position_of(&self.nodes, module_id).is_some()
    }

    /// For each module, the positions of the modules it depends on.
    fn index_adjacency(&self) -> (adj: Vec<Vec<usize>>)
        requires
            self.wf(),
        ensures
            adj_matches(self@, adj.deep_view()),
            adj_ok(adj.deep_view()),
    {
        let ghost g = self@;
        let n = self.nodes.len();
        let mut adj: Vec<Vec<usize>> = Vec::new();
        let mut i: usize = 0;
        while i < n
            invariant
                g == self@,
                g.wf(),
                n == g.len(),
                n == self.deps.len(),
                i <= n,
                adj.len() == i,
                forall|i2: int| 0 <= i2 < i ==> (#[trigger] adj@[i2]@).len() == g.deps[i2].len(),
                forall|i2: int, k: int|
                    0 <= i2 < i && 0 <= k < adj@[i2]@.len() ==> #[trigger] adj@[i2]@[k] < n && g.nodes[adj@[i2]@[k] as int]
                        == g.deps[i2][k],
            decreases n - i,
        {
            let list = &self.deps[i];
            proof {
                assert(g.deps[i as int] == list.deep_view());
            }
            let mut row: Vec<usize> = Vec::new();
            let mut k: usize = 0;
            while k < list.len()
                invariant
                    g == self@,
                    g.wf(),
                    n == g.len(),
                    i < n,
                    g.deps[i as int] == list.deep_view(),
                    k <= list.len(),
                    row.len() == k,
                    forall|k2: int| 0 <= k2 < k ==> #[trigger] row@[k2] < n && g.nodes[row@[k2] as int] == g.deps[i as int][k2],
                decreases list.len() - k,
            {
                proof {
                    assert(g.deps[i as int].contains(g.deps[i as int][k as int]));
                }
                let j = position_of(&self.nodes, list[k].as_str()).unwrap();
                row.push(j);
                k = k + 1;
            }
            adj.push(row);
            i = i + 1;
        }
        proof {
            assert forall|i2: int| 0 <= i2 < g.len() implies #[trigger] adj.deep_view()[i2] == adj@[i2]@ by {}
            assert forall|i2: int, k: int|
                0 <= i2 < adj.deep_view().len() && 0 <= k < adj.deep_view()[i2].len() implies #[trigger] adj.deep_view()[i2][k]
                < adj.deep_view().len() by {
                assert(adj.deep_view()[i2] == adj@[i2]@);
            }
        }
        adj
    }

    /// Either a load order of all modules or a cycle, as names.
    fn load_order_or_cycle(&self) -> (r: std::result::Result<Vec<String>, Vec<String>>)
        requires
            self.wf(),
        ensures
            match r {
                Ok(o) => self@.is_load_order(o.deep_view()) && self@.acyclic(),
                Err(c) => self@.is_simple_cycle(c.deep_view()) && !self@.acyclic(),
            },
    {
        let ghost g = self@;
        let adj = self.index_adjacency();
        let ghost a = adj.deep_view();
        match order_or_cycle(&adj) {
            Ok(ord) => {
                let names = self.names_at(&ord);
                proof {
                    let o = names.deep_view();
                    assert(o.no_duplicates()) by {
                        assert forall|p: int, q: int| 0 <= p < q < o.len() implies o[p] != o[q] by {
                            assert(ord@[p] != ord@[q]);
                        }
                    }
                    assert forall|x: Name| #[trigger] o.contains(x) <==> g.has(x) by {
                        if g.has(x) {
                            let j = choose|j: int| 0 <= j < g.len() && g.nodes[j] == x;
                            lemma_full_covers(ord@, g.len() as usize, j as usize);
                            let p = choose|p: int| 0 <= p < ord@.len() && ord@[p] == j as usize;
                            assert(o[p] == x);
                        }
                        if o.contains(x) {
                            let p = choose|p: int| 0 <= p < o.len() && o[p] == x;
                            assert(g.nodes[ord@[p] as int] == x);
                        }
                    }
                    assert forall|p: int, q: int| #![trigger o[p], o[q]] 0 <= p <= q < o.len() implies !g.edge(o[p], o[q]) by {
                        lemma_adj_edge(g, a, ord@[p] as int, ord@[q] as int);
                        assert(!iedge(a, ord@[p] as int, ord@[q] as int));
                    }
                    lemma_load_order_acyclic(g, o);
                }
                Ok(names)
            },
            Err(cyc) => {
                let names = self.names_at(&cyc);
                proof {
                    let c = names.deep_view();
                    assert forall|k: int| #![trigger c[k]] 0 <= k < c.len() - 1 implies g.edge(c[k], c[k + 1]) by {
                        lemma_adj_edge(g, a, cyc@[k] as int, cyc@[k + 1] as int);
                        assert(iedge(a, cyc@[k] as int, cyc@[k + 1] as int));
                    }
                    assert(c.drop_last().no_duplicates()) by {
                        assert forall|p: int, q: int| 0 <= p < q < c.len() - 1 implies c.drop_last()[p] != c.drop_last()[q] by {
                            assert(cyc@.drop_last()[p] != cyc@.drop_last()[q]);
                        }
                    }
                    assert(c[0] == c.last());
                    assert(g.is_cycle(c));
                }
                Err(names)
            },
        }
    }

    /// The names of the modules at the given positions.
    fn names_at(&self, idx: &Vec<usize>) -> (r: Vec<String>)
        requires
            forall|p: int| 0 <= p < idx.len() ==> #[trigger] idx@[p] < self.nodes.len(),
        ensures
            r.len() == idx.len(),
            forall|p: int| 0 <= p < idx.len() ==> #[trigger] r.deep_view()[p] == self@.nodes[idx@[p] as int],
    {
        let mut r: Vec<String> = Vec::new();
        let mut p: usize = 0;
        while p < idx.len()
            invariant
                p <= idx.len(),
                r.len() == p,
                forall|q: int| 0 <= q < idx.len() ==> #[trigger] idx@[q] < self.nodes.len(),
                forall|q: int| 0 <= q < p ==> #[trigger] r.deep_view()[q] == self@.nodes[idx@[q] as int],
            decreases idx.len() - p,
        {
            let ghost prev = r.deep_view();
            r.push(self.nodes[idx[p]].clone());
            proof {
                assert(r.deep_view() =~= prev.push(self@.nodes[idx@[p as int] as int]));
            }
            p = p + 1;
        }
        r
    }

    /// Whether the graph has a dependency cycle.
    pub fn has_cycle(&self) -> (r: bool)
        requires
            self.wf(),
        ensures
            r == !self@.acyclic(),
    {
        self.load_order_or_cycle().is_err()
    }

    /// A dependency cycle, if there is one: its modules in order, the
    /// first module repeated at the end.
    pub fn find_cycle(&self) -> (r: Option<Vec<String>>)
        requires
            self.wf(),
        ensures
            r is None <==> self@.acyclic(),
            r matches Some(c) ==> self@.is_simple_cycle(c.deep_view()),
    {
        match self.load_order_or_cycle() {
            Ok(_) => None,
            Err(c) => Some(c),
        }
    }

    /// The order in which modules load: every module after the modules
    /// it depends on. A cycle is an error that names the cycle's modules.
    pub fn topological_sort(&self) -> (r: Result<Vec<String>, CoreError>)
        requires
            self.wf(),
        ensures
            r is Ok <==> self@.acyclic(),
            r matches Ok(o) ==> self@.is_load_order(o.deep_view()),
            r matches Err(e) ==> self@.is_cycle_error(e),
    {
        match self.load_order_or_cycle() {
            Ok(o) => Ok(o),
            Err(c) => {
                let msg = join_names(&c, " -> ");
                proof {
                    reveal_strlit(" -> ");
                    assert(" -> "@ =~= seq![' ', '-', '>', ' ']);
                    assert(self@.is_simple_cycle(c.deep_view()));
                }
                Err(CoreError::CircularDependency(msg))
            },
        }
    }

    /// The order in which modules load (see [`Self::topological_sort`]).
    pub fn get_load_order(&self) -> (r: Result<Vec<String>, CoreError>)
        requires
            self.wf(),
        ensures
            r is Ok <==> self@.acyclic(),
            r matches Ok(o) ==> self@.is_load_order(o.deep_view()),
            r matches Err(e) ==> self@.is_cycle_error(e),
    {
        self.topological_sort()
    }

    /// The order in which modules unload: the load order reversed, so
    /// that every module goes before the modules it depends on.
    pub fn get_unload_order(&self) -> (r: Result<Vec<String>, CoreError>)
        requires
            self.wf(),
        ensures
            r is Ok <==> self@.acyclic(),
            r matches Ok(o) ==> self@.is_load_order(o.deep_view().reverse()),
            r matches Err(e) ==> self@.is_cycle_error(e),
    {
        match self.topological_sort() {
            Ok(o) => {
                let r = reversed(&o);
                proof {
                    assert(r.deep_view().reverse() =~= o.deep_view());
                }
                Ok(r)
            },
            Err(e) => Err(e),
        }
    }

    /// Every module that `module_id` depends on, directly or through other
    /// modules, each once. Where the graph has no cycle, every module in the
    /// list comes after the modules it depends on.
    pub fn get_all_dependencies(&self, module_id: &str) -> (r: Vec<String>)
        requires
            self.wf(),
        ensures
            r.deep_view().no_duplicates(),
            forall|x: Name| #[trigger] r.deep_view().contains(x) <==> self@.reaches(module_id@, x),
            self@.acyclic() ==> forall|p: int, q: int|
                #![trigger r.deep_view()[p], r.deep_view()[q]]
                0 <= p <= q < r.len() ==> !self@.edge(r.deep_view()[p], r.deep_view()[q]),
    {
        let ghost g = self@;
        match position_of(&self.nodes, module_id) {
            None => {
                let r: Vec<String> = Vec::new();
                proof {
                    assert(r.deep_view() =~= Seq::<Name>::empty());
                    assert forall|x: Name| !#[trigger] g.reaches(module_id@, x) by {
                        if g.reaches(module_id@, x) {
                            let p = choose|p: Seq<Name>|
                                #![trigger p.len(), p[0], p.last()]
                                p.len() >= 2 && p[0] == module_id@ && p.last() == x && forall|k: int|
                                    #![trigger p[k]]
                                    0 <= k < p.len() - 1 ==> g.edge(p[k], p[k + 1]);
                            assert(g.edge(p[0], p[1]));
                            lemma_edge_nodes(g, p[0], p[1]);
                        }
                    }
                }
                r
            },
            Some(s) => {
                let adj = self.index_adjacency();
                let ghost a = adj.deep_view();
                let marked = reach_set(&adj, s);
                let ghost members = marked@;
                let idx = match order_subset(&adj, &marked) {
                    Ok(ord) => ord,
                    Err(cyc) => {
                        proof {
                            let names = cyc@.map_values(|x: usize| g.nodes[x as int]);
                            lemma_index_cycle_names(g, a, cyc@, names);
                        }
                        marked_positions(&marked)
                    },
                };
                proof {
                    assert(idx@.no_duplicates());
                    assert forall|p: int| 0 <= p < idx.len() implies #[trigger] idx@[p] < self.nodes.len() by {}
                }
                let r = self.names_at(&idx);
                proof {
                    let o = r.deep_view();
                    assert(o.no_duplicates()) by {
                        assert forall|p: int, q: int| 0 <= p < q < o.len() implies o[p] != o[q] by {
                            assert(idx@[p] != idx@[q]);
                        }
                    }
                    assert forall|x: Name| #[trigger] o.contains(x) <==> g.reaches(module_id@, x) by {
                        if o.contains(x) {
                            let p = choose|p: int| 0 <= p < o.len() && o[p] == x;
                            lemma_ireach_names(g, a, s, idx@[p]);
                        }
                        if g.reaches(module_id@, x) {
                            let p = choose|p: Seq<Name>|
                                #![trigger p.len(), p[0], p.last()]
                                p.len() >= 2 && p[0] == module_id@ && p.last() == x && forall|k: int|
                                    #![trigger p[k]]
                                    0 <= k < p.len() - 1 ==> g.edge(p[k], p[k + 1]);
                            let l = p.len() - 1;
                            assert(g.edge(p[l - 1], p[l]));
                            lemma_edge_nodes(g, p[l - 1], p[l]);
                            let j = g.nodes.index_of(x);
                            lemma_ireach_names(g, a, s, j as usize);
                            assert(members[j]);
                            assert(idx@.contains(j as usize));
                            let q = choose|q: int| 0 <= q < idx.len() && idx@[q] == j as usize;
                            assert(o[q] == x);
                        }
                    }
                    if g.acyclic() {
                        assert forall|p: int, q: int|
                            #![trigger o[p], o[q]]
                            0 <= p <= q < o.len() implies !g.edge(o[p], o[q]) by {
                            lemma_adj_edge(g, a, idx@[p] as int, idx@[q] as int);
                        }
                    }
                }
                r
            },
        }
    }

    /// All modules, in the order they were added.
    pub fn get_all_modules(&self) -> (r: Vec<String>)
        ensures
            r.deep_view() == self@.nodes,
    {
        clone_names(&self.nodes)
    }
}


/// One call that builds a graph: `add_module(m)` or `add_dependency(a, b)`.
pub ghost enum GraphCall {
    AddModule(Name),
    AddDependency(Name, Name),
}

/// The graph that `calls`, made in order, build from `g` (see
/// [`DependencyGraph::add_module`] and [`DependencyGraph::add_dependency`]).
pub open spec fn after_calls(g: GraphView, calls: Seq<GraphCall>) -> GraphView
    decreases calls.len(),
{
    if calls.len() == 0 {
        g
    } else {
        let prev = after_calls(g, calls.drop_last());
        match calls.last() {
            GraphCall::AddModule(m) => prev.with_node(m),
            GraphCall::AddDependency(a, b) => prev.with_edge(a, b),
        }
    }
}

/// Every id passed to `calls`: each module added, and both ends of each
/// dependency recorded.
pub open spec fn ids_named(calls: Seq<GraphCall>) -> Set<Name>
    decreases calls.len(),
{
    if calls.len() == 0 {
        Set::empty()
    } else {
        let prev = ids_named(calls.drop_last());
        match calls.last() {
            GraphCall::AddModule(m) => prev.insert(m),
            GraphCall::AddDependency(a, b) => prev.insert(a).insert(b),
        }
    }
}

/// Adding a module to a graph whose modules occur once keeps them once
/// and adds the module to the set of modules.
proof fn lemma_with_node_nodes(g: GraphView, m: Name)
    requires
        g.nodes.no_duplicates(),
    ensures
        g.with_node(m).nodes.no_duplicates(),
        g.with_node(m).nodes.to_set() == g.nodes.to_set().insert(m),
{
    broadcast use {vstd::set::group_set_axioms, vstd::seq_lib::seq_to_set_is_finite};
    if g.has(m) {
        assert(g.nodes.to_set().insert(m) =~= g.nodes.to_set());
    } else {
        g.nodes.lemma_push_to_set_commute(m);
        let n = g.nodes.push(m);
        assert forall|i: int, j: int| 0 <= i < j < n.len() implies n[i] != n[j] by {
            if j == n.len() - 1 {
                assert(g.nodes[i] == n[i]);
            }
        }
    }
}

/// A graph built from an empty one by `add_module` and `add_dependency`
/// calls holds each id passed to those calls exactly once, and nothing
/// else: its module count is the number of distinct ids passed, whether
/// as a module or as either end of a dependency.
pub proof fn lemma_module_count_is_distinct_ids(calls: Seq<GraphCall>)
    ensures
        ids_named(calls).finite(),
        after_calls(empty_graph(), calls).nodes.to_set() == ids_named(calls),
        after_calls(empty_graph(), calls).nodes.no_duplicates(),
        after_calls(empty_graph(), calls).len() == ids_named(calls).len(),
    decreases calls.len(),
{
    broadcast use {vstd::set::group_set_axioms, vstd::seq_lib::seq_to_set_is_finite};
    let g = after_calls(empty_graph(), calls);
    if calls.len() == 0 {
        assert(g.nodes.to_set() =~= Set::<Name>::empty());
    } else {
        lemma_module_count_is_distinct_ids(calls.drop_last());
        let prev = after_calls(empty_graph(), calls.drop_last());
        match calls.last() {
            GraphCall::AddModule(m) => {
                lemma_with_node_nodes(prev, m);
            },
            GraphCall::AddDependency(a, b) => {
                lemma_with_node_nodes(prev, a);
                lemma_with_node_nodes(prev.with_node(a), b);
            },
        }
    }
    g.nodes.unique_seq_to_set();
}

} // verus!
