//! Resolution of a module's dependency chain against a catalog of modules.

use vstd::prelude::*;

use super::dependency::{empty_graph, DependencyGraph, GraphView};
use super::graph_index::lemma_distinct_bounded;
use super::metadata::{Dependency, ModuleInfo};
use super::version::{
    parse_req, parse_version, req_matches, req_matches_version, req_parse_error, version_parse_error,
    ParsedVersion,
};
use crate::utils::error::{CoreError, ErrorView};
use crate::utils::text::{position_of, str_eq};

verus! {

type Name = Seq<char>;

/// `i` is the first position of the catalog that holds module `id`.
pub open spec fn first_with_id(cat: Seq<ModuleInfo>, id: Name, i: int) -> bool {
    &&& 0 <= i < cat.len()
    &&& cat[i].metadata.id@ == id
    &&& forall|j: int| 0 <= j < i ==> cat[j].metadata.id@ != id
}

/// The module the catalog holds under `id`: the first one with that id.
pub open spec fn lookup(cat: Seq<ModuleInfo>, id: Name) -> Option<ModuleInfo> {
    if exists|i: int| first_with_id(cat, id, i) {
        Some(cat[choose|i: int| first_with_id(cat, id, i)])
    } else {
        None
    }
}

/// The catalog holds a module with id `id`.
pub open spec fn catalog_has(cat: Seq<ModuleInfo>, id: Name) -> bool {
    exists|i: int| 0 <= i < cat.len() && #[trigger] cat[i].metadata.id@ == id
}

/// The outcome of checking dependency `dep` against the version `found` of
/// the module that satisfies it.
pub open spec fn version_check(dep: Dependency, found: Seq<char>) -> Result<(), ErrorView> {
    match req_parse_error(dep.version@) {
        Some(e) => Err(ErrorView::InvalidMetadata(
            "依赖 '"@ + dep.module_id@ + "' 的版本要求 '"@ + dep.version@ + "' 格式无效: "@ + e,
        )),
        None => match version_parse_error(found) {
            Some(e) => Err(ErrorView::InvalidMetadata(
                "模块 '"@ + dep.module_id@ + "' 的版本 '"@ + found + "' 格式无效: "@ + e,
            )),
            None => if req_matches_version(dep.version@, found) {
                Ok(())
            } else {
                Err(ErrorView::VersionMismatch { module: dep.module_id@, required: dep.version@, found })
            },
        },
    }
}

/// Depth-first resolution of module `id`, with the ids being visited and
/// the ids resolved so far. On success, the resolved ids after `id` and its
/// dependencies have been added, dependencies first.
pub open spec fn resolve_from(
    cat: Seq<ModuleInfo>,
    id: Name,
    visiting: Seq<Name>,
    resolved: Seq<Name>,
    fuel: nat,
) -> Result<Seq<Name>, ErrorView>
    decreases fuel, 1int, 0int,
{
    if fuel == 0 {
        Err(ErrorView::Internal(Seq::empty()))
    } else if resolved.contains(id) {
        Ok(resolved)
    } else if visiting.contains(id) {
        Err(ErrorView::CircularDependency("模块 '"@ + id + "' 存在循环依赖"@))
    } else {
        match lookup(cat, id) {
            None => Err(ErrorView::ModuleNotFound(id)),
            Some(info) => match resolve_deps(
                cat,
                id,
                info.metadata.dependencies@,
                0,
                visiting.push(id),
                resolved,
                fuel,
            ) {
                Ok(r) => Ok(r.push(id)),
                Err(e) => Err(e),
            },
        }
    }
}

/// Resolution of the dependencies `deps[k..]` of module `owner`.
pub open spec fn resolve_deps(
    cat: Seq<ModuleInfo>,
    owner: Name,
    deps: Seq<Dependency>,
    k: int,
    visiting: Seq<Name>,
    resolved: Seq<Name>,
    fuel: nat,
) -> Result<Seq<Name>, ErrorView>
    decreases fuel, 0int, deps.len() - k,
{
    if k < 0 || k >= deps.len() || fuel == 0 {
        Ok(resolved)
    } else {
        let dep = deps[k];
        match lookup(cat, dep.module_id@) {
            None => if !dep.required {
                resolve_deps(cat, owner, deps, k + 1, visiting, resolved, fuel)
            } else {
                Err(ErrorView::DependencyNotFound(
                    "模块 '"@ + owner + "' 的依赖 '"@ + dep.module_id@ + "' 未找到"@,
                ))
            },
            Some(info) => match version_check(dep, info.metadata.version@) {
                Err(e) => Err(e),
                Ok(()) => match resolve_from(cat, dep.module_id@, visiting, resolved, (fuel - 1) as nat) {
                    Err(e) => Err(e),
                    Ok(r) => resolve_deps(cat, owner, deps, k + 1, visiting, r, fuel),
                },
            },
        }
    }
}

/// The result of resolving module `id` in the catalog.
pub open spec fn resolution(cat: Seq<ModuleInfo>, id: Name) -> Result<Seq<Name>, ErrorView> {
    resolve_from(cat, id, Seq::empty(), Seq::empty(), cat.len() + 1)
}

/// Module `x` of the catalog declares a dependency on module `d`, which
/// the catalog holds.
pub open spec fn needs(cat: Seq<ModuleInfo>, x: Name, d: Name) -> bool {
    &&& lookup(cat, x) matches Some(info) && exists|j: int|
        0 <= j < info.metadata.dependencies@.len() && #[trigger] info.metadata.dependencies@[j].module_id@ == d
    &&& lookup(cat, d) is Some
}

/// `s` is an order in which modules of the catalog can be loaded: each
/// once, each a module of the catalog, each after every module of the
/// catalog it depends on.
pub open spec fn is_load_order(cat: Seq<ModuleInfo>, s: Seq<Name>) -> bool {
    &&& s.no_duplicates()
    &&& forall|i: int| 0 <= i < s.len() ==> lookup(cat, #[trigger] s[i]) is Some
    &&& forall|i: int, d: Name| 0 <= i < s.len() && #[trigger] needs(cat, s[i], d) ==> s.take(i).contains(d)
}

/// The module at `k` of `s` is needed by a module listed after it.
pub open spec fn needed_later(cat: Seq<ModuleInfo>, s: Seq<Name>, k: int) -> bool {
    exists|j: int| k < j < s.len() && #[trigger] needs(cat, s[j], s[k])
}

/// A module needed later in `b` is needed later in any extension of `b`.
proof fn lemma_needed_later_kept(cat: Seq<ModuleInfo>, b: Seq<Name>, c: Seq<Name>, k: int)
    requires
        b.len() <= c.len(),
        c.take(b.len() as int) == b,
        0 <= k < b.len(),
        needed_later(cat, b, k),
    ensures
        needed_later(cat, c, k),
{
    let j = choose|j: int| k < j < b.len() && #[trigger] needs(cat, b[j], b[k]);
    assert(c.take(b.len() as int)[j] == c[j]);
    assert(c.take(b.len() as int)[k] == c[k]);
    assert(needs(cat, c[j], c[k]));
}

/// `r` extends `a`, and what it adds holds nothing of `visiting`.
spec fn extends_outside(a: Seq<Name>, r: Seq<Name>, visiting: Seq<Name>) -> bool {
    &&& a.len() <= r.len()
    &&& r.take(a.len() as int) == a
    &&& forall|k: int| a.len() <= k < r.len() ==> !visiting.contains(#[trigger] r[k])
}

/// Extending twice is extending.
proof fn lemma_extends_trans(a: Seq<Name>, b: Seq<Name>, c: Seq<Name>, visiting: Seq<Name>)
    requires
        extends_outside(a, b, visiting),
        extends_outside(b, c, visiting),
    ensures
        extends_outside(a, c, visiting),
        forall|x: Name| b.contains(x) ==> c.contains(x),
{
    assert(c.take(a.len() as int) =~= b.take(a.len() as int)) by {
        assert forall|k: int| 0 <= k < a.len() implies c[k] == b[k] by {
            assert(c.take(b.len() as int)[k] == c[k]);
        }
    }
    assert forall|k: int| a.len() <= k < c.len() implies !visiting.contains(#[trigger] c[k]) by {
        if k < b.len() {
            assert(c.take(b.len() as int)[k] == c[k]);
            assert(!visiting.contains(b[k]));
        }
    }
    assert forall|x: Name| b.contains(x) implies c.contains(x) by {
        let k = choose|k: int| 0 <= k < b.len() && b[k] == x;
        assert(c.take(b.len() as int)[k] == c[k]);
    }
}

/// Resolving a module from a load order gives a load order that extends
/// it with modules not being visited, holds the module, and ends with it
/// when it was not resolved before.
proof fn lemma_resolve_from_order(
    cat: Seq<ModuleInfo>,
    id: Name,
    visiting: Seq<Name>,
    resolved: Seq<Name>,
    fuel: nat,
)
    requires
        is_load_order(cat, resolved),
    ensures
        resolve_from(cat, id, visiting, resolved, fuel) matches Ok(r) ==> {
            &&& extends_outside(resolved, r, visiting)
            &&& r.contains(id)
            &&& is_load_order(cat, r)
            &&& !resolved.contains(id) ==> r.len() > 0 && r.last() == id
            &&& forall|k: int| resolved.len() <= k < r.len() - 1 ==> #[trigger] needed_later(cat, r, k)
        },
    decreases fuel, 1int, 0int,
{
    if fuel == 0 || resolved.contains(id) || visiting.contains(id) {
        assert(resolved.take(resolved.len() as int) =~= resolved);
    } else {
        match lookup(cat, id) {
            None => {},
            Some(info) => {
                let deps = info.metadata.dependencies@;
                let vis1 = visiting.push(id);
                lemma_resolve_deps_order(cat, id, deps, 0, vis1, resolved, fuel);
                if let Ok(r1) = resolve_deps(cat, id, deps, 0, vis1, resolved, fuel) {
                    let r = r1.push(id);
                    assert forall|k: int| resolved.len() <= k < r.len() - 1 implies #[trigger] needed_later(cat, r, k) by {
                        assert(r.take(r1.len() as int) =~= r1);
                        if needed_later(cat, r1, k) {
                            lemma_needed_later_kept(cat, r1, r, k);
                        } else {
                            assert(needs(cat, id, r1[k]));
                            assert(r[r1.len() as int] == id && r[k] == r1[k]);
                            assert(needs(cat, r[r1.len() as int], r[k]));
                        }
                    }
                    assert(vis1.contains(id)) by {
                        assert(vis1[visiting.len() as int] == id);
                    }
                    assert(!r1.contains(id)) by {
                        if r1.contains(id) {
                            let k = choose|k: int| 0 <= k < r1.len() && r1[k] == id;
                            if k < resolved.len() {
                                assert(r1.take(resolved.len() as int)[k] == r1[k]);
                                assert(resolved[k] == id);
                            }
                        }
                    }
                    assert(r.take(resolved.len() as int) =~= r1.take(resolved.len() as int));
                    assert forall|k: int| resolved.len() <= k < r.len() implies !visiting.contains(#[trigger] r[k]) by {
                        if k < r1.len() {
                            assert(r[k] == r1[k]);
                            assert(!vis1.contains(r1[k]));
                            if visiting.contains(r1[k]) {
                                let q = choose|q: int| 0 <= q < visiting.len() && visiting[q] == r1[k];
                                assert(vis1[q] == r1[k]);
                            }
                        }
                    }
                    assert(r[r1.len() as int] == id);
                    assert(r.no_duplicates()) by {
                        assert forall|a: int, b: int| 0 <= a < b < r.len() implies r[a] != r[b] by {
                            if b == r1.len() {
                                assert(r[a] == r1[a]);
                            } else {
                                assert(r[a] == r1[a] && r[b] == r1[b]);
                            }
                        }
                    }
                    assert forall|i: int| 0 <= i < r.len() implies lookup(cat, #[trigger] r[i]) is Some by {
                        if i < r1.len() {
                            assert(r[i] == r1[i]);
                        }
                    }
                    assert forall|i: int, d: Name| 0 <= i < r.len() && #[trigger] needs(cat, r[i], d) implies r.take(
                        i,
                    ).contains(d) by {
                        if i < r1.len() {
                            assert(r[i] == r1[i]);
                            assert(needs(cat, r1[i], d));
                            assert(r.take(i) =~= r1.take(i));
                        } else {
                            assert(r[i] == id);
                            assert(r.take(i) =~= r1);
                            let j = choose|j: int|
                                0 <= j < deps.len() && #[trigger] deps[j].module_id@ == d;
                            assert(lookup(cat, deps[j].module_id@) is Some);
                        }
                    }
                }
            },
        }
    }
}

/// Resolving the dependencies `deps[k..]` of `owner` from a load order
/// gives a load order that extends it with modules not being visited and
/// holds each of those dependencies the catalog holds.
proof fn lemma_resolve_deps_order(
    cat: Seq<ModuleInfo>,
    owner: Name,
    deps: Seq<Dependency>,
    k: int,
    visiting: Seq<Name>,
    resolved: Seq<Name>,
    fuel: nat,
)
    requires
        is_load_order(cat, resolved),
        fuel > 0,
        0 <= k,
        lookup(cat, owner) matches Some(info) && info.metadata.dependencies@ == deps,
    ensures
        resolve_deps(cat, owner, deps, k, visiting, resolved, fuel) matches Ok(r) ==> {
            &&& extends_outside(resolved, r, visiting)
            &&& is_load_order(cat, r)
            &&& forall|q: int|
                resolved.len() <= q < r.len() ==> #[trigger] needed_later(cat, r, q) || needs(cat, owner, r[q])
            &&& forall|j: int|
                k <= j < deps.len() && lookup(cat, #[trigger] deps[j].module_id@) is Some ==> r.contains(
                    deps[j].module_id@,
                )
        },
    decreases fuel, 0int, deps.len() - k,
{
    if k >= deps.len() {
        assert(resolved.take(resolved.len() as int) =~= resolved);
    } else {
        let dep = deps[k];
        match lookup(cat, dep.module_id@) {
            None => {
                if !dep.required {
                    lemma_resolve_deps_order(cat, owner, deps, k + 1, visiting, resolved, fuel);
                }
            },
            Some(info) => {
                if version_check(dep, info.metadata.version@) is Ok {
                    lemma_resolve_from_order(cat, dep.module_id@, visiting, resolved, (fuel - 1) as nat);
                    if let Ok(r1) = resolve_from(cat, dep.module_id@, visiting, resolved, (fuel - 1) as nat) {
                        lemma_resolve_deps_order(cat, owner, deps, k + 1, visiting, r1, fuel);
                        if let Ok(r) = resolve_deps(cat, owner, deps, k + 1, visiting, r1, fuel) {
                            lemma_extends_trans(resolved, r1, r, visiting);
                            assert forall|q: int| resolved.len() <= q < r.len() implies #[trigger] needed_later(cat, r, q)
                                || needs(cat, owner, r[q]) by {
                                if q < r1.len() {
                                    assert(r.take(r1.len() as int)[q] == r[q]);
                                    if q < r1.len() - 1 {
                                        lemma_needed_later_kept(cat, r1, r, q);
                                    } else {
                                        assert(r1.last() == dep.module_id@);
                                        assert(deps[k].module_id@ == dep.module_id@);
                                    }
                                }
                            }
                        }
                    }
                }
            },
        }
    }
}

/// What resolution gives is a load order that ends with the module
/// resolved: every module once (a dependency shared by several modules is
/// listed once), each a module of the catalog, each after every module of
/// the catalog it depends on; and it lists nothing more than the module
/// and what it needs, each module but the last being needed by a module
/// listed after it.
pub proof fn lemma_resolution_is_load_order(cat: Seq<ModuleInfo>, id: Name)
    ensures
        resolution(cat, id) matches Ok(v) ==> {
            &&& is_load_order(cat, v)
            &&& v.len() > 0 && v.last() == id
            &&& forall|k: int| 0 <= k < v.len() - 1 ==> #[trigger] needed_later(cat, v, k)
        },
{
    let e = Seq::<Name>::empty();
    assert(is_load_order(cat, e));
    lemma_resolve_from_order(cat, id, e, e, cat.len() + 1);
}

/// The visiting stack holds distinct ids of the catalog.
pub open spec fn stack_ok(cat: Seq<ModuleInfo>, visiting: Seq<Name>) -> bool {
    &&& visiting.no_duplicates()
    &&& forall|k: int| 0 <= k < visiting.len() ==> catalog_has(cat, #[trigger] visiting[k])
}

/// A stack of distinct catalog ids is no longer than the catalog.
proof fn lemma_stack_bounded(cat: Seq<ModuleInfo>, visiting: Seq<Name>)
    requires
        stack_ok(cat, visiting),
        cat.len() <= usize::MAX,
    ensures
        visiting.len() <= cat.len(),
{
    let idx = Seq::new(
        visiting.len(),
        |k: int| (choose|i: int| 0 <= i < cat.len() && cat[i].metadata.id@ == visiting[k]) as usize,
    );
    assert forall|k: int| 0 <= k < idx.len() implies #[trigger] idx[k] < cat.len() && cat[idx[k] as int].metadata.id@
        == visiting[k] by {
        assert(catalog_has(cat, visiting[k]));
    }
    assert(idx.no_duplicates()) by {
        assert forall|a: int, b: int| 0 <= a < idx.len() && 0 <= b < idx.len() && a != b implies idx[a]
            != idx[b] by {
            assert(cat[idx[a] as int].metadata.id@ == visiting[a]);
            assert(cat[idx[b] as int].metadata.id@ == visiting[b]);
        }
    }
    lemma_distinct_bounded(idx, cat.len() as usize);
}

/// The requirements that the first `n` listed modules declare, as triples
/// (requiring module, module required, requirement) in declaration order;
/// or the error for the first listed module the catalog does not hold.
pub open spec fn requirements(cat: Seq<ModuleInfo>, mods: Seq<Name>, n: nat) -> Result<
    Seq<(Name, Name, Name)>,
    ErrorView,
>
    decreases n,
{
    if n == 0 || n > mods.len() {
        Ok(Seq::empty())
    } else {
        match requirements(cat, mods, (n - 1) as nat) {
            Err(e) => Err(e),
            Ok(t) => match lookup(cat, mods[n - 1]) {
                None => Err(ErrorView::ModuleNotFound(mods[n - 1])),
                Some(info) => Ok(
                    t + info.metadata.dependencies@.map_values(
                        |d: Dependency| (mods[n - 1], d.module_id@, d.version@),
                    ),
                ),
            },
        }
    }
}

/// The modules required in the first `n` triples, each once, in the order
/// first met.
pub open spec fn required_modules(t: Seq<(Name, Name, Name)>, n: nat) -> Seq<Name>
    decreases n,
{
    if n == 0 || n > t.len() {
        Seq::empty()
    } else {
        let k = required_modules(t, (n - 1) as nat);
        if k.contains(t[n - 1].1) { k } else { k.push(t[n - 1].1) }
    }
}

/// How many of the first `n` triples require module `d`.
pub open spec fn count_requiring(t: Seq<(Name, Name, Name)>, d: Name, n: nat) -> nat
    decreases n,
{
    if n == 0 || n > t.len() {
        0
    } else {
        count_requiring(t, d, (n - 1) as nat) + if t[n - 1].1 == d { 1nat } else { 0nat }
    }
}

/// The requirements on `d` among the first `n` triples that parse and that
/// version `found` does not satisfy, each as `requirer 要求 requirement`.
pub open spec fn unsatisfied(t: Seq<(Name, Name, Name)>, d: Name, found: Name, n: nat) -> Seq<Seq<char>>
    decreases n,
{
    if n == 0 || n > t.len() {
        Seq::empty()
    } else {
        let rest = unsatisfied(t, d, found, (n - 1) as nat);
        let (who, m, req) = t[n - 1];
        if m == d && req_parse_error(req) is None && !req_matches_version(req, found) {
            rest.push(who + " 要求 "@ + req)
        } else {
            rest
        }
    }
}

/// The conflict on module `d`, if any: two or more requirements on a module
/// of the catalog whose version parses, some of which parse and are not
/// satisfied.
pub open spec fn conflict_on(cat: Seq<ModuleInfo>, t: Seq<(Name, Name, Name)>, d: Name) -> Option<ErrorView> {
    if count_requiring(t, d, t.len()) <= 1 {
        None
    } else {
        match lookup(cat, d) {
            None => None,
            Some(info) => if version_parse_error(info.metadata.version@) is Some {
                None
            } else {
                let u = unsatisfied(t, d, info.metadata.version@, t.len());
                if u.len() == 0 {
                    None
                } else {
                    Some(ErrorView::DependencyConflict { module: d, requirements: u })
                }
            },
        }
    }
}

/// The first conflict on the first `n` modules of `ds`.
pub open spec fn first_conflict(cat: Seq<ModuleInfo>, t: Seq<(Name, Name, Name)>, ds: Seq<Name>, n: nat) -> Option<
    ErrorView,
>
    decreases n,
{
    if n == 0 || n > ds.len() {
        None
    } else {
        match first_conflict(cat, t, ds, (n - 1) as nat) {
            Some(e) => Some(e),
            None => conflict_on(cat, t, ds[n - 1]),
        }
    }
}

/// The outcome of checking the listed modules for conflicting requirements:
/// the modules required are examined in the order first met.
pub open spec fn conflicts(cat: Seq<ModuleInfo>, mods: Seq<Name>) -> Result<(), ErrorView> {
    match requirements(cat, mods, mods.len()) {
        Err(e) => Err(e),
        Ok(t) => {
            let ds = required_modules(t, t.len());
            match first_conflict(cat, t, ds, ds.len()) {
                Some(e) => Err(e),
                None => Ok(()),
            }
        },
    }
}

/// The names held by `s`.
pub open spec fn names_of(s: Seq<String>) -> Seq<Name> {
    s.map_values(|x: String| x@)
}

/// The graph of the first `k` dependencies of `owner` added to `g`: an edge
/// for each dependency the catalog holds; a required one it does not hold
/// is an error.
pub open spec fn graph_add_deps(cat: Seq<ModuleInfo>, g: GraphView, owner: Name, deps: Seq<Dependency>, k: nat) -> Result<
    GraphView,
    ErrorView,
>
    decreases k,
{
    if k == 0 || k > deps.len() {
        Ok(g)
    } else {
        match graph_add_deps(cat, g, owner, deps, (k - 1) as nat) {
            Err(e) => Err(e),
            Ok(h) => {
                let d = deps[k - 1];
                if lookup(cat, d.module_id@) is Some {
                    Ok(h.with_edge(owner, d.module_id@))
                } else if d.required {
                    Err(ErrorView::DependencyNotFound(
                        "模块 '"@ + owner + "' 的必需依赖 '"@ + d.module_id@ + "' 未找到"@,
                    ))
                } else {
                    Ok(h)
                }
            },
        }
    }
}

/// Once adding dependencies has failed, adding more fails the same way.
proof fn lemma_graph_add_deps_err(cat: Seq<ModuleInfo>, g: GraphView, owner: Name, deps: Seq<Dependency>, k: nat, n: nat)
    requires
        0 < k <= n <= deps.len(),
        graph_add_deps(cat, g, owner, deps, k) is Err,
    ensures
        graph_add_deps(cat, g, owner, deps, n) == graph_add_deps(cat, g, owner, deps, k),
    decreases n - k,
{
    if n > k {
        lemma_graph_add_deps_err(cat, g, owner, deps, k, (n - 1) as nat);
    }
}

/// Once building the graph has failed, listing more modules fails the same
/// way.
proof fn lemma_graph_of_err(cat: Seq<ModuleInfo>, g0: GraphView, mods: Seq<Name>, k: nat, n: nat)
    requires
        0 < k <= n <= mods.len(),
        graph_of(cat, g0, mods, k) is Err,
    ensures
        graph_of(cat, g0, mods, n) == graph_of(cat, g0, mods, k),
    decreases n - k,
{
    if n > k {
        lemma_graph_of_err(cat, g0, mods, k, (n - 1) as nat);
    }
}

/// Once collecting requirements has failed, listing more modules fails the
/// same way.
proof fn lemma_requirements_err(cat: Seq<ModuleInfo>, mods: Seq<Name>, k: nat, n: nat)
    requires
        0 < k <= n <= mods.len(),
        requirements(cat, mods, k) is Err,
    ensures
        requirements(cat, mods, n) == requirements(cat, mods, k),
    decreases n - k,
{
    if n > k {
        lemma_requirements_err(cat, mods, k, (n - 1) as nat);
    }
}

/// Once a conflict is found, examining more modules finds the same one.
proof fn lemma_first_conflict_found(cat: Seq<ModuleInfo>, t: Seq<(Name, Name, Name)>, ds: Seq<Name>, k: nat, n: nat)
    requires
        0 < k <= n <= ds.len(),
        first_conflict(cat, t, ds, k) is Some,
    ensures
        first_conflict(cat, t, ds, n) == first_conflict(cat, t, ds, k),
    decreases n - k,
{
    if n > k {
        lemma_first_conflict_found(cat, t, ds, k, (n - 1) as nat);
    }
}

/// The graph of the first `n` listed modules and their dependencies.
pub open spec fn graph_of(cat: Seq<ModuleInfo>, g0: GraphView, mods: Seq<Name>, n: nat) -> Result<GraphView, ErrorView>
    decreases n,
{
    if n == 0 || n > mods.len() {
        Ok(g0)
    } else {
        match graph_of(cat, g0, mods, (n - 1) as nat) {
            Err(e) => Err(e),
            Ok(g) => match lookup(cat, mods[n - 1]) {
                None => Err(ErrorView::ModuleNotFound(mods[n - 1])),
                Some(info) => graph_add_deps(
                    cat,
                    g.with_node(mods[n - 1]),
                    mods[n - 1],
                    info.metadata.dependencies@,
                    info.metadata.dependencies@.len(),
                ),
            },
        }
    }
}

/// The triples held by three lists of equal length.
pub open spec fn triples(who: Seq<Name>, req: Seq<Name>, ver: Seq<Name>) -> Seq<(Name, Name, Name)> {
    Seq::new(who.len(), |k: int| (who[k], req[k], ver[k]))
}

/// How many entries of `req` name `d`.
fn count_for(who: &Vec<String>, req: &Vec<String>, ver: &Vec<String>, d: &str) -> (c: usize)
    requires
        who.len() == req.len(),
        req.len() == ver.len(),
    ensures
        c == count_requiring(
            triples(who.deep_view(), req.deep_view(), ver.deep_view()),
            d@,
            req.len() as nat,
        ),
{
    let ghost t = triples(who.deep_view(), req.deep_view(), ver.deep_view());
    let mut c: usize = 0;
    let mut j: usize = 0;
    while j < req.len()
        invariant
            who.len() == req.len(),
            req.len() == ver.len(),
            t == triples(who.deep_view(), req.deep_view(), ver.deep_view()),
            j <= req.len(),
            c <= j,
            c == count_requiring(t, d@, j as nat),
        decreases req.len() - j,
    {
        proof {
            assert(t[j as int].1 == req.deep_view()[j as int]);
        }
        if str_eq(req[j].as_str(), d) {
            c = c + 1;
        }
        j = j + 1;
    }
    c
}

/// The unsatisfied requirements on `d` for version `found`.
fn unsatisfied_for(
    who: &Vec<String>,
    req: &Vec<String>,
    ver: &Vec<String>,
    d: &str,
    found: &ParsedVersion,
) -> (u: Vec<String>)
    requires
        who.len() == req.len(),
        req.len() == ver.len(),
    ensures
        u.deep_view() == unsatisfied(
            triples(who.deep_view(), req.deep_view(), ver.deep_view()),
            d@,
            found.source(),
            req.len() as nat,
        ),
{
    let ghost t = triples(who.deep_view(), req.deep_view(), ver.deep_view());
    let mut u: Vec<String> = Vec::new();
    let mut j: usize = 0;
    proof {
        assert(u.deep_view() =~= Seq::<Seq<char>>::empty());
    }
    while j < req.len()
        invariant
            who.len() == req.len(),
            req.len() == ver.len(),
            t == triples(who.deep_view(), req.deep_view(), ver.deep_view()),
            j <= req.len(),
            u.deep_view() == unsatisfied(t, d@, found.source(), j as nat),
        decreases req.len() - j,
    {
        proof {
            assert(t[j as int] == (who.deep_view()[j as int], req.deep_view()[j as int], ver.deep_view()[j as int]));
        }
        if str_eq(req[j].as_str(), d) {
            match parse_req(ver[j].as_str()) {
                Ok(q) => {
                    if !req_matches(&q, found) {
                        let m = cat_str(who[j].as_str(), " 要求 ");
                        let line = cat_str(m.as_str(), ver[j].as_str());
                        let ghost before = u.deep_view();
                        u.push(line);
                        proof {
                            assert(u.deep_view() =~= before.push(line@));
                        }
                    }
                },
                Err(_) => {},
            }
        }
        j = j + 1;
    }
    u
}

/// Resolves modules' dependency chains against a catalog of modules; a
/// module is found by its id, the first module of the catalog with that id.
pub struct DependencyResolver {
    modules: Vec<ModuleInfo>,
}

/// `s` followed by `t`, as a new string.
fn cat_str(s: &str, t: &str) -> (r: String)
    ensures
        r@ == s@ + t@,
{
    let mut r = String::from_str(s);
    r.append(t);
    r
}

impl DependencyResolver {
    /// The catalog.
    pub closed spec fn catalog(&self) -> Seq<ModuleInfo> {
        self.modules@
    }

    /// A resolver over the catalog `modules`.
    pub fn new(modules: Vec<ModuleInfo>) -> (r: Self)
        ensures
            r.catalog() == modules@,
    {
        DependencyResolver { modules }
    }

    /// The module with id `id`, if the catalog holds one.
    pub fn find(&self, id: &str) -> (r: Option<&ModuleInfo>)
        ensures
            match r {
                Some(m) => lookup(self.catalog(), id@) == Some(*m),
                None => lookup(self.catalog(), id@) is None && !catalog_has(self.catalog(), id@),
            },
    {
        let mut i: usize = 0;
        while i < self.modules.len()
            invariant
                i <= self.modules.len(),
                forall|j: int| 0 <= j < i ==> self.modules@[j].metadata.id@ != id@,
            decreases self.modules.len() - i,
        {
            if str_eq(self.modules[i].metadata.id.as_str(), id) {
                proof {
                    let cat = self.modules@;
                    assert(first_with_id(cat, id@, i as int));
                    let c = choose|c: int| first_with_id(cat, id@, c);
                    if c < i {
                        assert(cat[c].metadata.id@ != id@);
                    }
                    if c > i {
                        assert(cat[i as int].metadata.id@ != id@);
                    }
                }
                return Some(&self.modules[i]);
            }
            i = i + 1;
        }
        proof {
            let cat = self.modules@;
            if exists|c: int| first_with_id(cat, id@, c) {
                let c = choose|c: int| first_with_id(cat, id@, c);
                assert(cat[c].metadata.id@ != id@);
            }
            if catalog_has(cat, id@) {
                let c = choose|c: int| 0 <= c < cat.len() && #[trigger] cat[c].metadata.id@ == id@;
                assert(cat[c].metadata.id@ != id@);
            }
        }
        None
    }

    /// Checks that the module `dep_info`, found for dependency `dep`,
    /// satisfies the dependency's version requirement.
    pub fn check_version_compatibility(&self, dep: &Dependency, dep_info: &ModuleInfo) -> (r: Result<(), CoreError>)
        ensures
            match r {
                Ok(()) => version_check(*dep, dep_info.metadata.version@) is Ok,
                Err(e) => version_check(*dep, dep_info.metadata.version@) == Err::<(), ErrorView>(e@),
            },
    {
        let req = match parse_req(dep.version.as_str()) {
            Ok(q) => q,
            Err(e) => {
                let m1 = cat_str("依赖 '", dep.module_id.as_str());
                let m2 = cat_str(m1.as_str(), "' 的版本要求 '");
                let m3 = cat_str(m2.as_str(), dep.version.as_str());
                let m4 = cat_str(m3.as_str(), "' 格式无效: ");
                let m5 = cat_str(m4.as_str(), e.as_str());
                return Err(CoreError::InvalidMetadata(m5));
            },
        };
        let actual = match parse_version(dep_info.metadata.version.as_str()) {
            Ok(v) => v,
            Err(e) => {
                let m1 = cat_str("模块 '", dep.module_id.as_str());
                let m2 = cat_str(m1.as_str(), "' 的版本 '");
                let m3 = cat_str(m2.as_str(), dep_info.metadata.version.as_str());
                let m4 = cat_str(m3.as_str(), "' 格式无效: ");
                let m5 = cat_str(m4.as_str(), e.as_str());
                return Err(CoreError::InvalidMetadata(m5));
            },
        };
        if !req_matches(&req, &actual) {
            return Err(
                CoreError::VersionMismatch {
                    module: dep.module_id.clone(),
                    required: dep.version.clone(),
                    found: dep_info.metadata.version.clone(),
                },
            );
        }
        Ok(())
    }

    /// Checks the listed modules for conflicting version requirements: for
    /// each module required by two or more of them, in the order first met,
    /// the requirements that its version does not satisfy. Fails with
    /// `ModuleNotFound` for the first listed module the catalog does not
    /// hold, or with `DependencyConflict` for the first module with
    /// unsatisfied requirements.
    pub fn check_conflicts(&self, modules: &[String]) -> (r: Result<(), CoreError>)
        ensures
            match conflicts(self.catalog(), names_of(modules@)) {
                Ok(()) => r is Ok,
                Err(e) => r matches Err(x) && x@ == e,
            },
    {
        let ghost cat = self.catalog();
        let ghost mods = names_of(modules@);
        let mut who: Vec<String> = Vec::new();
        let mut req: Vec<String> = Vec::new();
        let mut ver: Vec<String> = Vec::new();
        proof {
            assert(triples(who.deep_view(), req.deep_view(), ver.deep_view()) =~= Seq::<(Name, Name, Name)>::empty());
        }
        let mut i: usize = 0;
        while i < modules.len()
            invariant
                cat == self.catalog(),
                mods == names_of(modules@),
                i <= modules.len(),
                who.len() == req.len(),
                req.len() == ver.len(),
                requirements(cat, mods, i as nat) == Ok::<Seq<(Name, Name, Name)>, ErrorView>(
                    triples(who.deep_view(), req.deep_view(), ver.deep_view()),
                ),
            decreases modules.len() - i,
        {
            let info = match self.find(modules[i].as_str()) {
                Some(x) => x,
                None => {
                    proof {
                        assert(mods[i as int] == modules@[i as int]@);
                        assert(requirements(cat, mods, (i + 1) as nat) == Err::<Seq<(Name, Name, Name)>, ErrorView>(
                            ErrorView::ModuleNotFound(modules@[i as int]@),
                        ));
                        lemma_requirements_err(cat, mods, (i + 1) as nat, modules.len() as nat);
                    }
                    return Err(CoreError::ModuleNotFound(modules[i].clone()));
                },
            };
            let deps = &info.metadata.dependencies;
            let ghost t0 = triples(who.deep_view(), req.deep_view(), ver.deep_view());
            let ghost mi = mods[i as int];
            let mut j: usize = 0;
            while j < deps.len()
                invariant
                    deps == info.metadata.dependencies,
                    mi == modules@[i as int]@,
                    i < modules.len(),
                    j <= deps.len(),
                    who.len() == req.len(),
                    req.len() == ver.len(),
                    triples(who.deep_view(), req.deep_view(), ver.deep_view()) == t0 + deps@.take(j as int).map_values(
                        |d: Dependency| (mi, d.module_id@, d.version@),
                    ),
                decreases deps.len() - j,
            {
                let ghost before = triples(who.deep_view(), req.deep_view(), ver.deep_view());
                who.push(modules[i].clone());
                req.push(deps[j].module_id.clone());
                ver.push(deps[j].version.clone());
                proof {
                    assert(triples(who.deep_view(), req.deep_view(), ver.deep_view()) =~= before.push(
                        (mi, deps@[j as int].module_id@, deps@[j as int].version@),
                    ));
                    assert(deps@.take(j + 1).map_values(|d: Dependency| (mi, d.module_id@, d.version@))
                        =~= deps@.take(j as int).map_values(|d: Dependency| (mi, d.module_id@, d.version@)).push(
                        (mi, deps@[j as int].module_id@, deps@[j as int].version@),
                    ));
                }
                j = j + 1;
            }
            proof {
                assert(deps@.take(deps.len() as int) =~= deps@);
                assert(mods[i as int] == modules@[i as int]@);
            }
            i = i + 1;
        }
        proof {
            assert(mods.len() == modules.len());
        }
        let ghost t = triples(who.deep_view(), req.deep_view(), ver.deep_view());
        proof {
            assert(requirements(cat, mods, mods.len()) == Ok::<Seq<(Name, Name, Name)>, ErrorView>(t));
        }
        let mut keys: Vec<String> = Vec::new();
        proof {
            assert(keys.deep_view() =~= Seq::<Name>::empty());
        }
        let mut k: usize = 0;
        while k < req.len()
            invariant
                who.len() == req.len(),
                req.len() == ver.len(),
                t == triples(who.deep_view(), req.deep_view(), ver.deep_view()),
                k <= req.len(),
                keys.deep_view() == required_modules(t, k as nat),
            decreases req.len() - k,
        {
            proof {
                assert(t[k as int].1 == req.deep_view()[k as int]);
            }
            if position_of(&keys, req[k].as_str()).is_none() {
                let ghost before = keys.deep_view();
                keys.push(req[k].clone());
                proof {
                    assert(keys.deep_view() =~= before.push(req.deep_view()[k as int]));
                }
            }
            k = k + 1;
        }
        let mut q: usize = 0;
        while q < keys.len()
            invariant
                cat == self.catalog(),
                who.len() == req.len(),
                req.len() == ver.len(),
                t == triples(who.deep_view(), req.deep_view(), ver.deep_view()),
                t.len() == req.len(),
                keys.deep_view() == required_modules(t, t.len()),
                q <= keys.len(),
                first_conflict(cat, t, keys.deep_view(), q as nat) is None,
                mods == names_of(modules@),
                requirements(cat, mods, mods.len()) == Ok::<Seq<(Name, Name, Name)>, ErrorView>(t),
            decreases keys.len() - q,
        {
            let d = keys[q].as_str();
            proof {
                assert(keys.deep_view()[q as int] == d@);
            }
            let c = count_for(&who, &req, &ver, d);
            if c > 1 {
                match self.find(d) {
                    None => {},
                    Some(info) => {
                        match parse_version(info.metadata.version.as_str()) {
                            Err(_) => {},
                            Ok(actual) => {
                                let u = unsatisfied_for(&who, &req, &ver, d, &actual);
                                if u.len() > 0 {
                                    let e = CoreError::DependencyConflict { module: keys[q].clone(), requirements: u };
                                    proof {
                                        assert(first_conflict(cat, t, keys.deep_view(), (q + 1) as nat) == Some(e@));
                                        lemma_first_conflict_found(cat, t, keys.deep_view(), (q + 1) as nat, keys.len() as nat);
                                    }
                                    return Err(e);
                                }
                            },
                        }
                    },
                }
            }
            q = q + 1;
        }
        Ok(())
    }

    /// The dependency graph of the listed modules: each module, and an edge
    /// for each dependency the catalog holds. Fails with `ModuleNotFound`
    /// for a listed module the catalog does not hold, or with
    /// `DependencyNotFound` for a required dependency it does not hold.
    pub fn build_dependency_graph(&self, modules: &[String]) -> (r: Result<DependencyGraph, CoreError>)
        ensures
            match graph_of(self.catalog(), empty_graph(), names_of(modules@), modules@.len()) {
                Ok(g) => r matches Ok(h) && h.wf() && h@ == g,
                Err(e) => r matches Err(x) && x@ == e,
            },
    {
        let ghost cat = self.catalog();
        let ghost mods = names_of(modules@);
        let mut graph = DependencyGraph::new();
        let mut i: usize = 0;
        while i < modules.len()
            invariant
                cat == self.catalog(),
                mods == names_of(modules@),
                i <= modules.len(),
                graph.wf(),
                graph_of(cat, empty_graph(), mods, i as nat) == Ok::<GraphView, ErrorView>(graph@),
            decreases modules.len() - i,
        {
            let id = modules[i].as_str();
            proof {
                assert(mods[i as int] == id@);
            }
            let info = match self.find(id) {
                Some(x) => x,
                None => {
                    proof {
                        assert(graph_of(cat, empty_graph(), mods, (i + 1) as nat) == Err::<GraphView, ErrorView>(
                            ErrorView::ModuleNotFound(id@),
                        ));
                        lemma_graph_of_err(cat, empty_graph(), mods, (i + 1) as nat, modules.len() as nat);
                    }
                    return Err(CoreError::ModuleNotFound(modules[i].clone()));
                },
            };
            let ghost g0 = graph@;
            graph.add_module(id);
            let deps = &info.metadata.dependencies;
            let ghost g1 = graph@;
            proof {
                assert(graph_of(cat, empty_graph(), mods, (i + 1) as nat) == graph_add_deps(
                    cat,
                    g0.with_node(id@),
                    id@,
                    deps@,
                    deps.len() as nat,
                ));
            }
            let mut j: usize = 0;
            while j < deps.len()
                invariant
                    cat == self.catalog(),
                    deps == info.metadata.dependencies,
                    j <= deps.len(),
                    graph.wf(),
                    graph_add_deps(cat, g1, id@, deps@, j as nat) == Ok::<GraphView, ErrorView>(graph@),
                    graph_of(cat, empty_graph(), mods, (i + 1) as nat) == graph_add_deps(
                        cat,
                        g1,
                        id@,
                        deps@,
                        deps.len() as nat,
                    ),
                    mods == names_of(modules@),
                    i < modules.len(),
                decreases deps.len() - j,
            {
                let dep = &deps[j];
                if self.find(dep.module_id.as_str()).is_some() {
                    graph.add_dependency(id, dep.module_id.as_str());
                } else if dep.required {
                    let m1 = cat_str("模块 '", id);
                    let m2 = cat_str(m1.as_str(), "' 的必需依赖 '");
                    let m3 = cat_str(m2.as_str(), dep.module_id.as_str());
                    let msg = cat_str(m3.as_str(), "' 未找到");
                    proof {
                        assert(graph_add_deps(cat, g1, id@, deps@, (j + 1) as nat) == Err::<GraphView, ErrorView>(
                            ErrorView::DependencyNotFound(msg@),
                        ));
                        lemma_graph_add_deps_err(cat, g1, id@, deps@, (j + 1) as nat, deps.len() as nat);
                        lemma_graph_of_err(cat, empty_graph(), mods, (i + 1) as nat, modules.len() as nat);
                    }
                    return Err(CoreError::DependencyNotFound(msg));
                }
                j = j + 1;
            }
            i = i + 1;
        }
        Ok(graph)
    }

    fn resolve_recursive(
        &self,
        module_id: &str,
        resolved: &mut Vec<String>,
        visiting: &mut Vec<String>,
        Ghost(fuel): Ghost<nat>,
    ) -> (r: Result<(), CoreError>)
        requires
            stack_ok(self.catalog(), old(visiting).deep_view()),
            fuel == self.catalog().len() + 1 - old(visiting).len(),
        ensures
            match resolve_from(
                self.catalog(),
                module_id@,
                old(visiting).deep_view(),
                old(resolved).deep_view(),
                fuel,
            ) {
                Ok(res) => r is Ok && final(resolved).deep_view() == res && final(visiting).deep_view()
                    == old(visiting).deep_view(),
                Err(e) => r matches Err(x) && x@ == e,
            },
        decreases fuel,
    {
        let ghost cat = self.catalog();
        let ghost vis0 = visiting.deep_view();
        let ghost res0 = resolved.deep_view();
        proof {
            assert(cat.len() == self.modules.len());
            lemma_stack_bounded(cat, vis0);
        }
        if position_of(resolved, module_id).is_some() {
            return Ok(());
        }
        if position_of(visiting, module_id).is_some() {
            let m = cat_str("模块 '", module_id);
            return Err(CoreError::CircularDependency(cat_str(m.as_str(), "' 存在循环依赖")));
        }
        let info = match self.find(module_id) {
            Some(i) => i,
            None => {
                return Err(CoreError::ModuleNotFound(module_id.to_owned()));
            },
        };
        visiting.push(module_id.to_owned());
        let ghost vis1 = visiting.deep_view();
        proof {
            assert(vis1 =~= vis0.push(module_id@));
            assert(resolve_from(cat, module_id@, vis0, res0, fuel) == match resolve_deps(
                cat,
                module_id@,
                info.metadata.dependencies@,
                0,
                vis1,
                res0,
                fuel,
            ) {
                Ok(r) => Ok(r.push(module_id@)),
                Err(e) => Err(e),
            });
            assert(stack_ok(cat, vis1)) by {
                assert forall|k: int| 0 <= k < vis1.len() implies catalog_has(cat, #[trigger] vis1[k]) by {
                    if k == vis0.len() {
                        let c = choose|c: int| first_with_id(cat, module_id@, c);
                        assert(cat[c].metadata.id@ == module_id@);
                    }
                }
            }
        }
        let deps = &info.metadata.dependencies;
        let mut k: usize = 0;
        while k < deps.len()
            invariant
                cat == self.catalog(),
                vis0 == old(visiting).deep_view(),
                res0 == old(resolved).deep_view(),
                resolve_from(cat, module_id@, vis0, res0, fuel) == match resolve_deps(
                    cat,
                    module_id@,
                    deps@,
                    0,
                    vis1,
                    res0,
                    fuel,
                ) {
                    Ok(r) => Ok(r.push(module_id@)),
                    Err(e) => Err(e),
                },
                deps == info.metadata.dependencies,
                lookup(cat, module_id@) == Some(*info),
                k <= deps.len(),
                visiting.deep_view() == vis1,
                vis1 == vis0.push(module_id@),
                stack_ok(cat, vis1),
                fuel == cat.len() + 1 - vis0.len(),
                fuel >= 1,
                resolve_deps(cat, module_id@, deps@, 0, vis1, res0, fuel) == resolve_deps(
                    cat,
                    module_id@,
                    deps@,
                    k as int,
                    vis1,
                    resolved.deep_view(),
                    fuel,
                ),
            decreases deps.len() - k,
        {
            let dep = &deps[k];
            match self.find(dep.module_id.as_str()) {
                None => {
                    if dep.required {
                        let m1 = cat_str("模块 '", module_id);
                        let m2 = cat_str(m1.as_str(), "' 的依赖 '");
                        let m3 = cat_str(m2.as_str(), dep.module_id.as_str());
                        let msg = cat_str(m3.as_str(), "' 未找到");
                        proof {
                            assert(resolve_deps(cat, module_id@, deps@, k as int, vis1, resolved.deep_view(), fuel)
                                == Err::<Seq<Name>, ErrorView>(ErrorView::DependencyNotFound(msg@)));
                        }
                        return Err(CoreError::DependencyNotFound(msg));
                    }
                    proof {
                        assert(resolve_deps(cat, module_id@, deps@, k as int, vis1, resolved.deep_view(), fuel)
                            == resolve_deps(cat, module_id@, deps@, k + 1, vis1, resolved.deep_view(), fuel));
                    }
                },
                Some(dep_info) => {
                    match self.check_version_compatibility(dep, dep_info) {
                        Err(e) => {
                            proof {
                                assert(resolve_deps(cat, module_id@, deps@, k as int, vis1, resolved.deep_view(), fuel)
                                    == Err::<Seq<Name>, ErrorView>(e@));
                            }
                            return Err(e);
                        },
                        Ok(()) => {},
                    }
                    let ghost res_k = resolved.deep_view();
                    match self.resolve_recursive(dep.module_id.as_str(), resolved, visiting, Ghost((fuel - 1) as nat)) {
                        Err(e) => {
                            proof {
                                assert(resolve_deps(cat, module_id@, deps@, k as int, vis1, res_k, fuel)
                                    == Err::<Seq<Name>, ErrorView>(e@));
                            }
                            return Err(e);
                        },
                        Ok(()) => {
                            proof {
                                assert(resolve_deps(cat, module_id@, deps@, k as int, vis1, res_k, fuel)
                                    == resolve_deps(cat, module_id@, deps@, k + 1, vis1, resolved.deep_view(), fuel));
                            }
                        },
                    }
                },
            }
            k = k + 1;
        }
        let ghost vv = visiting@;
        visiting.pop();
        proof {
            assert(visiting@ =~= vv.drop_last());
            assert(visiting.deep_view().len() == vis0.len());
            assert forall|i: int| 0 <= i < vis0.len() implies visiting.deep_view()[i] == vis0[i] by {
                assert(visiting@[i] == vv[i]);
                assert(vis1[i] == vv[i]@);
            }
        }
        let ghost before = resolved.deep_view();
        resolved.push(module_id.to_owned());
        proof {
            assert(visiting.deep_view() =~= vis0);
            assert(resolved.deep_view() =~= before.push(module_id@));
        }
        Ok(())
    }

    /// Resolves the dependency chain of `module_id`: the ids of the modules
    /// it needs, each after the modules it needs, ending with `module_id`.
    /// Optional dependencies the catalog does not hold are skipped.
    ///
    /// Errors: `ModuleNotFound` for a module the catalog does not hold,
    /// `DependencyNotFound` for a required dependency it does not hold,
    /// `CircularDependency`, and `InvalidMetadata` or `VersionMismatch` when
    /// a version requirement is not met, whichever the depth-first walk in
    /// declaration order meets first.
    pub fn resolve(&self, module_id: &str) -> (r: Result<Vec<String>, CoreError>)
        ensures
            match resolution(self.catalog(), module_id@) {
                Ok(res) => r matches Ok(v) && v.deep_view() == res,
                Err(e) => r matches Err(x) && x@ == e,
            },
            r matches Ok(v) ==> is_load_order(self.catalog(), v.deep_view()) && v.deep_view().len() > 0
                && v.deep_view().last() == module_id@ && forall|k: int|
                0 <= k < v.deep_view().len() - 1 ==> #[trigger] needed_later(self.catalog(), v.deep_view(), k),
    {
        proof {
            lemma_resolution_is_load_order(self.catalog(), module_id@);
        }
        let mut resolved: Vec<String> = Vec::new();
        let mut visiting: Vec<String> = Vec::new();
        proof {
            assert(visiting.deep_view() =~= Seq::<Name>::empty());
            assert(resolved.deep_view() =~= Seq::<Name>::empty());
        }
        match self.resolve_recursive(module_id, &mut resolved, &mut visiting, Ghost((self.catalog().len() + 1) as nat)) {
            Ok(()) => Ok(resolved),
            Err(e) => Err(e),
        }
    }
}

} // verus!
