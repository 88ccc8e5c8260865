//! Graph algorithms over modules numbered `0..n`.
//!
//! `adj[i]` lists the numbers of the modules that module `i` depends on.
//! The algorithms here either order all modules so that dependencies
//! come first, or exhibit a dependency cycle.

use vstd::prelude::*;

verus! {

/// Every entry of `adj` names a module `0..adj.len()`.
pub open spec fn adj_ok(adj: Seq<Seq<usize>>) -> bool {
    forall|i: int, k: int| 0 <= i < adj.len() && 0 <= k < adj[i].len() ==> #[trigger] adj[i][k] < adj.len()
}

/// Module `i` depends directly on module `j`.
pub open spec fn iedge(adj: Seq<Seq<usize>>, i: int, j: int) -> bool {
    0 <= i < adj.len() && adj[i].contains(j as usize)
}

/// `ord` lists every module exactly once, and no module is listed at or
/// before a module it depends on.
pub open spec fn is_index_order(adj: Seq<Seq<usize>>, ord: Seq<usize>) -> bool {
    &&& ord.len() == adj.len()
    &&& ord.no_duplicates()
    &&& forall|p: int| 0 <= p < ord.len() ==> #[trigger] ord[p] < adj.len()
    &&& forall|p: int, q: int|
        #![trigger ord[p], ord[q]]
        0 <= p <= q < ord.len() ==> !iedge(adj, ord[p] as int, ord[q] as int)
}

/// `c` is a closed walk along dependencies that visits no module twice
/// before coming back to its start.
pub open spec fn is_index_cycle(adj: Seq<Seq<usize>>, c: Seq<usize>) -> bool {
    &&& c.len() >= 2
    &&& c[0] == c.last()
    &&& forall|k: int| 0 <= k < c.len() ==> #[trigger] c[k] < adj.len()
    &&& forall|k: int| 0 <= k < c.len() - 1 ==> iedge(adj, #[trigger] c[k] as int, c[k + 1] as int)
    &&& c.drop_last().no_duplicates()
}

/// A repetition-free sequence of numbers below `n` has at most `n` elements.
pub proof fn lemma_distinct_bounded(s: Seq<usize>, n: usize)
    requires
        s.no_duplicates(),
        forall|i: int| 0 <= i < s.len() ==> #[trigger] s[i] < n,
    ensures
        s.len() <= n,
    decreases n,
{
    if n == 0 {
        if s.len() > 0 {
            assert(s[0] < n);
        }
    } else {
        let m = (n - 1) as usize;
        if s.contains(m) {
            let k = choose|k: int| 0 <= k < s.len() && s[k] == m;
            let t = s.remove(k);
            assert forall|i: int| 0 <= i < t.len() implies #[trigger] t[i] < m by {
                if i < k {
                    assert(t[i] == s[i]);
                    assert(s[i] != s[k]);
                } else {
                    assert(t[i] == s[i + 1]);
                    assert(s[i + 1] != s[k]);
                }
            }
            assert(t.no_duplicates()) by {
                assert forall|p: int, q: int| 0 <= p < q < t.len() implies t[p] != t[q] by {
                    let pp = if p < k { p } else { p + 1 };
                    let qq = if q < k { q } else { q + 1 };
                    assert(t[p] == s[pp]);
                    assert(t[q] == s[qq]);
                }
            }
            lemma_distinct_bounded(t, m);
        } else {
            assert forall|i: int| 0 <= i < s.len() implies #[trigger] s[i] < m by {
                assert(s[i] != m);
            }
            lemma_distinct_bounded(s, m);
        }
    }
}

/// Whether every module in `list` is marked in `placed`.
fn all_placed(list: &Vec<usize>, placed: &Vec<bool>) -> (r: bool)
    requires
        forall|k: int| 0 <= k < list.len() ==> #[trigger] list@[k] < placed.len(),
    ensures
        r == forall|k: int| 0 <= k < list.len() ==> #[trigger] placed@[list@[k] as int],
{
    let mut k: usize = 0;
    while k < list.len()
        invariant
            k <= list.len(),
            forall|j: int| 0 <= j < list.len() ==> #[trigger] list@[j] < placed.len(),
            forall|j: int| 0 <= j < k ==> #[trigger] placed@[list@[j] as int],
        decreases list.len() - k,
    {
        if !placed[list[k]] {
            return false;
        }
        k = k + 1;
    }
    true
}

/// A dependency cycle among the modules that `placed` leaves unmarked,
/// given that every unmarked module depends on an unmarked module.
#[verifier::rlimit(40)]
fn cycle_among_unplaced(adj: &Vec<Vec<usize>>, placed: &Vec<bool>) -> (c: Vec<usize>)
    requires
        adj_ok(adj.deep_view()),
        placed.len() == adj.len(),
        exists|x: int| 0 <= x < adj.len() && !placed@[x],
        forall|x: int|
            0 <= x < adj.len() && !placed@[x] ==> exists|k: int|
                0 <= k < adj@[x].len() && !#[trigger] placed@[adj@[x]@[k] as int],
    ensures
        is_index_cycle(adj.deep_view(), c@),
{
    let ghost a = adj.deep_view();
    let n = adj.len();
    assert forall|i: int| 0 <= i < n implies #[trigger] a[i] == adj@[i]@ by {}
    let mut s: usize = 0;
    while placed[s]
        invariant
            placed.len() == n,
            s < n,
            exists|x: int| s <= x < n && !placed@[x],
        decreases n - s,
    {
        s = s + 1;
    }
    let mut pos: Vec<usize> = Vec::new();
    let mut i: usize = 0;
    while i < n
        invariant
            i <= n,
            pos.len() == i,
            forall|x: int| 0 <= x < i ==> pos@[x] == n,
        decreases n - i,
    {
        pos.push(n);
        i = i + 1;
    }
    pos.set(s, 0);
    let mut path: Vec<usize> = Vec::new();
    path.push(s);
    loop
        invariant
            n == adj.len(),
            a == adj.deep_view(),
            adj_ok(a),
            placed.len() == n,
            pos.len() == n,
            forall|i: int| 0 <= i < n ==> #[trigger] a[i] == adj@[i]@,
            forall|x: int|
                0 <= x < n && !placed@[x] ==> exists|k: int|
                    0 <= k < adj@[x].len() && !#[trigger] placed@[adj@[x]@[k] as int],
            1 <= path.len() <= n,
            path@.no_duplicates(),
            forall|p: int| 0 <= p < path.len() ==> #[trigger] path@[p] < n,
            forall|p: int| 0 <= p < path.len() ==> !placed@[#[trigger] path@[p] as int],
            forall|p: int| 0 <= p < path.len() ==> pos@[#[trigger] path@[p] as int] == p,
            forall|x: int| 0 <= x < n && #[trigger] pos@[x] < n ==> pos@[x] < path.len() && path@[pos@[x] as int] == x,
            forall|p: int| 0 <= p < path.len() - 1 ==> iedge(a, #[trigger] path@[p] as int, path@[p + 1] as int),
        decreases n - path.len(),
    {
        let cur = path[path.len() - 1];
        proof {
            assert forall|j: int| 0 <= j < adj@[cur as int].len() implies #[trigger] adj@[cur as int]@[j] < n by {
                assert(a[cur as int][j] < a.len());
            }
        }
        let mut k: usize = 0;
        while placed[adj[cur][k]]
            invariant
                cur < n,
                placed.len() == n,
                adj_ok(a),
                a == adj.deep_view(),
                n == adj.len(),
                forall|i: int| 0 <= i < n ==> #[trigger] a[i] == adj@[i]@,
                k < adj@[cur as int].len(),
                forall|j: int| 0 <= j < adj@[cur as int].len() ==> #[trigger] adj@[cur as int]@[j] < n,
                exists|j: int| k <= j < adj@[cur as int].len() && !placed@[adj@[cur as int]@[j] as int],
            decreases adj@[cur as int].len() - k,
        {
            k = k + 1;
        }
        let d = adj[cur][k];
        proof {
            assert(a[cur as int][k as int] == d);
            assert(a[cur as int].contains(d));
        }
        if pos[d] < n {
            let start = pos[d];
            let mut c: Vec<usize> = Vec::new();
            let mut j: usize = start;
            while j < path.len()
                invariant
                    start <= j <= path.len(),
                    c@ == path@.subrange(start as int, j as int),
                decreases path.len() - j,
            {
                c.push(path[j]);
                proof {
                    assert(path@.subrange(start as int, j + 1) =~= path@.subrange(start as int, j as int).push(path@[j as int]));
                }
                j = j + 1;
            }
            c.push(d);
            proof {
                let sub = path@.subrange(start as int, path.len() as int);
                assert(c@ == sub.push(d));
                assert(c@.drop_last() =~= sub);
                assert(c@[0] == path@[start as int]);
                assert forall|k2: int| 0 <= k2 < c@.len() - 1 implies iedge(a, #[trigger] c@[k2] as int, c@[k2 + 1] as int) by {
                    if k2 < c@.len() - 2 {
                        assert(c@[k2] == path@[start + k2]);
                        assert(c@[k2 + 1] == path@[start + k2 + 1]);
                    } else {
                        assert(c@[k2] == path@[path.len() - 1]);
                    }
                }
                assert(sub.no_duplicates()) by {
                    assert forall|p: int, q: int| 0 <= p < q < sub.len() implies sub[p] != sub[q] by {
                        assert(sub[p] == path@[start + p]);
                        assert(sub[q] == path@[start + q]);
                    }
                }
                assert forall|k2: int| 0 <= k2 < c@.len() implies #[trigger] c@[k2] < a.len() by {
                    if k2 < c@.len() - 1 {
                        assert(c@[k2] == path@[start + k2]);
                    }
                }
            }
            return c;
        }
        proof {
            assert(!path@.contains(d)) by {
                if path@.contains(d) {
                    let p = choose|p: int| 0 <= p < path.len() && path@[p] == d;
                    assert(pos@[path@[p] as int] == p);
                }
            }
            let np = path@.push(d);
            assert(np.no_duplicates()) by {
                assert forall|p: int, q: int| 0 <= p < q < np.len() implies np[p] != np[q] by {
                    if q == path.len() {
                        assert(path@.contains(np[p]));
                    }
                }
            }
            assert forall|p: int| 0 <= p < np.len() implies #[trigger] np[p] < n by {}
            lemma_distinct_bounded(np, n);
        }
        let ghost old_path = path@;
        let ghost old_pos = pos@;
        pos.set(d, path.len());
        path.push(d);
        proof {
            assert forall|p: int| 0 <= p < path.len() implies pos@[#[trigger] path@[p] as int] == p by {
                if p < old_path.len() {
                    assert(path@[p] == old_path[p]);
                    assert(old_path[p] != d) by {
                        assert(old_path.contains(old_path[p]));
                    }
                }
            }
            assert forall|x: int| 0 <= x < n && #[trigger] pos@[x] < n implies pos@[x] < path.len() && path@[pos@[x] as int] == x by {
                if x != d as int {
                    assert(old_pos[x] == pos@[x]);
                }
            }
            assert forall|p: int| 0 <= p < path.len() - 1 implies iedge(a, #[trigger] path@[p] as int, path@[p + 1] as int) by {
                if p < old_path.len() - 1 {
                    assert(path@[p] == old_path[p]);
                    assert(path@[p + 1] == old_path[p + 1]);
                }
            }
        }
    }
}

/// `member` marks a set of modules that holds the dependencies of each
/// of its modules.
pub open spec fn closed_set(adj: Seq<Seq<usize>>, member: Seq<bool>) -> bool {
    &&& member.len() == adj.len()
    &&& forall|x: int, k: int|
        0 <= x < adj.len() && member[x] && 0 <= k < adj[x].len() ==> member[#[trigger] adj[x][k] as int]
}

/// `ord` lists exactly the modules that `member` marks, each once, and no
/// module is listed at or before a module it depends on.
pub open spec fn is_subset_order(adj: Seq<Seq<usize>>, member: Seq<bool>, ord: Seq<usize>) -> bool {
    &&& ord.no_duplicates()
    &&& forall|p: int| 0 <= p < ord.len() ==> #[trigger] ord[p] < adj.len() && member[ord[p] as int]
    &&& forall|x: usize| x < adj.len() && member[x as int] ==> #[trigger] ord.contains(x)
    &&& forall|p: int, q: int|
        #![trigger ord[p], ord[q]]
        0 <= p <= q < ord.len() ==> !iedge(adj, ord[p] as int, ord[q] as int)
}

/// Either an order of the marked modules in which every module comes
/// after the modules it depends on, or a dependency cycle among them.
///
/// Modules are taken in passes: each pass, in order of number, takes
/// every marked module whose dependencies are all taken already.
pub fn order_subset(adj: &Vec<Vec<usize>>, member: &Vec<bool>) -> (r: std::result::Result<Vec<usize>, Vec<usize>>)
    requires
        adj_ok(adj.deep_view()),
        closed_set(adj.deep_view(), member@),
    ensures
        match r {
            Ok(ord) => is_subset_order(adj.deep_view(), member@, ord@),
            Err(c) => is_index_cycle(adj.deep_view(), c@),
        },
{
    let ghost a = adj.deep_view();
    let n = adj.len();
    assert forall|i: int| 0 <= i < n implies #[trigger] a[i] == adj@[i]@ by {}
    let mut placed: Vec<bool> = Vec::new();
    let mut i: usize = 0;
    while i < n
        invariant
            i <= n,
            n == member.len(),
            placed.len() == i,
            forall|x: int| 0 <= x < i ==> placed@[x] == !member@[x],
        decreases n - i,
    {
        placed.push(!member[i]);
        i = i + 1;
    }
    let mut order: Vec<usize> = Vec::new();
    loop
        invariant
            n == adj.len(),
            a == adj.deep_view(),
            adj_ok(a),
            closed_set(a, member@),
            forall|i: int| 0 <= i < n ==> #[trigger] a[i] == adj@[i]@,
            placed.len() == n,
            forall|x: int| 0 <= x < n ==> (#[trigger] placed@[x] <==> (!member@[x] || order@.contains(x as usize))),
            order@.no_duplicates(),
            forall|p: int| 0 <= p < order.len() ==> #[trigger] order@[p] < n && member@[order@[p] as int],
            order.len() <= n,
            forall|p: int, k: int|
                0 <= p < order.len() && 0 <= k < a[order@[p] as int].len() ==> order@.subrange(0, p).contains(
                    #[trigger] a[order@[p] as int][k],
                ),
        decreases n - order.len(),
    {
        let start = order.len();
        let mut progress = false;
        let mut done = true;
        let mut i: usize = 0;
        while i < n
            invariant
                n == adj.len(),
                a == adj.deep_view(),
                adj_ok(a),
                closed_set(a, member@),
                forall|i: int| 0 <= i < n ==> #[trigger] a[i] == adj@[i]@,
                placed.len() == n,
                i <= n,
                forall|x: int| 0 <= x < n ==> (#[trigger] placed@[x] <==> (!member@[x] || order@.contains(x as usize))),
                order@.no_duplicates(),
                forall|p: int| 0 <= p < order.len() ==> #[trigger] order@[p] < n && member@[order@[p] as int],
                order.len() <= n,
                start <= order.len(),
                progress <==> order.len() > start,
                done ==> forall|x: int| 0 <= x < i ==> #[trigger] placed@[x],
                !done ==> exists|x: int| 0 <= x < i && !#[trigger] placed@[x],
                forall|p: int, k: int|
                    0 <= p < order.len() && 0 <= k < a[order@[p] as int].len() ==> order@.subrange(0, p).contains(
                        #[trigger] a[order@[p] as int][k],
                    ),
                !progress ==> forall|x: int|
                    0 <= x < i && !placed@[x] ==> exists|k: int|
                        0 <= k < adj@[x].len() && !#[trigger] placed@[adj@[x]@[k] as int],
            decreases n - i,
        {
            if !placed[i] {
                proof {
                    assert forall|k: int| 0 <= k < adj@[i as int].len() implies #[trigger] adj@[i as int]@[k] < placed.len() by {
                        assert(a[i as int][k] < n);
                    }
                }
                if all_placed(&adj[i], &placed) {
                    let ghost old_order = order@;
                    let ghost old_placed = placed@;
                    let ghost wit: int = if !done { choose|x: int| 0 <= x < i && !placed@[x] } else { 0 };
                    proof {
                        assert(!old_order.contains(i));
                        let np = old_order.push(i);
                        assert(np.no_duplicates()) by {
                            assert forall|p: int, q: int| 0 <= p < q < np.len() implies np[p] != np[q] by {
                                if q == old_order.len() {
                                    assert(old_order.contains(np[p]));
                                }
                            }
                        }
                        assert forall|p: int| 0 <= p < np.len() implies #[trigger] np[p] < n by {}
                        lemma_distinct_bounded(np, n);
                    }
                    placed.set(i, true);
                    order.push(i);
                    progress = true;
                    proof {
                        assert forall|x: int| 0 <= x < n implies (#[trigger] placed@[x] <==> (!member@[x] || order@.contains(
                            x as usize,
                        ))) by {
                            if x == i as int {
                                assert(order@[order.len() - 1] == i);
                            } else {
                                if old_order.contains(x as usize) {
                                    let p = choose|p: int| 0 <= p < old_order.len() && old_order[p] == x as usize;
                                    assert(order@[p] == x as usize);
                                }
                                if order@.contains(x as usize) {
                                    let p = choose|p: int| 0 <= p < order.len() && order@[p] == x as usize;
                                    assert(p < old_order.len());
                                    assert(old_order[p] == x as usize);
                                }
                            }
                        }
                        assert forall|p: int, k: int|
                            0 <= p < order.len() && 0 <= k < a[order@[p] as int].len() implies order@.subrange(
                                0,
                                p,
                            ).contains(#[trigger] a[order@[p] as int][k]) by {
                            if p < old_order.len() {
                                assert(order@.subrange(0, p) =~= old_order.subrange(0, p));
                                assert(order@[p] == old_order[p]);
                            } else {
                                assert(order@.subrange(0, p) =~= old_order);
                                let y = a[i as int][k];
                                assert(y == adj@[i as int]@[k]);
                                assert(old_placed[y as int]);
                                assert(member@[y as int]);
                            }
                        }
                        if !done {
                            assert(placed@[wit] == old_placed[wit]);
                        }
                    }
                } else {
                    done = false;
                }
            }
            i = i + 1;
        }
        if done {
            proof {
                let ord = order@;
                assert forall|p: int, q: int|
                    #![trigger ord[p], ord[q]]
                    0 <= p <= q < ord.len() implies !iedge(a, ord[p] as int, ord[q] as int) by {
                    if iedge(a, ord[p] as int, ord[q] as int) {
                        let k = choose|k: int| 0 <= k < a[ord[p] as int].len() && a[ord[p] as int][k] == ord[q];
                        assert(ord.subrange(0, p).contains(a[ord[p] as int][k]));
                        let r = choose|r: int| 0 <= r < p && ord.subrange(0, p)[r] == ord[q];
                        assert(ord[r] == ord[q]);
                    }
                }
                assert forall|x: usize| x < n && member@[x as int] implies #[trigger] ord.contains(x) by {
                    assert(placed@[x as int]);
                }
            }
            return Ok(order);
        }
        if !progress {
            proof {
                assert(exists|x: int| 0 <= x < n && !placed@[x]);
            }
            return Err(cycle_among_unplaced(adj, &placed));
        }
    }
}

/// Either an order of all modules in which every module comes after the
/// modules it depends on, or a dependency cycle.
pub fn order_or_cycle(adj: &Vec<Vec<usize>>) -> (r: std::result::Result<Vec<usize>, Vec<usize>>)
    requires
        adj_ok(adj.deep_view()),
    ensures
        match r {
            Ok(ord) => is_index_order(adj.deep_view(), ord@),
            Err(c) => is_index_cycle(adj.deep_view(), c@),
        },
{
    let n = adj.len();
    let mut member: Vec<bool> = Vec::new();
    let mut i: usize = 0;
    while i < n
        invariant
            i <= n,
            member.len() == i,
            forall|x: int| 0 <= x < i ==> member@[x],
        decreases n - i,
    {
        member.push(true);
        i = i + 1;
    }
    let r = order_subset(adj, &member);
    proof {
        if r is Ok {
            lemma_covering_bounded(r->Ok_0@, n);
        }
    }
    r
}

/// A repetition-free sequence that contains every number below `n` and
/// only such numbers has exactly `n` elements.
proof fn lemma_covering_bounded(s: Seq<usize>, n: usize)
    requires
        s.no_duplicates(),
        forall|i: int| 0 <= i < s.len() ==> #[trigger] s[i] < n,
        forall|x: usize| x < n ==> #[trigger] s.contains(x),
    ensures
        s.len() == n,
    decreases n,
{
    lemma_distinct_bounded(s, n);
    if n > 0 {
        let m = (n - 1) as usize;
        assert(s.contains(m));
        let k = choose|k: int| 0 <= k < s.len() && s[k] == m;
        let t = s.remove(k);
        assert forall|i: int| 0 <= i < t.len() implies #[trigger] t[i] < m by {
            if i < k {
                assert(t[i] == s[i]);
                assert(s[i] != s[k]);
            } else {
                assert(t[i] == s[i + 1]);
                assert(s[i + 1] != s[k]);
            }
        }
        assert(t.no_duplicates()) by {
            assert forall|p: int, q: int| 0 <= p < q < t.len() implies t[p] != t[q] by {
                let pp = if p < k { p } else { p + 1 };
                let qq = if q < k { q } else { q + 1 };
                assert(t[p] == s[pp]);
                assert(t[q] == s[qq]);
            }
        }
        assert forall|x: usize| x < m implies #[trigger] t.contains(x) by {
            assert(s.contains(x));
            let j = choose|j: int| 0 <= j < s.len() && s[j] == x;
            assert(j != k);
            if j < k {
                assert(t[j] == x);
            } else {
                assert(t[j - 1] == x);
            }
        }
        lemma_covering_bounded(t, m);
    }
}

/// `p` is a walk along dependencies: each module in it depends on the next.
pub open spec fn is_index_walk(adj: Seq<Seq<usize>>, p: Seq<usize>) -> bool {
    &&& forall|k: int| 0 <= k < p.len() ==> #[trigger] p[k] < adj.len()
    &&& forall|k: int| 0 <= k < p.len() - 1 ==> iedge(adj, #[trigger] p[k] as int, p[k + 1] as int)
}

/// Module `t` is reached from module `s` through one or more dependencies.
pub open spec fn ireach(adj: Seq<Seq<usize>>, s: usize, t: usize) -> bool {
    exists|p: Seq<usize>| #[trigger] is_index_walk(adj, p) && p.len() >= 2 && p[0] == s && p.last() == t
}

/// A set that holds the dependencies of `s` and of each of its members
/// holds every module reached from `s`.
proof fn lemma_closed_holds_reach(adj: Seq<Seq<usize>>, marked: Seq<bool>, s: usize, p: Seq<usize>, k: int)
    requires
        closed_set(adj, marked),
        s < adj.len(),
        forall|j: int| 0 <= j < adj[s as int].len() ==> marked[#[trigger] adj[s as int][j] as int],
        is_index_walk(adj, p),
        p.len() >= 2,
        p[0] == s,
        1 <= k < p.len(),
    ensures
        marked[p[k] as int],
    decreases k,
{
    assert(iedge(adj, p[k - 1] as int, p[k] as int));
    let prev = p[k - 1] as int;
    let j = choose|j: int| 0 <= j < adj[prev].len() && #[trigger] adj[prev][j] == p[k];
    if k == 1 {
        assert(marked[adj[s as int][j] as int]);
    } else {
        lemma_closed_holds_reach(adj, marked, s, p, k - 1);
        assert(marked[prev]);
        assert(marked[adj[prev][j] as int]);
    }
}

/// Marks the unmarked dependencies of `cur` and pushes them on `stack`.
fn mark_deps(adj: &Vec<Vec<usize>>, cur: usize, marked: &mut Vec<bool>, stack: &mut Vec<usize>)
    requires
        adj_ok(adj.deep_view()),
        cur < adj.len(),
        old(marked).len() == adj.len(),
        old(stack)@.no_duplicates(),
        forall|p: int| 0 <= p < old(stack).len() ==> #[trigger] old(stack)@[p] < adj.len() && old(marked)@[old(stack)@[p] as int],
    ensures
        final(marked).len() == adj.len(),
        final(stack)@.no_duplicates(),
        final(stack)@.subrange(0, old(stack).len() as int) == old(stack)@,
        old(stack).len() <= final(stack).len(),
        forall|p: int| 0 <= p < final(stack).len() ==> #[trigger] final(stack)@[p] < adj.len() && final(marked)@[final(stack)@[p] as int],
        forall|p: int|
            old(stack).len() <= p < final(stack).len() ==> !old(marked)@[#[trigger] final(stack)@[p] as int]
                && adj.deep_view()[cur as int].contains(final(stack)@[p]),
        forall|x: int|
            0 <= x < adj.len() ==> (#[trigger] final(marked)@[x] <==> (old(marked)@[x] || final(stack)@.subrange(
                old(stack).len() as int,
                final(stack).len() as int,
            ).contains(x as usize))),
        forall|j: int| 0 <= j < adj.deep_view()[cur as int].len() ==> final(marked)@[#[trigger] adj.deep_view()[cur as int][j] as int],
{
    let ghost a = adj.deep_view();
    let ghost m0 = marked@;
    let ghost s0 = stack@;
    let n = adj.len();
    assert(a[cur as int] == adj@[cur as int]@);
    let deps = &adj[cur];
    let mut k: usize = 0;
    while k < deps.len()
        invariant
            n == adj.len(),
            a == adj.deep_view(),
            adj_ok(a),
            cur < n,
            deps@ == a[cur as int],
            k <= deps.len(),
            marked.len() == n,
            stack@.no_duplicates(),
            stack@.subrange(0, s0.len() as int) == s0,
            s0.len() <= stack.len(),
            forall|p: int| 0 <= p < stack.len() ==> #[trigger] stack@[p] < n && marked@[stack@[p] as int],
            forall|p: int| s0.len() <= p < stack.len() ==> !m0[#[trigger] stack@[p] as int] && a[cur as int].contains(stack@[p]),
            forall|x: int|
                0 <= x < n ==> (#[trigger] marked@[x] <==> (m0[x] || stack@.subrange(s0.len() as int, stack.len() as int).contains(
                    x as usize,
                ))),
            forall|j: int| 0 <= j < k ==> marked@[#[trigger] deps@[j] as int],
        decreases deps.len() - k,
    {
        let d = deps[k];
        proof {
            assert(a[cur as int][k as int] < n);
        }
        if !marked[d] {
            let ghost old_stack = stack@;
            let ghost old_marked = marked@;
            proof {
                assert(!old_stack.contains(d)) by {
                    if old_stack.contains(d) {
                        let p = choose|p: int| 0 <= p < old_stack.len() && old_stack[p] == d;
                        assert(marked@[old_stack[p] as int]);
                    }
                }
            }
            marked.set(d, true);
            stack.push(d);
            proof {
                assert(stack@ == old_stack.push(d));
                assert(stack@.no_duplicates()) by {
                    assert forall|p: int, q: int| 0 <= p < q < stack.len() implies stack@[p] != stack@[q] by {
                        if q == old_stack.len() {
                            assert(old_stack.contains(stack@[p]));
                        }
                    }
                }
                assert(stack@.subrange(0, s0.len() as int) =~= old_stack.subrange(0, s0.len() as int));
                assert(a[cur as int].contains(d)) by {
                    assert(a[cur as int][k as int] == d);
                }
                assert(!m0[d as int]) by {
                    assert(!old_marked[d as int]);
                }
                let seg_old = old_stack.subrange(s0.len() as int, old_stack.len() as int);
                let seg = stack@.subrange(s0.len() as int, stack.len() as int);
                assert(seg =~= seg_old.push(d));
                assert forall|x: int| 0 <= x < n implies (#[trigger] marked@[x] <==> (m0[x] || seg.contains(x as usize))) by {
                    if x == d as int {
                        assert(seg[seg.len() - 1] == d);
                    } else {
                        assert(marked@[x] == old_marked[x]);
                        if seg_old.contains(x as usize) {
                            let p = choose|p: int| 0 <= p < seg_old.len() && seg_old[p] == x as usize;
                            assert(seg[p] == x as usize);
                        }
                        if seg.contains(x as usize) {
                            let p = choose|p: int| 0 <= p < seg.len() && seg[p] == x as usize;
                            assert(p < seg_old.len());
                            assert(seg_old[p] == x as usize);
                        }
                    }
                }
            }
        }
        k = k + 1;
    }
}

/// The modules reached from module `s` through one or more dependencies.
#[verifier::rlimit(100)]
pub fn reach_set(adj: &Vec<Vec<usize>>, s: usize) -> (marked: Vec<bool>)
    requires
        adj_ok(adj.deep_view()),
        s < adj.len(),
    ensures
        marked.len() == adj.len(),
        closed_set(adj.deep_view(), marked@),
        forall|x: usize| x < adj.len() ==> (#[trigger] marked@[x as int] <==> ireach(adj.deep_view(), s, x)),
{
    let ghost a = adj.deep_view();
    let n = adj.len();
    assert forall|i: int| 0 <= i < n implies #[trigger] a[i] == adj@[i]@ by {}
    let mut marked: Vec<bool> = Vec::new();
    let mut i: usize = 0;
    while i < n
        invariant
            i <= n,
            marked.len() == i,
            forall|x: int| 0 <= x < i ==> !marked@[x],
        decreases n - i,
    {
        marked.push(false);
        i = i + 1;
    }
    let mut stack: Vec<usize> = Vec::new();
    let ghost m0 = marked@;
    mark_deps(adj, s, &mut marked, &mut stack);
    let ghost mut hist: Seq<usize> = stack@;
    proof {
        assert(stack@.subrange(0, 0) =~= Seq::<usize>::empty());
        assert(stack@.subrange(0, stack.len() as int) =~= stack@);
        assert forall|x: usize| x < n && #[trigger] marked@[x as int] implies ireach(a, s, x) by {
            assert(stack@.contains(x));
            let p = choose|p: int| 0 <= p < stack.len() && stack@[p] == x;
            let w = seq![s, x];
            assert(is_index_walk(a, w));
        }
        assert forall|x: int| 0 <= x < n implies (#[trigger] marked@[x] <==> hist.contains(x as usize)) by {
            assert(!m0[x]);
        }
    }
    while stack.len() > 0
        invariant
            n == adj.len(),
            a == adj.deep_view(),
            adj_ok(a),
            s < n,
            forall|i: int| 0 <= i < n ==> #[trigger] a[i] == adj@[i]@,
            marked.len() == n,
            hist.no_duplicates(),
            forall|p: int| 0 <= p < hist.len() ==> #[trigger] hist[p] < n,
            forall|x: int| 0 <= x < n ==> (#[trigger] marked@[x] <==> hist.contains(x as usize)),
            stack@.no_duplicates(),
            forall|p: int| 0 <= p < stack.len() ==> #[trigger] stack@[p] < n && marked@[stack@[p] as int],
            forall|x: usize| x < n && #[trigger] marked@[x as int] ==> ireach(a, s, x),
            forall|j: int| 0 <= j < a[s as int].len() ==> marked@[#[trigger] a[s as int][j] as int],
            forall|x: int, j: int|
                0 <= x < n && marked@[x] && !stack@.contains(x as usize) && 0 <= j < a[x].len() ==> marked@[#[trigger] a[x][j] as int],
        decreases n - hist.len(), stack.len(),
    {
        proof {
            lemma_distinct_bounded(hist, n);
        }
        let ghost s0 = stack@;
        let cur = stack.pop().unwrap();
        {
            {
                let ghost s1 = stack@;
                let ghost m1 = marked@;
                mark_deps(adj, cur, &mut marked, &mut stack);
                proof {
                    let seg = stack@.subrange(s1.len() as int, stack.len() as int);
                    let old_hist = hist;
                    hist = hist + seg;
                    assert(seg.no_duplicates()) by {
                        assert forall|p: int, q: int| 0 <= p < q < seg.len() implies seg[p] != seg[q] by {
                            assert(seg[p] == stack@[s1.len() + p]);
                            assert(seg[q] == stack@[s1.len() + q]);
                        }
                    }
                    assert(hist.no_duplicates()) by {
                        assert forall|p: int, q: int| 0 <= p < q < hist.len() implies hist[p] != hist[q] by {
                            if p >= old_hist.len() {
                                assert(hist[p] == seg[p - old_hist.len()]);
                                assert(hist[q] == seg[q - old_hist.len()]);
                            } else if q >= old_hist.len() {
                                assert(hist[q] == seg[q - old_hist.len()]);
                                assert(hist[q] == stack@[s1.len() + q - old_hist.len()]);
                                assert(!m1[hist[q] as int]);
                                assert(old_hist.contains(hist[p]));
                            }
                        }
                    }
                    assert forall|p: int| 0 <= p < hist.len() implies #[trigger] hist[p] < n by {
                        if p >= old_hist.len() {
                            assert(hist[p] == stack@[s1.len() + p - old_hist.len()]);
                        }
                    }
                    assert forall|x: int| 0 <= x < n implies (#[trigger] marked@[x] <==> hist.contains(x as usize)) by {
                        if seg.contains(x as usize) {
                            let p = choose|p: int| 0 <= p < seg.len() && seg[p] == x as usize;
                            assert(hist[old_hist.len() + p] == x as usize);
                        }
                        if old_hist.contains(x as usize) {
                            let p = choose|p: int| 0 <= p < old_hist.len() && old_hist[p] == x as usize;
                            assert(hist[p] == x as usize);
                        }
                        if hist.contains(x as usize) {
                            let p = choose|p: int| 0 <= p < hist.len() && hist[p] == x as usize;
                            if p >= old_hist.len() {
                                assert(seg[p - old_hist.len()] == x as usize);
                            } else {
                                assert(old_hist[p] == x as usize);
                            }
                        }
                    }
                    assert(ireach(a, s, cur));
                    assert forall|x: usize| x < n && #[trigger] marked@[x as int] implies ireach(a, s, x) by {
                        if !m1[x as int] {
                            let p = choose|p: int| 0 <= p < seg.len() && seg[p] == x;
                            assert(stack@[s1.len() + p] == x);
                            assert(a[cur as int].contains(x));
                            let w = choose|w: Seq<usize>| #[trigger] is_index_walk(a, w) && w.len() >= 2 && w[0] == s && w.last() == cur;
                            let w2 = w.push(x);
                            assert forall|j: int| 0 <= j < w2.len() - 1 implies iedge(a, #[trigger] w2[j] as int, w2[j + 1] as int) by {
                                if j < w.len() - 1 {
                                    assert(w2[j] == w[j]);
                                    assert(w2[j + 1] == w[j + 1]);
                                }
                            }
                            assert(is_index_walk(a, w2));
                        }
                    }
                    assert forall|j: int| 0 <= j < a[s as int].len() implies marked@[#[trigger] a[s as int][j] as int] by {
                        assert(m1[a[s as int][j] as int]);
                    }
                    lemma_distinct_bounded(hist, n);
                    if seg.len() == 0 {
                        assert(hist =~= old_hist);
                        assert(stack@ =~= s1);
                    }
                    assert forall|x: int, j: int|
                        0 <= x < n && marked@[x] && !stack@.contains(x as usize) && 0 <= j < a[x].len() implies marked@[#[trigger] a[x][j] as int] by {
                        if x != cur as int {
                            if !m1[x] {
                                let p = choose|p: int| 0 <= p < seg.len() && seg[p] == x as usize;
                                assert(stack@[s1.len() + p] == x as usize);
                            } else {
                                assert(!s1.contains(x as usize)) by {
                                    if s1.contains(x as usize) {
                                        let p = choose|p: int| 0 <= p < s1.len() && s1[p] == x as usize;
                                        assert(stack@[p] == x as usize);
                                    }
                                }
                                assert(s0 =~= s1.push(cur));
                                assert(!s0.contains(x as usize)) by {
                                    if s0.contains(x as usize) {
                                        let p = choose|p: int| 0 <= p < s0.len() && s0[p] == x as usize;
                                        if p < s1.len() {
                                            assert(s1[p] == x as usize);
                                        }
                                    }
                                }
                                assert(m1[a[x][j] as int]);
                            }
                        }
                    }
                }
            }
        }
    }
    proof {
        assert forall|x: int, j: int| 0 <= x < n && marked@[x] && 0 <= j < a[x].len() implies marked@[#[trigger] a[x][j] as int] by {
            assert(stack.len() == 0);
        }
        assert forall|x: usize| x < n implies (#[trigger] marked@[x as int] <==> ireach(a, s, x)) by {
            if ireach(a, s, x) {
                let w = choose|w: Seq<usize>| #[trigger] is_index_walk(a, w) && w.len() >= 2 && w[0] == s && w.last() == x;
                lemma_closed_holds_reach(a, marked@, s, w, w.len() - 1);
            }
        }
    }
    marked
}

} // verus!
