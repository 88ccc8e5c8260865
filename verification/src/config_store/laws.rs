//! What holds of the configuration tree across its operations.

use vstd::prelude::*;

use super::tree::{
    deep_merge, first_after, get_path, index_in, key_index, lemma_index_in_found, member, merge_members, put,
    remove_path, set_path, Tree,
};

verus! {

/// Whether setting a value at path `parts` below `t` goes through objects
/// only: every value met on the way, before the last name, is an object
/// or missing.
pub open spec fn through_objects(t: Tree, parts: Seq<Seq<char>>) -> bool
    decreases parts.len(),
{
    if parts.len() == 0 {
        true
    } else {
        match t {
            Tree::Leaf(_) => false,
            Tree::Obj(m) => if parts.len() == 1 {
                true
            } else {
                match member(m, parts[0]) {
                    None => true,
                    Some(c) => through_objects(c, parts.drop_first()),
                }
            },
        }
    }
}

/// Looking at more members keeps a member found.
proof fn lemma_index_in_grows(m: Seq<(Seq<char>, Tree)>, k: Seq<char>, n: nat, j: nat)
    requires
        n <= j <= m.len(),
        index_in(m, k, n) is Some,
    ensures
        index_in(m, k, j) == index_in(m, k, n),
    decreases j - n,
{
    if n < j {
        lemma_index_in_grows(m, k, n, (j - 1) as nat);
    }
}

/// Replacing the value of the first member named `k` keeps it the first.
proof fn lemma_index_in_update(m: Seq<(Seq<char>, Tree)>, k: Seq<char>, i: int, x: Tree, n: nat)
    requires
        key_index(m, k) == Some(i),
        n <= m.len(),
    ensures
        index_in(m.update(i, (k, x)), k, n) == index_in(m, k, n),
    decreases n,
{
    lemma_index_in_found(m, k, m.len());
    if n > 0 {
        lemma_index_in_update(m, k, i, x, (n - 1) as nat);
    }
}

/// A name that is no member is not found in any prefix.
proof fn lemma_index_in_absent(m: Seq<(Seq<char>, Tree)>, k: Seq<char>, n: nat)
    requires
        key_index(m, k) is None,
        n <= m.len(),
    ensures
        index_in(m, k, n) is None,
{
    if index_in(m, k, n) is Some {
        lemma_index_in_grows(m, k, n, m.len());
    }
}

/// A member inserted where no member had its name is found there.
proof fn lemma_index_in_insert(m: Seq<(Seq<char>, Tree)>, k: Seq<char>, p: int, x: Tree, n: nat)
    requires
        key_index(m, k) is None,
        0 <= p <= m.len(),
        n <= p,
    ensures
        index_in(m.insert(p, (k, x)), k, n) is None,
    decreases n,
{
    lemma_index_in_absent(m, k, n);
    if n > 0 {
        lemma_index_in_insert(m, k, p, x, (n - 1) as nat);
        assert(m.insert(p, (k, x))[n - 1] == m[n - 1]);
    }
}

/// The first position after a name lies among the members looked at.
proof fn lemma_first_after_range(m: Seq<(Seq<char>, Tree)>, k: Seq<char>, n: nat)
    requires
        n <= m.len(),
    ensures
        0 <= first_after(m, k, n) <= n,
    decreases n,
{
    if n > 0 {
        lemma_first_after_range(m, k, (n - 1) as nat);
    }
}

/// After `k` is set to `x`, member `k` is `x`.
pub proof fn lemma_put_member(m: Seq<(Seq<char>, Tree)>, k: Seq<char>, x: Tree)
    ensures
        member(put(m, k, x), k) == Some(x),
{
    match key_index(m, k) {
        Some(i) => {
            lemma_index_in_found(m, k, m.len());
            lemma_index_in_update(m, k, i, x, m.len());
        },
        None => {
            let p = first_after(m, k, m.len());
            lemma_first_after_range(m, k, m.len());
            let m2 = m.insert(p, (k, x));
            lemma_index_in_insert(m, k, p, x, p as nat);
            assert(m2[p] == (k, x));
            assert(index_in(m2, k, (p + 1) as nat) == Some(p));
            lemma_index_in_grows(m2, k, (p + 1) as nat, m2.len());
        },
    }
}

/// A read gives back what a write wrote: after the value at a non-empty
/// path is set through objects only, the value at that path is the one
/// written.
pub proof fn lemma_get_after_set(t: Tree, parts: Seq<Seq<char>>, v: Tree)
    requires
        parts.len() > 0,
        through_objects(t, parts),
    ensures
        get_path(set_path(t, parts, v), parts) == Some(v),
    decreases parts.len(),
{
    match t {
        Tree::Leaf(_) => {
            assert(!through_objects(t, parts));
        },
        Tree::Obj(m) => {
            if parts.len() == 1 {
                lemma_put_member(m, parts[0], v);
                assert(parts.drop_first().len() == 0);
                assert(set_path(t, parts, v) == Tree::Obj(put(m, parts[0], v)));
                assert(get_path(v, parts.drop_first()) == Some(v));
            } else {
                let child = match member(m, parts[0]) {
                    Some(c) => c,
                    None => Tree::Obj(Seq::empty()),
                };
                let rest = parts.drop_first();
                if member(m, parts[0]) is None {
                    assert(through_objects(Tree::Obj(Seq::empty()), rest)) by {
                        assert(key_index(Seq::<(Seq<char>, Tree)>::empty(), rest[0]) is None);
                    }
                }
                lemma_get_after_set(child, rest, v);
                lemma_put_member(m, parts[0], set_path(child, rest, v));
                assert(set_path(t, parts, v) == Tree::Obj(put(m, parts[0], set_path(child, rest, v))));
            }
        },
    }
}

/// Merging an empty object into an object changes nothing.
pub proof fn lemma_merge_empty(t: Tree)
    requires
        t is Obj,
    ensures
        deep_merge(t, Tree::Obj(Seq::empty())) == t,
{
    match t {
        Tree::Obj(tm) => {
            assert(merge_members(tm, Seq::<(Seq<char>, Tree)>::empty(), 0) == tm);
        },
        Tree::Leaf(_) => {},
    }
}

/// Merging a value that is not an object replaces the target.
pub proof fn lemma_merge_leaf(t: Tree, s: Tree)
    requires
        s is Leaf,
    ensures
        deep_merge(t, s) == s,
{
}

/// No two members share a name.
pub open spec fn distinct_names(m: Seq<(Seq<char>, Tree)>) -> bool {
    forall|i: int, j: int| 0 <= i < j < m.len() ==> m[i].0 != m[j].0
}

/// Whether every object met along path `parts` below `t` has members with
/// distinct names, as objects read from JSON do.
pub open spec fn distinct_along(t: Tree, parts: Seq<Seq<char>>) -> bool
    decreases parts.len(),
{
    if parts.len() == 0 {
        true
    } else {
        match t {
            Tree::Leaf(_) => true,
            Tree::Obj(m) => distinct_names(m) && match member(m, parts[0]) {
                None => true,
                Some(c) => distinct_along(c, parts.drop_first()),
            },
        }
    }
}

/// A name no member of the first `n` has is not found among them.
proof fn lemma_index_in_none(m: Seq<(Seq<char>, Tree)>, k: Seq<char>, n: nat)
    requires
        n <= m.len(),
        forall|j: int| 0 <= j < n ==> m[j].0 != k,
    ensures
        index_in(m, k, n) is None,
    decreases n,
{
    if n > 0 {
        lemma_index_in_none(m, k, (n - 1) as nat);
    }
}

/// Replacing a member's value under the same name moves no name.
proof fn lemma_index_in_same_names(m: Seq<(Seq<char>, Tree)>, k: Seq<char>, i: int, x: Tree, n: nat)
    requires
        0 <= i < m.len(),
        n <= m.len(),
    ensures
        index_in(m.update(i, (m[i].0, x)), k, n) == index_in(m, k, n),
    decreases n,
{
    if n > 0 {
        lemma_index_in_same_names(m, k, i, x, (n - 1) as nat);
    }
}

/// A removed value is gone: after the member at a non-empty path is
/// removed, nothing is found at that path.
pub proof fn lemma_get_after_remove(t: Tree, parts: Seq<Seq<char>>)
    requires
        parts.len() > 0,
        distinct_along(t, parts),
    ensures
        get_path(remove_path(t, parts), parts) is None,
    decreases parts.len(),
{
    match t {
        Tree::Leaf(_) => {},
        Tree::Obj(m) => {
            lemma_index_in_found(m, parts[0], m.len());
            match key_index(m, parts[0]) {
                None => {},
                Some(i) => {
                    if parts.len() == 1 {
                        let r = m.remove(i);
                        assert forall|j: int| 0 <= j < r.len() implies r[j].0 != parts[0] by {
                            if j < i {
                                assert(r[j] == m[j]);
                            } else {
                                assert(r[j] == m[j + 1]);
                            }
                        }
                        lemma_index_in_none(r, parts[0], r.len());
                    } else {
                        let rest = parts.drop_first();
                        lemma_get_after_remove(m[i].1, rest);
                        lemma_index_in_same_names(m, parts[0], i, remove_path(m[i].1, rest), m.len());
                    }
                },
            }
        },
    }
}

} // verus!
