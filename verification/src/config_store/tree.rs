//! The configuration tree: objects of named members down to JSON leaves.

use vstd::prelude::*;

use crate::utils::json::{json_eq_of, json_equals, json_is_null, json_null_of};
use crate::utils::text::{chars_of, str_eq};

verus! {

broadcast use vstd::std_specs::vec::group_vec_axioms;

/// A configuration value: an object of named members, or any other JSON
/// value as a leaf.
#[derive(Debug)]
pub enum ConfigNode {
    /// A JSON value that is not an object.
    Leaf(serde_json::Value),
    /// An object: its members, each a name and a value.
    Object(Vec<(String, ConfigNode)>),
}

/// A configuration value as mathematics sees it.
pub ghost enum Tree {
    /// A JSON value that is not an object.
    Leaf(serde_json::Value),
    /// An object: its members, each a name and a value.
    Obj(Seq<(Seq<char>, Tree)>),
}

/// The tree of a node.
pub open spec fn tree_of(n: ConfigNode) -> Tree
    decreases n, 0nat,
{
    match n {
        ConfigNode::Leaf(v) => Tree::Leaf(v),
        ConfigNode::Object(m) => {
            proof {
                assert(decreases_to!(m => m@));
            }
            Tree::Obj(members_of(m@, m@.len()))
        },
    }
}

/// The trees of the first `k` members of `s`.
pub open spec fn members_of(s: Seq<(String, ConfigNode)>, k: nat) -> Seq<(Seq<char>, Tree)>
    decreases s, k,
{
    if k == 0 || k > s.len() {
        Seq::empty()
    } else {
        proof {
            assert(decreases_to!(s => s[k - 1]));
        }
        members_of(s, (k - 1) as nat).push((s[k - 1].0@, tree_of(s[k - 1].1)))
    }
}

/// A member as mathematics sees it.
pub open spec fn member_view(e: (String, ConfigNode)) -> (Seq<char>, Tree) {
    (e.0@, tree_of(e.1))
}

/// The members of an object node, as trees.
pub open spec fn members(m: Seq<(String, ConfigNode)>) -> Seq<(Seq<char>, Tree)> {
    m.map_values(|e: (String, ConfigNode)| member_view(e))
}

/// The trees of the members of `s` are those of [`members`].
pub proof fn lemma_members_of(s: Seq<(String, ConfigNode)>, k: nat)
    requires
        k <= s.len(),
    ensures
        members_of(s, k) == members(s.take(k as int)),
    decreases k,
{
    if k > 0 {
        lemma_members_of(s, (k - 1) as nat);
        assert(members(s.take(k as int)) =~= members(s.take(k - 1)).push(member_view(s[k - 1])));
    } else {
        assert(members(s.take(0)) =~= Seq::<(Seq<char>, Tree)>::empty());
    }
}

/// The tree of an object node is made of its members.
pub proof fn lemma_object_tree(m: Vec<(String, ConfigNode)>)
    ensures
        tree_of(ConfigNode::Object(m)) == Tree::Obj(members(m@)),
{
    lemma_members_of(m@, m@.len());
    assert(m@.take(m@.len() as int) =~= m@);
}

/// Whether `a` comes before `b` in the order of Rust's `String`: by
/// character codes, a proper prefix first.
pub open spec fn key_lt(a: Seq<char>, b: Seq<char>) -> bool
    decreases a.len(),
{
    if a.len() == 0 {
        b.len() > 0
    } else if b.len() == 0 {
        false
    } else if a[0] != b[0] {
        (a[0] as u32) < (b[0] as u32)
    } else {
        key_lt(a.drop_first(), b.drop_first())
    }
}

/// The position of the first of the first `n` members named `k`.
pub open spec fn index_in(m: Seq<(Seq<char>, Tree)>, k: Seq<char>, n: nat) -> Option<int>
    decreases n,
{
    if n == 0 || n > m.len() {
        None
    } else {
        match index_in(m, k, (n - 1) as nat) {
            Some(i) => Some(i),
            None => if m[n - 1].0 == k {
                Some(n - 1)
            } else {
                None
            },
        }
    }
}

/// The position of the first member named `k`.
pub open spec fn key_index(m: Seq<(Seq<char>, Tree)>, k: Seq<char>) -> Option<int> {
    index_in(m, k, m.len())
}

/// The value of member `k`.
pub open spec fn member(m: Seq<(Seq<char>, Tree)>, k: Seq<char>) -> Option<Tree> {
    match key_index(m, k) {
        Some(i) => Some(m[i].1),
        None => None,
    }
}

/// The position of the first of the first `n` members whose name comes
/// after `k`, or `n`.
pub open spec fn first_after(m: Seq<(Seq<char>, Tree)>, k: Seq<char>, n: nat) -> int
    decreases n,
{
    if n == 0 || n > m.len() {
        n as int
    } else {
        let p = first_after(m, k, (n - 1) as nat);
        if p < n - 1 {
            p
        } else if key_lt(k, m[n - 1].0) {
            n - 1
        } else {
            n as int
        }
    }
}

/// The members with `k` set to `v`: its value replaced where `k` is a
/// member, else a new member placed before the first name after `k`.
pub open spec fn put(m: Seq<(Seq<char>, Tree)>, k: Seq<char>, v: Tree) -> Seq<(Seq<char>, Tree)> {
    match key_index(m, k) {
        Some(i) => m.update(i, (k, v)),
        None => m.insert(first_after(m, k, m.len()), (k, v)),
    }
}

/// The value at path `parts` below `t`.
pub open spec fn get_path(t: Tree, parts: Seq<Seq<char>>) -> Option<Tree>
    decreases parts.len(),
{
    if parts.len() == 0 {
        Some(t)
    } else {
        match t {
            Tree::Leaf(_) => None,
            Tree::Obj(m) => match member(m, parts[0]) {
                Some(c) => get_path(c, parts.drop_first()),
                None => None,
            },
        }
    }
}

/// `t` with the value at path `parts` set to `v`, the objects on the way
/// made where missing; a path through a non-object changes nothing.
pub open spec fn set_path(t: Tree, parts: Seq<Seq<char>>, v: Tree) -> Tree
    decreases parts.len(),
{
    if parts.len() == 0 {
        t
    } else {
        match t {
            Tree::Leaf(_) => t,
            Tree::Obj(m) => if parts.len() == 1 {
                Tree::Obj(put(m, parts[0], v))
            } else {
                let child = match member(m, parts[0]) {
                    Some(c) => c,
                    None => Tree::Obj(Seq::empty()),
                };
                Tree::Obj(put(m, parts[0], set_path(child, parts.drop_first(), v)))
            },
        }
    }
}

/// `t` without the member at path `parts`; a path that does not lead to
/// an object holding that member changes nothing.
pub open spec fn remove_path(t: Tree, parts: Seq<Seq<char>>) -> Tree
    decreases parts.len(),
{
    if parts.len() == 0 {
        t
    } else {
        match t {
            Tree::Leaf(_) => t,
            Tree::Obj(m) => match key_index(m, parts[0]) {
                None => t,
                Some(i) => if parts.len() == 1 {
                    Tree::Obj(m.remove(i))
                } else {
                    Tree::Obj(m.update(i, (m[i].0, remove_path(m[i].1, parts.drop_first()))))
                },
            },
        }
    }
}

/// `source` merged into `target`: two objects merge member by member,
/// recursively; anything else is replaced by `source`.
pub open spec fn deep_merge(target: Tree, source: Tree) -> Tree
    decreases source, 0nat,
{
    match source {
        Tree::Obj(sm) => match target {
            Tree::Obj(tm) => Tree::Obj(merge_members(tm, sm, sm.len())),
            Tree::Leaf(_) => source,
        },
        Tree::Leaf(_) => source,
    }
}

/// The members `tm` with the first `n` members of `sm` merged in, in
/// order.
pub open spec fn merge_members(tm: Seq<(Seq<char>, Tree)>, sm: Seq<(Seq<char>, Tree)>, n: nat) -> Seq<(Seq<char>, Tree)>
    decreases sm, n,
{
    if n == 0 || n > sm.len() {
        tm
    } else {
        let acc = merge_members(tm, sm, (n - 1) as nat);
        let (k, v) = sm[n - 1];
        proof {
            assert(decreases_to!(sm => sm[n - 1]));
        }
        match key_index(acc, k) {
            Some(i) => acc.update(i, (k, deep_merge(acc[i].1, v))),
            None => put(acc, k, v),
        }
    }
}

/// `key_lt` on the remainders after a common first character.
proof fn lemma_key_lt_step(a: Seq<char>, b: Seq<char>, i: int)
    requires
        0 <= i,
        i < a.len(),
        i < b.len(),
        a[i] == b[i],
    ensures
        key_lt(a.skip(i), b.skip(i)) == key_lt(a.skip(i + 1), b.skip(i + 1)),
{
    assert(a.skip(i).drop_first() =~= a.skip(i + 1));
    assert(b.skip(i).drop_first() =~= b.skip(i + 1));
}

/// Whether `a` comes before `b` as Rust orders strings.
pub fn str_lt(a: &str, b: &str) -> (r: bool)
    ensures
        r == key_lt(a@, b@),
{
    let x = chars_of(a);
    let y = chars_of(b);
    let mut i: usize = 0;
    proof {
        assert(x@.skip(0) =~= x@);
        assert(y@.skip(0) =~= y@);
    }
    while i < x.len() && i < y.len()
        invariant
            x@ == a@,
            y@ == b@,
            i <= x.len(),
            i <= y.len(),
            key_lt(a@, b@) == key_lt(x@.skip(i as int), y@.skip(i as int)),
        decreases x.len() - i,
    {
        if x[i] != y[i] {
            proof {
                assert(x@.skip(i as int)[0] == x@[i as int]);
                assert(y@.skip(i as int)[0] == y@[i as int]);
            }
            return (x[i] as u32) < (y[i] as u32);
        }
        proof {
            lemma_key_lt_step(x@, y@, i as int);
        }
        i = i + 1;
    }
    i < y.len()
}

/// Position of the member named `k` in `m`, if any.
pub fn find_key(m: &Vec<(String, ConfigNode)>, k: &str) -> (r: Option<usize>)
    ensures
        match r {
            Some(i) => key_index(members(m@), k@) == Some(i as int) && i < m.len(),
            None => key_index(members(m@), k@) is None,
        },
{
    let ghost ms = members(m@);
    let mut i: usize = 0;
    while i < m.len()
        invariant
            ms == members(m@),
            i <= m.len(),
            index_in(ms, k@, i as nat) is None,
        decreases m.len() - i,
    {
        proof {
            assert(ms[i as int] == member_view(m@[i as int]));
        }
        if str_eq(m[i].0.as_str(), k) {
            proof {
                lemma_index_in_stays(ms, k@, (i + 1) as nat, i as int);
            }
            return Some(i);
        }
        i = i + 1;
    }
    None
}

/// Where a new member named `k` goes in `m`: before the first member whose
/// name comes after `k`.
pub fn insert_position(m: &Vec<(String, ConfigNode)>, k: &str) -> (r: usize)
    ensures
        r as int == first_after(members(m@), k@, m@.len()),
        r <= m.len(),
{
    let ghost ms = members(m@);
    let mut i: usize = 0;
    while i < m.len()
        invariant
            ms == members(m@),
            i <= m.len(),
            first_after(ms, k@, i as nat) == i as int,
        decreases m.len() - i,
    {
        proof {
            assert(ms[i as int] == member_view(m@[i as int]));
        }
        if str_lt(k, m[i].0.as_str()) {
            proof {
                lemma_first_after_stays(ms, k@, (i + 1) as nat, i as int);
            }
            return i;
        }
        i = i + 1;
    }
    i
}

/// The member found is named `k`.
pub proof fn lemma_index_in_found(m: Seq<(Seq<char>, Tree)>, k: Seq<char>, n: nat)
    ensures
        index_in(m, k, n) matches Some(i) ==> 0 <= i < n && n <= m.len() && m[i].0 == k,
    decreases n,
{
    if n > 0 && n <= m.len() {
        lemma_index_in_found(m, k, (n - 1) as nat);
    }
}

/// Once found, the first member named `k` stays the first as more members
/// are looked at.
proof fn lemma_index_in_stays(m: Seq<(Seq<char>, Tree)>, k: Seq<char>, n: nat, p: int)
    requires
        n <= m.len(),
        index_in(m, k, n) == Some(p),
    ensures
        key_index(m, k) == Some(p),
    decreases m.len() - n,
{
    if n < m.len() {
        lemma_index_in_stays(m, k, n + 1, p);
    }
}

/// Once found, the first position after `k` stays as more members are
/// looked at.
proof fn lemma_first_after_stays(m: Seq<(Seq<char>, Tree)>, k: Seq<char>, n: nat, p: int)
    requires
        n <= m.len(),
        0 <= p < n,
        first_after(m, k, n) == p,
    ensures
        first_after(m, k, m.len()) == p,
    decreases m.len() - n,
{
    if n < m.len() {
        lemma_first_after_stays(m, k, n + 1, p);
    }
}

/// Members after one is replaced in place.
proof fn lemma_members_replace(s: Seq<(String, ConfigNode)>, j: int, x: (String, ConfigNode))
    requires
        0 <= j < s.len(),
    ensures
        members(s.remove(j).insert(j, x)) == members(s).update(j, member_view(x)),
{
    assert(members(s.remove(j).insert(j, x)) =~= members(s).update(j, member_view(x)));
}

/// Members after one is inserted.
proof fn lemma_members_insert(s: Seq<(String, ConfigNode)>, p: int, x: (String, ConfigNode))
    requires
        0 <= p <= s.len(),
    ensures
        members(s.insert(p, x)) == members(s).insert(p, member_view(x)),
{
    assert(members(s.insert(p, x)) =~= members(s).insert(p, member_view(x)));
}

/// Members after one is removed.
proof fn lemma_members_remove(s: Seq<(String, ConfigNode)>, j: int)
    requires
        0 <= j < s.len(),
    ensures
        members(s.remove(j)) == members(s).remove(j),
{
    assert(members(s.remove(j)) =~= members(s).remove(j));
}

/// The path `parts` from position `i` on.
pub open spec fn path_from(parts: Seq<String>, i: int) -> Seq<Seq<char>> {
    parts.skip(i).map_values(|p: String| p@)
}

/// The rest of a path after its first name.
proof fn lemma_path_step(parts: Seq<String>, i: int)
    requires
        0 <= i < parts.len(),
    ensures
        path_from(parts, i).len() > 0,
        path_from(parts, i)[0] == parts[i]@,
        path_from(parts, i).drop_first() == path_from(parts, i + 1),
        path_from(parts, i).len() == 1 <==> i + 1 == parts.len(),
{
    assert(path_from(parts, i).drop_first() =~= path_from(parts, i + 1));
}

/// The node at path `parts` (from position `i`) below `node`.
pub fn get_in<'a>(node: &'a ConfigNode, parts: &Vec<String>, i: usize) -> (r: Option<&'a ConfigNode>)
    requires
        i <= parts.len(),
    ensures
        match r {
            Some(x) => get_path(tree_of(*node), path_from(parts@, i as int)) == Some(tree_of(*x)),
            None => get_path(tree_of(*node), path_from(parts@, i as int)) is None,
        },
    decreases parts.len() - i,
{
    if i == parts.len() {
        proof {
            assert(path_from(parts@, i as int) =~= Seq::<Seq<char>>::empty());
        }
        return Some(node);
    }
    proof {
        lemma_path_step(parts@, i as int);
    }
    match node {
        ConfigNode::Leaf(_) => None,
        ConfigNode::Object(m) => {
            proof {
                lemma_object_tree(*m);
            }
            match find_key(m, parts[i].as_str()) {
                Some(j) => {
                    proof {
                        assert(members(m@)[j as int] == member_view(m@[j as int]));
                    }
                    get_in(&m[j].1, parts, i + 1)
                },
                None => None,
            }
        },
    }
}

/// `node` with the value at path `parts` (from position `i`) set to `v`.
pub fn set_in(node: ConfigNode, parts: &Vec<String>, i: usize, v: ConfigNode) -> (r: ConfigNode)
    requires
        i <= parts.len(),
    ensures
        tree_of(r) == set_path(tree_of(node), path_from(parts@, i as int), tree_of(v)),
    decreases parts.len() - i,
{
    if i == parts.len() {
        proof {
            assert(path_from(parts@, i as int) =~= Seq::<Seq<char>>::empty());
        }
        return node;
    }
    proof {
        lemma_path_step(parts@, i as int);
    }
    let ghost n0 = node;
    match node {
        ConfigNode::Leaf(x) => {
            proof {
                assert(tree_of(n0) == Tree::Leaf(x));
                assert(set_path(Tree::Leaf(x), path_from(parts@, i as int), tree_of(v)) == Tree::Leaf(x));
            }
            let r = ConfigNode::Leaf(x);
            proof {
                assert(tree_of(r) == Tree::Leaf(x));
            }
            r
        },
        ConfigNode::Object(m) => {
            let mut m = m;
            let ghost m0 = m@;
            proof {
                lemma_object_tree(m);
            }
            let key = parts[i].as_str();
            let found = find_key(&m, key);
            if i + 1 == parts.len() {
                match found {
                    Some(j) => {
                        let (kk, old_value) = m.remove(j);
                        let ghost x = (kk, v);
                        proof {
                            assert(members(m0)[j as int] == member_view(m0[j as int]));
                            lemma_index_in_found(members(m0), key@, m0.len());
                            assert(kk@ == key@);
                        }
                        m.insert(j, (kk, v));
                        proof {
                            lemma_members_replace(m0, j as int, x);
                        }
                    },
                    None => {
                        let p = insert_position(&m, key);
                        let kk = parts[i].clone();
                        m.insert(p, (kk, v));
                        proof {
                            lemma_members_insert(m0, p as int, (kk, v));
                        }
                    },
                }
            } else {
                match found {
                    Some(j) => {
                        let (kk, child) = m.remove(j);
                        proof {
                            assert(members(m0)[j as int] == member_view(m0[j as int]));
                            lemma_index_in_found(members(m0), key@, m0.len());
                            assert(kk@ == key@);
                        }
                        let nc = set_in(child, parts, i + 1, v);
                        m.insert(j, (kk, nc));
                        proof {
                            lemma_members_replace(m0, j as int, (kk, nc));
                        }
                    },
                    None => {
                        let empty: Vec<(String, ConfigNode)> = Vec::new();
                        proof {
                            lemma_object_tree(empty);
                            assert(members(empty@) =~= Seq::<(Seq<char>, Tree)>::empty());
                        }
                        let nc = set_in(ConfigNode::Object(empty), parts, i + 1, v);
                        let p = insert_position(&m, key);
                        let kk = parts[i].clone();
                        m.insert(p, (kk, nc));
                        proof {
                            lemma_members_insert(m0, p as int, (kk, nc));
                        }
                    },
                }
            }
            proof {
                lemma_object_tree(m);
            }
            ConfigNode::Object(m)
        },
    }
}

/// `node` without the member at path `parts` (from position `i`).
pub fn remove_in(node: ConfigNode, parts: &Vec<String>, i: usize) -> (r: ConfigNode)
    requires
        i <= parts.len(),
    ensures
        tree_of(r) == remove_path(tree_of(node), path_from(parts@, i as int)),
    decreases parts.len() - i,
{
    if i == parts.len() {
        proof {
            assert(path_from(parts@, i as int) =~= Seq::<Seq<char>>::empty());
        }
        return node;
    }
    proof {
        lemma_path_step(parts@, i as int);
    }
    match node {
        ConfigNode::Leaf(x) => ConfigNode::Leaf(x),
        ConfigNode::Object(m) => {
            let mut m = m;
            let ghost m0 = m@;
            proof {
                lemma_object_tree(m);
            }
            match find_key(&m, parts[i].as_str()) {
                None => {},
                Some(j) => {
                    proof {
                        assert(members(m0)[j as int] == member_view(m0[j as int]));
                    }
                    if i + 1 == parts.len() {
                        let _gone = m.remove(j);
                        proof {
                            lemma_members_remove(m0, j as int);
                        }
                    } else {
                        let (kk, child) = m.remove(j);
                        let nc = remove_in(child, parts, i + 1);
                        m.insert(j, (kk, nc));
                        proof {
                            lemma_members_replace(m0, j as int, (kk, nc));
                        }
                    }
                },
            }
            proof {
                lemma_object_tree(m);
            }
            ConfigNode::Object(m)
        },
    }
}

/// `source` merged into `target` (see [`deep_merge`]).
#[verifier::loop_isolation(false)]
pub fn merge_nodes(target: ConfigNode, source: ConfigNode) -> (r: ConfigNode)
    ensures
        tree_of(r) == deep_merge(tree_of(target), tree_of(source)),
    decreases source,
{
    let ghost s0 = source;
    let ghost t0 = target;
    match source {
        ConfigNode::Leaf(x) => {
            let r = ConfigNode::Leaf(x);
            proof {
                assert(tree_of(r) == Tree::Leaf(x));
            }
            r
        },
        ConfigNode::Object(sm) => {
            proof {
                lemma_object_tree(sm);
            }
            match target {
                ConfigNode::Leaf(_) => ConfigNode::Object(sm),
                ConfigNode::Object(tm) => {
                    proof {
                        lemma_object_tree(tm);
                    }
                    let ghost orig = sm@;
                    let ghost sms = members(orig);
                    let ghost tms = members(tm@);
                    let mut acc = tm;
                    let mut rest = sm;
                    let n = rest.len();
                    let mut i: usize = 0;
                    proof {
                        assert(rest@ =~= orig.skip(0));
                    }
                    while i < n
                        invariant
                            s0 == ConfigNode::Object(sm),
                            orig == sm@,
                            sms == members(orig),
                            n == orig.len(),
                            i <= n,
                            rest@ == orig.skip(i as int),
                            members(acc@) == merge_members(tms, sms, i as nat),
                        decreases n - i,
                    {
                        proof {
                            assert(rest@[0] == orig[i as int]);
                        }
                        let (k, v) = rest.remove(0);
                        proof {
                            assert(rest@ =~= orig.skip(i + 1));
                            assert(sms[i as int] == member_view(orig[i as int]));
                            assert(decreases_to!(s0 => s0->Object_0));
                            assert(s0->Object_0 == sm);
                            assert(decreases_to!(sm => sm@));
                            assert(decreases_to!(sm@ => sm@[i as int]));
                            assert(decreases_to!(sm@[i as int] => sm@[i as int].1));
                            assert(v == sm@[i as int].1);
                            assert(decreases_to!(s0 => v));
                        }
                        let ghost a0 = acc@;
                        match find_key(&acc, k.as_str()) {
                            Some(j) => {
                                let (ak, av) = acc.remove(j);
                                proof {
                                    assert(members(a0)[j as int] == member_view(a0[j as int]));
                                    lemma_index_in_found(members(a0), k@, a0.len());
                                }
                                let mv = merge_nodes(av, v);
                                acc.insert(j, (ak, mv));
                                proof {
                                    lemma_members_replace(a0, j as int, (ak, mv));
                                }
                            },
                            None => {
                                let p = insert_position(&acc, k.as_str());
                                acc.insert(p, (k, v));
                                proof {
                                    lemma_members_insert(a0, p as int, (k, v));
                                }
                            },
                        }
                        i = i + 1;
                    }
                    proof {
                        lemma_object_tree(acc);
                    }
                    ConfigNode::Object(acc)
                },
            }
        },
    }
}

/// A copy of `n`.
pub fn clone_node(n: &ConfigNode) -> (r: ConfigNode)
    ensures
        tree_of(r) == tree_of(*n),
    decreases n,
{
    match n {
        ConfigNode::Leaf(v) => {
            let r = ConfigNode::Leaf(v.clone());
            proof {
                assert(tree_of(r) == Tree::Leaf(*v));
            }
            r
        },
        ConfigNode::Object(m) => {
            proof {
                lemma_object_tree(*m);
            }
            let mut out: Vec<(String, ConfigNode)> = Vec::new();
            let mut i: usize = 0;
            while i < m.len()
                invariant
                    i <= m.len(),
                    *n == ConfigNode::Object(*m),
                    members(out@) == members(m@.take(i as int)),
                decreases m.len() - i,
            {
                proof {
                    assert(decreases_to!(*n => (*n)->Object_0));
                    assert((*n)->Object_0 == *m);
                    assert(decreases_to!(m => m@));
                    assert(decreases_to!(m@ => m@[i as int]));
                    assert(decreases_to!(m@[i as int] => m@[i as int].1));
                }
                let c = clone_node(&m[i].1);
                let k = m[i].0.clone();
                let ghost o0 = out@;
                out.push((k, c));
                proof {
                    assert(members(out@) =~= members(o0).push(member_view((k, c))));
                    assert(members(m@.take(i + 1)) =~= members(m@.take(i as int)).push(member_view(m@[i as int])));
                }
                i = i + 1;
            }
            proof {
                assert(m@.take(i as int) =~= m@);
                lemma_object_tree(out);
            }
            ConfigNode::Object(out)
        },
    }
}

/// Whether two trees are equal as JSON values: leaves by the crate's
/// equality, objects member by member in order.
pub open spec fn tree_eq(a: Tree, b: Tree) -> bool
    decreases a, 0nat,
{
    match a {
        Tree::Leaf(x) => match b {
            Tree::Leaf(y) => json_eq_of(x, y),
            Tree::Obj(_) => false,
        },
        Tree::Obj(ma) => match b {
            Tree::Leaf(_) => false,
            Tree::Obj(mb) => ma.len() == mb.len() && members_eq(ma, mb, ma.len()),
        },
    }
}

/// Whether the first `n` members of `ma` and `mb` have equal names and
/// equal values.
pub open spec fn members_eq(ma: Seq<(Seq<char>, Tree)>, mb: Seq<(Seq<char>, Tree)>, n: nat) -> bool
    decreases ma, n,
{
    if n == 0 {
        true
    } else if n > ma.len() || n > mb.len() {
        false
    } else {
        proof {
            assert(decreases_to!(ma => ma[n - 1]));
        }
        members_eq(ma, mb, (n - 1) as nat) && ma[n - 1].0 == mb[n - 1].0 && tree_eq(ma[n - 1].1, mb[n - 1].1)
    }
}

/// Members equal up to `n` are equal up to any `k` below it.
proof fn lemma_members_eq_prefix(ma: Seq<(Seq<char>, Tree)>, mb: Seq<(Seq<char>, Tree)>, n: nat, k: nat)
    requires
        k <= n,
        members_eq(ma, mb, n),
    ensures
        members_eq(ma, mb, k),
    decreases n,
{
    if k < n {
        lemma_members_eq_prefix(ma, mb, (n - 1) as nat, k);
    }
}

/// Whether `t` is the JSON `null`.
pub open spec fn is_null_tree(t: Tree) -> bool {
    t matches Tree::Leaf(v) && json_null_of(v)
}

/// Whether two values found at a path are the same, a missing value
/// counting as `null`.
pub open spec fn same_value(a: Option<Tree>, b: Option<Tree>) -> bool {
    match a {
        Some(x) => match b {
            Some(y) => tree_eq(x, y),
            None => is_null_tree(x),
        },
        None => match b {
            Some(y) => is_null_tree(y),
            None => true,
        },
    }
}

/// Whether `a` and `b` are equal as JSON values.
#[verifier::loop_isolation(false)]
pub fn node_equal(a: &ConfigNode, b: &ConfigNode) -> (r: bool)
    ensures
        r == tree_eq(tree_of(*a), tree_of(*b)),
    decreases a,
{
    match a {
        ConfigNode::Leaf(x) => match b {
            ConfigNode::Leaf(y) => json_equals(x, y),
            ConfigNode::Object(_) => false,
        },
        ConfigNode::Object(ma) => match b {
            ConfigNode::Leaf(_) => false,
            ConfigNode::Object(mb) => {
                proof {
                    lemma_object_tree(*ma);
                    lemma_object_tree(*mb);
                }
                if ma.len() != mb.len() {
                    return false;
                }
                let ghost xa = members(ma@);
                let ghost xb = members(mb@);
                let mut i: usize = 0;
                while i < ma.len()
                    invariant
                        i <= ma.len(),
                        ma.len() == mb.len(),
                        xa == members(ma@),
                        xb == members(mb@),
                        members_eq(xa, xb, i as nat),
                    decreases ma.len() - i,
                {
                    proof {
                        assert(xa[i as int] == member_view(ma@[i as int]));
                        assert(xb[i as int] == member_view(mb@[i as int]));
                        assert(decreases_to!(*a => (*a)->Object_0));
                        assert((*a)->Object_0 == *ma);
                        assert(decreases_to!(ma => ma@));
                        assert(decreases_to!(ma@ => ma@[i as int]));
                        assert(decreases_to!(ma@[i as int] => ma@[i as int].1));
                    }
                    if !str_eq(ma[i].0.as_str(), mb[i].0.as_str()) {
                        proof {
                            assert(!members_eq(xa, xb, (i + 1) as nat));
                            if members_eq(xa, xb, xa.len()) {
                                lemma_members_eq_prefix(xa, xb, xa.len(), (i + 1) as nat);
                            }
                        }
                        return false;
                    }
                    if !node_equal(&ma[i].1, &mb[i].1) {
                        proof {
                            assert(!members_eq(xa, xb, (i + 1) as nat));
                            if members_eq(xa, xb, xa.len()) {
                                lemma_members_eq_prefix(xa, xb, xa.len(), (i + 1) as nat);
                            }
                        }
                        return false;
                    }
                    i = i + 1;
                }
                true
            },
        },
    }
}

/// Whether `t` is the JSON `null`.
pub fn node_is_null(t: &ConfigNode) -> (r: bool)
    ensures
        r == is_null_tree(tree_of(*t)),
{
    match t {
        ConfigNode::Leaf(v) => json_is_null(v),
        ConfigNode::Object(m) => {
            proof {
                lemma_object_tree(*m);
            }
            false
        },
    }
}

/// Whether two values found at a path are the same, a missing value
/// counting as `null`.
pub fn same_node(a: Option<&ConfigNode>, b: Option<&ConfigNode>) -> (r: bool)
    ensures
        r == same_value(
            match a {
                Some(x) => Some(tree_of(*x)),
                None => None,
            },
            match b {
                Some(y) => Some(tree_of(*y)),
                None => None,
            },
        ),
{
    match a {
        Some(x) => match b {
            Some(y) => node_equal(x, y),
            None => node_is_null(x),
        },
        None => match b {
            Some(y) => node_is_null(y),
            None => true,
        },
    }
}

} // verus!
