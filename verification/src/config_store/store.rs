//! The configuration store: the configuration tree with the files it came
//! from, the watchers of its paths, and the settings of reloading. Files,
//! the environment, callbacks and locks are the caller's.

use vstd::prelude::*;

use super::tree::{
    clone_node, get_in, get_path, merge_nodes, deep_merge, path_from, remove_in, remove_path, same_node,
    same_value, set_in, set_path, tree_of, ConfigNode, Tree, lemma_object_tree, members,
};
use crate::config::ConfigSource;
use crate::module::parser::{split_chars, split_on};
use crate::utils::error::{CoreError, ErrorView};
use crate::utils::id::{generate_id, is_id};
use crate::utils::text::{chars_of, lowercase, starts_with, str_eq, string_of_chars, to_lowercase};

verus! {

/// The names of a dotted configuration key.
pub open spec fn key_path(key: Seq<char>) -> Seq<Seq<char>> {
    split_on(key, '.')
}

/// The names of dotted key `key`, as strings.
pub fn split_key(key: &str) -> (r: Vec<String>)
    ensures
        path_from(r@, 0) == key_path(key@),
        r.len() > 0,
{
    let parts = split_chars(key, '.');
    let mut r: Vec<String> = Vec::new();
    let mut i: usize = 0;
    while i < parts.len()
        invariant
            i <= parts.len(),
            parts.deep_view() == key_path(key@),
            r@.map_values(|p: String| p@) == parts.deep_view().take(i as int),
        decreases parts.len() - i,
    {
        proof {
            assert(parts.deep_view()[i as int] == parts@[i as int].deep_view());
            assert(parts@[i as int].deep_view() =~= parts@[i as int]@);
        }
        let s = string_of_chars(&parts[i]);
        let ghost before = r@;
        r.push(s);
        proof {
            assert(r@.map_values(|p: String| p@) =~= before.map_values(|p: String| p@).push(s@));
            assert(parts.deep_view().take(i + 1) =~= parts.deep_view().take(i as int).push(parts.deep_view()[i as int]));
        }
        i = i + 1;
    }
    proof {
        assert(parts.deep_view().take(i as int) =~= parts.deep_view());
        assert(r@.skip(0) =~= r@);
        lemma_split_nonempty(key@, '.');
    }
    r
}

/// Splitting gives at least one piece.
proof fn lemma_split_nonempty(s: Seq<char>, sep: char)
    ensures
        split_on(s, sep).len() > 0,
    decreases s.len(),
{
    if s.len() > 0 {
        lemma_split_nonempty(s.drop_last(), sep);
    }
}

/// The value at dotted key `key` of the tree under `t`, the whole tree for
/// the empty key.
pub open spec fn value_at(t: Tree, key: Seq<char>) -> Option<Tree> {
    if key.len() == 0 {
        Some(t)
    } else {
        get_path(t, key_path(key))
    }
}

/// Whether a watcher of `watched` hears of a change at `changed`: one of
/// the two keys begins with the other, the empty key watching everything.
pub open spec fn hears(watched: Seq<char>, changed: Seq<char>) -> bool {
    watched.len() == 0 || watched.is_prefix_of(changed) || changed.is_prefix_of(watched)
}

/// The ids of the watchers among `ws` (each an id and a watched key) that
/// are told of a change at `changed` from `old` to `new`: those that hear
/// of it and whose value differs.
pub open spec fn told(ws: Seq<(Seq<char>, Seq<char>)>, changed: Seq<char>, old: Tree, new: Tree) -> Seq<Seq<char>>
    decreases ws.len(),
{
    if ws.len() == 0 {
        Seq::empty()
    } else {
        let r = told(ws.drop_last(), changed, old, new);
        let w = ws.last();
        if hears(w.1, changed) && !same_value(value_at(old, w.1), value_at(new, w.1)) {
            r.push(w.0)
        } else {
            r
        }
    }
}

/// Which watchers are told of a change at dotted key `changed` from `old`
/// to `new`: every watcher whose key is empty, lies on the path to the
/// changed key, or lies on or below it (so a change of a whole section, or
/// of everything at the empty key, reaches the watchers inside it), and
/// whose value differs between the two trees, is told; and only such
/// watchers are.
pub proof fn lemma_told_are_the_affected_watchers(
    ws: Seq<(Seq<char>, Seq<char>)>,
    changed: Seq<char>,
    old: Tree,
    new: Tree,
)
    ensures
        forall|i: int|
            0 <= i < ws.len() && ((#[trigger] ws[i]).1.len() == 0 || ws[i].1.is_prefix_of(changed)
                || changed.is_prefix_of(ws[i].1)) && !same_value(value_at(old, ws[i].1), value_at(new, ws[i].1))
                ==> told(ws, changed, old, new).contains(ws[i].0),
        forall|x: Seq<char>|
            #[trigger] told(ws, changed, old, new).contains(x) ==> exists|i: int|
                0 <= i < ws.len() && ws[i].0 == x && (ws[i].1.len() == 0 || ws[i].1.is_prefix_of(changed)
                    || changed.is_prefix_of(ws[i].1)) && !same_value(value_at(old, ws[i].1), value_at(new, ws[i].1)),
    decreases ws.len(),
{
    if ws.len() > 0 {
        let dl = ws.drop_last();
        lemma_told_are_the_affected_watchers(dl, changed, old, new);
        let r = told(dl, changed, old, new);
        let t = told(ws, changed, old, new);
        assert forall|x: Seq<char>| r.contains(x) implies t.contains(x) by {
            let k = choose|k: int| 0 <= k < r.len() && r[k] == x;
            if t != r {
                assert(t[k] == x);
            }
        }
        assert forall|i: int|
            0 <= i < ws.len() && ((#[trigger] ws[i]).1.len() == 0 || ws[i].1.is_prefix_of(changed)
                || changed.is_prefix_of(ws[i].1)) && !same_value(value_at(old, ws[i].1), value_at(new, ws[i].1))
            implies t.contains(ws[i].0) by {
            if i < ws.len() - 1 {
                assert(dl[i] == ws[i]);
                assert(r.contains(ws[i].0));
            } else {
                assert(t[t.len() - 1] == ws[i].0);
            }
        }
        assert forall|x: Seq<char>| #[trigger] t.contains(x) implies exists|i: int|
            0 <= i < ws.len() && ws[i].0 == x && (ws[i].1.len() == 0 || ws[i].1.is_prefix_of(changed)
                || changed.is_prefix_of(ws[i].1)) && !same_value(value_at(old, ws[i].1), value_at(new, ws[i].1)) by {
            let k = choose|k: int| 0 <= k < t.len() && t[k] == x;
            if k < r.len() {
                assert(r[k] == x);
                assert(r.contains(x));
                let i = choose|i: int|
                    0 <= i < dl.len() && dl[i].0 == x && (dl[i].1.len() == 0 || dl[i].1.is_prefix_of(changed)
                        || changed.is_prefix_of(dl[i].1)) && !same_value(value_at(old, dl[i].1), value_at(new, dl[i].1));
                assert(ws[i] == dl[i]);
            } else {
                assert(ws[ws.len() - 1] == ws.last());
            }
        }
    }
}

/// The watchers of `ws` without those with id `id`.
pub open spec fn without_id(ws: Seq<(Seq<char>, Seq<char>)>, id: Seq<char>) -> Seq<(Seq<char>, Seq<char>)>
    decreases ws.len(),
{
    if ws.len() == 0 {
        Seq::empty()
    } else {
        let r = without_id(ws.drop_last(), id);
        if ws.last().0 == id { r } else { r.push(ws.last()) }
    }
}

/// The watchers of `ws` without those of key `key`.
pub open spec fn without_key(ws: Seq<(Seq<char>, Seq<char>)>, key: Seq<char>) -> Seq<(Seq<char>, Seq<char>)>
    decreases ws.len(),
{
    if ws.len() == 0 {
        Seq::empty()
    } else {
        let r = without_key(ws.drop_last(), key);
        if ws.last().1 == key { r } else { r.push(ws.last()) }
    }
}

/// Dropping entries never makes a list longer.
proof fn lemma_without_len(ws: Seq<(Seq<char>, Seq<char>)>, id: Seq<char>)
    ensures
        without_id(ws, id).len() <= ws.len(),
        without_id(ws, id).len() == ws.len() <==> !ws.map_values(|w: (Seq<char>, Seq<char>)| w.0).contains(id),
    decreases ws.len(),
{
    let ids = ws.map_values(|w: (Seq<char>, Seq<char>)| w.0);
    if ws.len() == 0 {
        assert(ids.len() == 0);
        assert(!ids.contains(id));
    } else {
        lemma_without_len(ws.drop_last(), id);
        let ids0 = ws.drop_last().map_values(|w: (Seq<char>, Seq<char>)| w.0);
        assert(ids =~= ids0.push(ws.last().0));
        if ws.last().0 == id {
            assert(ids[ids.len() - 1] == id);
            assert(ids.contains(id));
        } else {
            if ids0.contains(id) {
                let k = choose|k: int| 0 <= k < ids0.len() && ids0[k] == id;
                assert(ids[k] == id);
                assert(ids.contains(id));
            }
            if ids.contains(id) {
                let k = choose|k: int| 0 <= k < ids.len() && ids[k] == id;
                assert(k < ids0.len());
                assert(ids0[k] == id);
                assert(ids0.contains(id));
            }
        }
    }
}

/// The node at dotted key `key` of `root`, the root itself for the empty
/// key.
pub fn value_at_node<'a>(root: &'a ConfigNode, key: &str) -> (r: Option<&'a ConfigNode>)
    ensures
        match r {
            Some(x) => value_at(tree_of(*root), key@) == Some(tree_of(*x)),
            None => value_at(tree_of(*root), key@) is None,
        },
{
    if key.is_empty() {
        Some(root)
    } else {
        let parts = split_key(key);
        get_in(root, &parts, 0)
    }
}

/// `node` with dotted key `key` set to `value`, making the objects on the
/// way.
pub fn set_at(node: ConfigNode, key: &str, value: ConfigNode) -> (r: ConfigNode)
    ensures
        tree_of(r) == set_path(tree_of(node), key_path(key@), tree_of(value)),
{
    let parts = split_key(key);
    set_in(node, &parts, 0, value)
}

/// An empty object.
pub fn empty_object() -> (r: ConfigNode)
    ensures
        tree_of(r) == Tree::Obj(Seq::empty()),
{
    let m: Vec<(String, ConfigNode)> = Vec::new();
    proof {
        lemma_object_tree(m);
        assert(members(m@) =~= Seq::<(Seq<char>, Tree)>::empty());
    }
    ConfigNode::Object(m)
}

/// Whether `node` is an object with no member.
pub fn is_empty_object(node: &ConfigNode) -> (r: bool)
    ensures
        r == (tree_of(*node) == Tree::Obj(Seq::empty())),
{
    match node {
        ConfigNode::Leaf(x) => {
            proof {
                assert(tree_of(*node) == Tree::Leaf(*x));
            }
            false
        },
        ConfigNode::Object(m) => {
            proof {
                lemma_object_tree(*m);
                if m.len() == 0 {
                    assert(members(m@) =~= Seq::<(Seq<char>, Tree)>::empty());
                } else {
                    assert(members(m@).len() > 0);
                }
            }
            m.len() == 0
        },
    }
}

/// `s` with each `_` turned into `.`.
pub open spec fn underscores_to_dots(s: Seq<char>) -> Seq<char> {
    s.map_values(|c: char| if c == '_' { '.' } else { c })
}

/// The dotted key an environment variable named `var` sets, for prefix
/// `prefix`: what follows `prefix` and `_`, in lower case, with `_` for
/// `.`; none for a variable without that prefix.
pub open spec fn env_key(prefix: Seq<char>, var: Seq<char>) -> Option<Seq<char>> {
    if (prefix + seq!['_']).is_prefix_of(var) {
        Some(underscores_to_dots(lowercase(var.skip(prefix.len() as int + 1))))
    } else {
        None
    }
}

/// The dotted key environment variable `var` sets (see [`env_key`]).
pub fn env_key_of(prefix: &str, var: &str) -> (r: Option<String>)
    ensures
        match r {
            Some(k) => env_key(prefix@, var@) == Some(k@),
            None => env_key(prefix@, var@) is None,
        },
{
    let p = chars_of(prefix);
    let v = chars_of(var);
    let mut full = p.clone();
    full.push('_');
    proof {
        assert(full@ =~= prefix@ + seq!['_']);
    }
    if full.len() > v.len() {
        return None;
    }
    let mut i: usize = 0;
    while i < full.len()
        invariant
            i <= full.len() <= v.len(),
            v@ == var@,
            full@ == prefix@ + seq!['_'],
            forall|j: int| 0 <= j < i ==> full@[j] == v@[j],
        decreases full.len() - i,
    {
        if full[i] != v[i] {
            return None;
        }
        i = i + 1;
    }
    proof {
        assert((prefix@ + seq!['_']).is_prefix_of(var@)) by {
            assert(var@.subrange(0, full@.len() as int) =~= full@);
        }
    }
    let mut rest: Vec<char> = Vec::new();
    let mut k: usize = full.len();
    while k < v.len()
        invariant
            full.len() <= k <= v.len(),
            v@ == var@,
            full@.len() == prefix@.len() + 1,
            rest@ == var@.subrange(full.len() as int, k as int),
        decreases v.len() - k,
    {
        rest.push(v[k]);
        proof {
            assert(rest@ =~= var@.subrange(full.len() as int, k + 1));
        }
        k = k + 1;
    }
    proof {
        assert(rest@ =~= var@.skip(prefix@.len() as int + 1));
    }
    let rest_text = string_of_chars(&rest);
    let lower = to_lowercase(rest_text.as_str());
    let lc = chars_of(lower.as_str());
    let mut out: Vec<char> = Vec::new();
    let mut j: usize = 0;
    while j < lc.len()
        invariant
            j <= lc.len(),
            lc@ == lowercase(var@.skip(prefix@.len() as int + 1)),
            out@ == underscores_to_dots(lc@.take(j as int)),
        decreases lc.len() - j,
    {
        let c = lc[j];
        out.push(if c == '_' { '.' } else { c });
        proof {
            assert(underscores_to_dots(lc@.take(j + 1)) =~= underscores_to_dots(lc@.take(j as int)).push(
                if c == '_' { '.' } else { c },
            ));
        }
        j = j + 1;
    }
    proof {
        assert(lc@.take(j as int) =~= lc@);
    }
    Some(string_of_chars(&out))
}

/// A watcher as mathematics sees it: its id and the key it watches.
pub open spec fn watcher_view(w: (String, String)) -> (Seq<char>, Seq<char>) {
    (w.0@, w.1@)
}

/// The configuration store.
pub struct ConfigStore {
    config: ConfigNode,
    config_paths: Vec<(String, ConfigSource)>,
    watchers: Vec<(String, String)>,
    env_prefix: String,
    hot_reload_enabled: bool,
    save_path: Option<String>,
}

impl ConfigStore {
    /// The configuration.
    pub closed spec fn tree(&self) -> Tree {
        tree_of(self.config)
    }

    /// The files loaded, in order, each with its layer.
    pub closed spec fn sources(&self) -> Seq<(Seq<char>, ConfigSource)> {
        self.config_paths@.map_values(|e: (String, ConfigSource)| (e.0@, e.1))
    }

    /// The watchers, in the order added, each an id and a watched key.
    pub closed spec fn watcher_list(&self) -> Seq<(Seq<char>, Seq<char>)> {
        self.watchers@.map_values(|w: (String, String)| watcher_view(w))
    }

    /// The prefix of the environment variables read.
    pub closed spec fn prefix(&self) -> Seq<char> {
        self.env_prefix@
    }

    /// Whether reloading on change is on.
    pub closed spec fn hot_reload(&self) -> bool {
        self.hot_reload_enabled
    }

    /// Where the configuration is saved when no path is given.
    pub closed spec fn save_target(&self) -> Option<Seq<char>> {
        match self.save_path {
            Some(p) => Some(p@),
            None => None,
        }
    }

    /// An empty store reading environment variables with prefix `CHIPS`.
    pub fn new() -> (r: Self)
        ensures
            r.tree() == Tree::Obj(Seq::empty()),
            r.sources().len() == 0,
            r.watcher_list().len() == 0,
            r.prefix() == "CHIPS"@,
            !r.hot_reload(),
            r.save_target() is None,
    {
        Self::with_env_prefix("CHIPS")
    }

    /// An empty store reading environment variables with prefix
    /// `env_prefix`.
    pub fn with_env_prefix(env_prefix: &str) -> (r: Self)
        ensures
            r.tree() == Tree::Obj(Seq::empty()),
            r.sources().len() == 0,
            r.watcher_list().len() == 0,
            r.prefix() == env_prefix@,
            !r.hot_reload(),
            r.save_target() is None,
    {
        let root: Vec<(String, ConfigNode)> = Vec::new();
        proof {
            lemma_object_tree(root);
            assert(members(root@) =~= Seq::<(Seq<char>, Tree)>::empty());
        }
        let r = ConfigStore {
            config: ConfigNode::Object(root),
            config_paths: Vec::new(),
            watchers: Vec::new(),
            env_prefix: env_prefix.to_owned(),
            hot_reload_enabled: false,
            save_path: None,
        };
        proof {
            assert(r.sources() =~= Seq::<(Seq<char>, ConfigSource)>::empty());
            assert(r.watcher_list() =~= Seq::<(Seq<char>, Seq<char>)>::empty());
        }
        r
    }

    /// The prefix of the environment variables read.
    pub fn env_prefix(&self) -> (r: &str)
        ensures
            r@ == self.prefix(),
    {
        self.env_prefix.as_str()
    }

    /// The value at dotted key `key`.
    pub fn get(&self, key: &str) -> (r: Option<&ConfigNode>)
        ensures
            match r {
                Some(x) => get_path(self.tree(), key_path(key@)) == Some(tree_of(*x)),
                None => get_path(self.tree(), key_path(key@)) is None,
            },
    {
        let parts = split_key(key);
        get_in(&self.config, &parts, 0)
    }

    /// Whether dotted key `key` has a value.
    pub fn contains(&self, key: &str) -> (r: bool)
        ensures
            r == (get_path(self.tree(), key_path(key@)) is Some),
    {
        self.get(key).is_some()
    }

    /// Sets dotted key `key` to `value`, making the objects on the way.
    pub fn set(&mut self, key: &str, value: ConfigNode)
        ensures
            final(self).tree() == set_path(old(self).tree(), key_path(key@), tree_of(value)),
            final(self).sources() == old(self).sources(),
            final(self).watcher_list() == old(self).watcher_list(),
            final(self).prefix() == old(self).prefix(),
            final(self).hot_reload() == old(self).hot_reload(),
            final(self).save_target() == old(self).save_target(),
    {
        let parts = split_key(key);
        let mut root = ConfigNode::Object(Vec::new());
        std::mem::swap(&mut root, &mut self.config);
        self.config = set_in(root, &parts, 0, value);
    }

    /// Removes the value at dotted key `key`.
    pub fn remove(&mut self, key: &str)
        ensures
            final(self).tree() == remove_path(old(self).tree(), key_path(key@)),
            final(self).sources() == old(self).sources(),
            final(self).watcher_list() == old(self).watcher_list(),
            final(self).prefix() == old(self).prefix(),
            final(self).hot_reload() == old(self).hot_reload(),
            final(self).save_target() == old(self).save_target(),
    {
        let parts = split_key(key);
        let mut root = ConfigNode::Object(Vec::new());
        std::mem::swap(&mut root, &mut self.config);
        self.config = remove_in(root, &parts, 0);
    }

    /// Merges `new_config` into the configuration (see [`deep_merge`]).
    pub fn merge(&mut self, new_config: ConfigNode)
        ensures
            final(self).tree() == deep_merge(old(self).tree(), tree_of(new_config)),
            final(self).sources() == old(self).sources(),
            final(self).watcher_list() == old(self).watcher_list(),
            final(self).prefix() == old(self).prefix(),
            final(self).hot_reload() == old(self).hot_reload(),
            final(self).save_target() == old(self).save_target(),
    {
        let mut root = ConfigNode::Object(Vec::new());
        std::mem::swap(&mut root, &mut self.config);
        self.config = merge_nodes(root, new_config);
    }

    /// Empties the configuration, before it is loaded again.
    pub fn clear(&mut self)
        ensures
            final(self).tree() == Tree::Obj(Seq::empty()),
            final(self).sources() == old(self).sources(),
            final(self).watcher_list() == old(self).watcher_list(),
            final(self).prefix() == old(self).prefix(),
            final(self).hot_reload() == old(self).hot_reload(),
            final(self).save_target() == old(self).save_target(),
    {
        let root: Vec<(String, ConfigNode)> = Vec::new();
        proof {
            lemma_object_tree(root);
            assert(members(root@) =~= Seq::<(Seq<char>, Tree)>::empty());
        }
        self.config = ConfigNode::Object(root);
    }

    /// A copy of the configuration.
    pub fn snapshot(&self) -> (r: ConfigNode)
        ensures
            tree_of(r) == self.tree(),
    {
        clone_node(&self.config)
    }

    /// The configuration.
    pub fn root(&self) -> (r: &ConfigNode)
        ensures
            tree_of(*r) == self.tree(),
    {
        &self.config
    }

    /// The names of the top-level members, in order; none when the
    /// configuration is not an object.
    pub fn keys(&self) -> (r: Vec<String>)
        ensures
            r@.map_values(|k: String| k@) == match self.tree() {
                Tree::Obj(m) => m.map_values(|e: (Seq<char>, Tree)| e.0),
                Tree::Leaf(_) => Seq::empty(),
            },
    {
        let mut r: Vec<String> = Vec::new();
        match &self.config {
            ConfigNode::Leaf(_) => {
                proof {
                    assert(r@.map_values(|k: String| k@) =~= Seq::<Seq<char>>::empty());
                }
            },
            ConfigNode::Object(m) => {
                proof {
                    lemma_object_tree(*m);
                }
                let mut i: usize = 0;
                while i < m.len()
                    invariant
                        i <= m.len(),
                        r@.map_values(|k: String| k@) == members(m@).take(i as int).map_values(
                            |e: (Seq<char>, Tree)| e.0,
                        ),
                    decreases m.len() - i,
                {
                    let ghost before = r@;
                    r.push(m[i].0.clone());
                    proof {
                        assert(members(m@)[i as int] == super::tree::member_view(m@[i as int]));
                        assert(members(m@).take(i + 1) =~= members(m@).take(i as int).push(members(m@)[i as int]));
                        assert(r@.map_values(|k: String| k@) =~= before.map_values(|k: String| k@).push(m@[i as int].0@));
                        assert(members(m@).take(i + 1).map_values(|e: (Seq<char>, Tree)| e.0) =~= members(m@).take(
                            i as int,
                        ).map_values(|e: (Seq<char>, Tree)| e.0).push(members(m@)[i as int].0));
                        assert(r@.map_values(|k: String| k@) =~= members(m@).take(i + 1).map_values(
                            |e: (Seq<char>, Tree)| e.0,
                        ));
                    }
                    i = i + 1;
                }
                proof {
                    assert(members(m@).take(i as int) =~= members(m@));
                }
            },
        }
        r
    }

    /// Registers a watcher of dotted key `key` (the empty key watches
    /// everything); returns its new id.
    pub fn add_watcher(&mut self, key: &str) -> (r: String)
        ensures
            is_id(r@),
            final(self).watcher_list() == old(self).watcher_list().push((r@, key@)),
            final(self).tree() == old(self).tree(),
            final(self).sources() == old(self).sources(),
            final(self).prefix() == old(self).prefix(),
            final(self).hot_reload() == old(self).hot_reload(),
            final(self).save_target() == old(self).save_target(),
    {
        let id = generate_id();
        let ghost before = self.watchers@;
        self.watchers.push((id.clone(), key.to_owned()));
        proof {
            assert(self.watchers@.map_values(|w: (String, String)| watcher_view(w)) =~= before.map_values(
                |w: (String, String)| watcher_view(w),
            ).push((id@, key@)));
        }
        id
    }

    /// Removes the watchers with id `id`; whether one was there.
    pub fn remove_watcher(&mut self, id: &str) -> (r: bool)
        ensures
            final(self).watcher_list() == without_id(old(self).watcher_list(), id@),
            r == old(self).watcher_list().map_values(|w: (Seq<char>, Seq<char>)| w.0).contains(id@),
            final(self).tree() == old(self).tree(),
            final(self).sources() == old(self).sources(),
            final(self).prefix() == old(self).prefix(),
            final(self).hot_reload() == old(self).hot_reload(),
            final(self).save_target() == old(self).save_target(),
    {
        let ghost ws = self.watcher_list();
        let mut kept: Vec<(String, String)> = Vec::new();
        let mut i: usize = 0;
        while i < self.watchers.len()
            invariant
                i <= self.watchers.len(),
                ws == self.watchers@.map_values(|w: (String, String)| watcher_view(w)),
                kept@.map_values(|w: (String, String)| watcher_view(w)) == without_id(ws.take(i as int), id@),
            decreases self.watchers.len() - i,
        {
            proof {
                assert(ws.take(i + 1).drop_last() =~= ws.take(i as int));
                assert(ws.take(i + 1).last() == watcher_view(self.watchers@[i as int]));
            }
            if !str_eq(self.watchers[i].0.as_str(), id) {
                let ghost before = kept@;
                kept.push((self.watchers[i].0.clone(), self.watchers[i].1.clone()));
                proof {
                    assert(kept@.map_values(|w: (String, String)| watcher_view(w)) =~= before.map_values(
                        |w: (String, String)| watcher_view(w),
                    ).push(ws[i as int]));
                }
            }
            i = i + 1;
        }
        proof {
            assert(ws.take(i as int) =~= ws);
            lemma_without_len(ws, id@);
        }
        let removed = kept.len() < self.watchers.len();
        self.watchers = kept;
        removed
    }

    /// Removes the watchers of dotted key `key`.
    pub fn remove_watchers_of(&mut self, key: &str)
        ensures
            final(self).watcher_list() == without_key(old(self).watcher_list(), key@),
            final(self).tree() == old(self).tree(),
            final(self).sources() == old(self).sources(),
            final(self).prefix() == old(self).prefix(),
            final(self).hot_reload() == old(self).hot_reload(),
            final(self).save_target() == old(self).save_target(),
    {
        let ghost ws = self.watcher_list();
        let mut kept: Vec<(String, String)> = Vec::new();
        let mut i: usize = 0;
        while i < self.watchers.len()
            invariant
                i <= self.watchers.len(),
                ws == self.watchers@.map_values(|w: (String, String)| watcher_view(w)),
                kept@.map_values(|w: (String, String)| watcher_view(w)) == without_key(ws.take(i as int), key@),
            decreases self.watchers.len() - i,
        {
            proof {
                assert(ws.take(i + 1).drop_last() =~= ws.take(i as int));
                assert(ws.take(i + 1).last() == watcher_view(self.watchers@[i as int]));
            }
            if !str_eq(self.watchers[i].1.as_str(), key) {
                let ghost before = kept@;
                kept.push((self.watchers[i].0.clone(), self.watchers[i].1.clone()));
                proof {
                    assert(kept@.map_values(|w: (String, String)| watcher_view(w)) =~= before.map_values(
                        |w: (String, String)| watcher_view(w),
                    ).push(ws[i as int]));
                }
            }
            i = i + 1;
        }
        proof {
            assert(ws.take(i as int) =~= ws);
        }
        self.watchers = kept;
    }

    /// The ids of the watchers to tell of a change at dotted key `changed`
    /// from configuration `old` to the current one (see [`told`]), in the
    /// order they were added.
    pub fn watchers_to_notify(&self, changed: &str, old: &ConfigNode) -> (r: Vec<String>)
        ensures
            r@.map_values(|k: String| k@) == told(self.watcher_list(), changed@, tree_of(*old), self.tree()),
    {
        let ghost ws = self.watcher_list();
        let mut r: Vec<String> = Vec::new();
        let mut i: usize = 0;
        while i < self.watchers.len()
            invariant
                i <= self.watchers.len(),
                ws == self.watchers@.map_values(|w: (String, String)| watcher_view(w)),
                r@.map_values(|k: String| k@) == told(ws.take(i as int), changed@, tree_of(*old), self.tree()),
            decreases self.watchers.len() - i,
        {
            proof {
                assert(ws.take(i + 1).drop_last() =~= ws.take(i as int));
                assert(ws.take(i + 1).last() == watcher_view(self.watchers@[i as int]));
            }
            let key = self.watchers[i].1.as_str();
            let hears_it = key.is_empty() || starts_with(changed, key) || starts_with(key, changed);
            if hears_it {
                let before_value = value_at_node(old, key);
                let now_value = value_at_node(&self.config, key);
                if !same_node(before_value, now_value) {
                    let ghost before = r@;
                    r.push(self.watchers[i].0.clone());
                    proof {
                        assert(r@.map_values(|k: String| k@) =~= before.map_values(|k: String| k@).push(
                            self.watchers@[i as int].0@,
                        ));
                    }
                }
            }
            i = i + 1;
        }
        proof {
            assert(ws.take(i as int) =~= ws);
        }
        r
    }

    /// Records that file `path` was loaded as layer `source`; a user file
    /// becomes where the configuration is saved.
    pub fn record_source(&mut self, path: &str, source: ConfigSource)
        ensures
            final(self).sources() == old(self).sources().push((path@, source)),
            final(self).save_target() == if source == ConfigSource::User {
                Some(path@)
            } else {
                old(self).save_target()
            },
            final(self).tree() == old(self).tree(),
            final(self).watcher_list() == old(self).watcher_list(),
            final(self).prefix() == old(self).prefix(),
            final(self).hot_reload() == old(self).hot_reload(),
    {
        let ghost before = self.config_paths@;
        self.config_paths.push((path.to_owned(), source));
        proof {
            assert(self.config_paths@.map_values(|e: (String, ConfigSource)| (e.0@, e.1)) =~= before.map_values(
                |e: (String, ConfigSource)| (e.0@, e.1),
            ).push((path@, source)));
        }
        if source == ConfigSource::User {
            self.save_path = Some(path.to_owned());
        }
    }

    /// The files loaded, in order, each with its layer.
    pub fn loaded_sources(&self) -> (r: Vec<(String, ConfigSource)>)
        ensures
            r@.map_values(|e: (String, ConfigSource)| (e.0@, e.1)) == self.sources(),
    {
        let mut r: Vec<(String, ConfigSource)> = Vec::new();
        let mut i: usize = 0;
        while i < self.config_paths.len()
            invariant
                i <= self.config_paths.len(),
                r@.map_values(|e: (String, ConfigSource)| (e.0@, e.1)) == self.sources().take(i as int),
            decreases self.config_paths.len() - i,
        {
            let ghost before = r@;
            r.push((self.config_paths[i].0.clone(), self.config_paths[i].1));
            proof {
                assert(self.sources()[i as int] == (self.config_paths@[i as int].0@, self.config_paths@[i as int].1));
                assert(self.sources().take(i + 1) =~= self.sources().take(i as int).push(self.sources()[i as int]));
                assert(r@.map_values(|e: (String, ConfigSource)| (e.0@, e.1)) =~= before.map_values(
                    |e: (String, ConfigSource)| (e.0@, e.1),
                ).push(self.sources()[i as int]));
            }
            i = i + 1;
        }
        proof {
            assert(self.sources().take(i as int) =~= self.sources());
        }
        r
    }

    /// Where to save: `path` when given, else the last user file; with
    /// neither, `ConfigLoadFailed`.
    pub fn save_destination(&self, path: Option<&str>) -> (r: Result<String, CoreError>)
        ensures
            match path {
                Some(p) => r matches Ok(d) && d@ == p@,
                None => match self.save_target() {
                    Some(t) => r matches Ok(d) && d@ == t,
                    None => r matches Err(e) && e@ == ErrorView::ConfigLoadFailed("没有指定保存路径"@),
                },
            },
    {
        match path {
            Some(p) => Ok(p.to_owned()),
            None => match &self.save_path {
                Some(t) => Ok(t.clone()),
                None => Err(CoreError::ConfigLoadFailed(String::from_str("没有指定保存路径"))),
            },
        }
    }

    /// Turns reloading on change on or off.
    pub fn set_hot_reload(&mut self, enabled: bool)
        ensures
            final(self).hot_reload() == enabled,
            final(self).tree() == old(self).tree(),
            final(self).sources() == old(self).sources(),
            final(self).watcher_list() == old(self).watcher_list(),
            final(self).prefix() == old(self).prefix(),
            final(self).save_target() == old(self).save_target(),
    {
        self.hot_reload_enabled = enabled;
    }

    /// Whether reloading on change is on.
    pub fn is_hot_reload_enabled(&self) -> (r: bool)
        ensures
            r == self.hot_reload(),
    {
        self.hot_reload_enabled
    }
}

} // verus!
