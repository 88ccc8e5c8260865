//! The module loader: the load state of each module, the instances of the
//! loaded ones, and which modules depend on which.
//!
//! Loading and unloading are each split in two steps around the call into
//! the module's runtime, which the caller makes: `begin_*` checks and marks
//! the module, `finish_*` records what the runtime answered.

use vstd::prelude::*;

use super::dependency::without;
use super::metadata::{Dependency, ModuleInfo, ModuleState, Runtime};
use crate::utils::error::{CoreError, ErrorView};
use crate::utils::text::{position_of, str_eq};

verus! {

type Name = Seq<char>;

/// The name of a state, as its variant is written.
pub open spec fn state_name(s: ModuleState) -> Seq<char> {
    match s {
        ModuleState::Registered => "Registered"@,
        ModuleState::Loading => "Loading"@,
        ModuleState::Loaded => "Loaded"@,
        ModuleState::Starting => "Starting"@,
        ModuleState::Running => "Running"@,
        ModuleState::Stopping => "Stopping"@,
        ModuleState::Stopped => "Stopped"@,
        ModuleState::Unloading => "Unloading"@,
        ModuleState::Unloaded => "Unloaded"@,
        ModuleState::Error => "Error"@,
    }
}

/// The name of state `s`, as its variant is written.
pub fn state_name_of(s: ModuleState) -> (r: String)
    ensures
        r@ == state_name(s),
{
    match s {
        ModuleState::Registered => String::from_str("Registered"),
        ModuleState::Loading => String::from_str("Loading"),
        ModuleState::Loaded => String::from_str("Loaded"),
        ModuleState::Starting => String::from_str("Starting"),
        ModuleState::Running => String::from_str("Running"),
        ModuleState::Stopping => String::from_str("Stopping"),
        ModuleState::Stopped => String::from_str("Stopped"),
        ModuleState::Unloading => String::from_str("Unloading"),
        ModuleState::Unloaded => String::from_str("Unloaded"),
        ModuleState::Error => String::from_str("Error"),
    }
}

/// The dependents after module `id` with dependencies `deps[..n]` has been
/// recorded: `id` is added to the dependents of each module it depends on,
/// once per dependency.
pub open spec fn record_deps(m: Map<Name, Seq<Name>>, deps: Seq<Dependency>, id: Name, n: nat) -> Map<Name, Seq<Name>>
    decreases n,
{
    if n == 0 || n > deps.len() {
        m
    } else {
        let m1 = record_deps(m, deps, id, (n - 1) as nat);
        let k = deps[n - 1].module_id@;
        m1.insert(k, (if m1.contains_key(k) { m1[k] } else { Seq::empty() }).push(id))
    }
}

/// The dependents without module `id`: it leaves every list, and its own
/// list is dropped.
pub open spec fn drop_dependent(m: Map<Name, Seq<Name>>, id: Name) -> Map<Name, Seq<Name>> {
    Map::new(|k: Name| m.contains_key(k) && k != id, |k: Name| without(m[k], id))
}

/// Module load states, instances and dependents.
pub struct ModuleLoader {
    ids: Vec<String>,
    states: Vec<ModuleState>,
    instances: Vec<Option<Runtime>>,
    dep_keys: Vec<String>,
    dep_lists: Vec<Vec<String>>,
}

proof fn lemma_unique_index(s: Seq<Name>, i: int)
    requires
        s.no_duplicates(),
        0 <= i < s.len(),
    ensures
        s.index_of(s[i]) == i,
{
    assert(s.contains(s[i]));
    let j = s.index_of(s[i]);
    assert(s[j] == s[i]);
}

impl ModuleLoader {
    /// The state of each module the loader knows.
    pub closed spec fn state_map(&self) -> Map<Name, ModuleState> {
        Map::new(
            |k: Name| self.ids.deep_view().contains(k),
            |k: Name| self.states@[self.ids.deep_view().index_of(k)],
        )
    }

    /// The runtime of each loaded module.
    pub closed spec fn instance_map(&self) -> Map<Name, Runtime> {
        Map::new(
            |k: Name| self.ids.deep_view().contains(k) && self.instances@[self.ids.deep_view().index_of(k)] is Some,
            |k: Name| self.instances@[self.ids.deep_view().index_of(k)]->0,
        )
    }

    /// The modules depending on each module, in the order recorded.
    pub closed spec fn dependents_map(&self) -> Map<Name, Seq<Name>> {
        Map::new(
            |k: Name| self.dep_keys.deep_view().contains(k),
            |k: Name| self.dep_lists@[self.dep_keys.deep_view().index_of(k)].deep_view(),
        )
    }

    /// The loader's invariant.
    pub closed spec fn wf(&self) -> bool {
        &&& self.ids.len() == self.states.len()
        &&& self.ids.len() == self.instances.len()
        &&& self.ids.deep_view().no_duplicates()
        &&& self.dep_keys.len() == self.dep_lists.len()
        &&& self.dep_keys.deep_view().no_duplicates()
    }

    /// A loader that knows no module.
    pub fn new() -> (r: Self)
        ensures
            r.wf(),
            r.state_map() == Map::<Name, ModuleState>::empty(),
            r.instance_map() == Map::<Name, Runtime>::empty(),
            r.dependents_map() == Map::<Name, Seq<Name>>::empty(),
    {
        let r = ModuleLoader {
            ids: Vec::new(),
            states: Vec::new(),
            instances: Vec::new(),
            dep_keys: Vec::new(),
            dep_lists: Vec::new(),
        };
        proof {
            assert(r.ids.deep_view() =~= Seq::<Name>::empty());
            assert(r.dep_keys.deep_view() =~= Seq::<Name>::empty());
            assert(r.state_map() =~= Map::<Name, ModuleState>::empty());
            assert(r.instance_map() =~= Map::<Name, Runtime>::empty());
            assert(r.dependents_map() =~= Map::<Name, Seq<Name>>::empty());
        }
        r
    }

    /// The state of module `module_id`, if the loader knows it.
    pub fn get_state(&self, module_id: &str) -> (r: Option<ModuleState>)
        requires
            self.wf(),
        ensures
            r == (if self.state_map().contains_key(module_id@) { Some(self.state_map()[module_id@]) } else { None }),
    {
        match position_of(&self.ids, module_id) {
            Some(i) => {
                proof {
                    lemma_unique_index(self.ids.deep_view(), i as int);
                }
                Some(self.states[i])
            },
            None => None,
        }
    }

    /// Whether module `module_id` is loaded or running.
    pub fn is_loaded(&self, module_id: &str) -> (r: bool)
        requires
            self.wf(),
        ensures
            r == (self.state_map().contains_key(module_id@) && (self.state_map()[module_id@] == ModuleState::Loaded
                || self.state_map()[module_id@] == ModuleState::Running)),
    {
        match self.get_state(module_id) {
            Some(ModuleState::Loaded) | Some(ModuleState::Running) => true,
            _ => false,
        }
    }

    /// The runtime of module `module_id`, if it is loaded.
    pub fn get_instance(&self, module_id: &str) -> (r: Option<Runtime>)
        requires
            self.wf(),
        ensures
            r == (if self.instance_map().contains_key(module_id@) { Some(self.instance_map()[module_id@]) } else { None }),
    {
        match position_of(&self.ids, module_id) {
            Some(i) => {
                proof {
                    lemma_unique_index(self.ids.deep_view(), i as int);
                }
                self.instances[i]
            },
            None => None,
        }
    }

    /// The modules depending on `module_id`, in the order recorded.
    pub fn get_dependents(&self, module_id: &str) -> (r: Vec<String>)
        requires
            self.wf(),
        ensures
            r.deep_view() == (if self.dependents_map().contains_key(module_id@) {
                self.dependents_map()[module_id@]
            } else {
                Seq::empty()
            }),
    {
        match position_of(&self.dep_keys, module_id) {
            Some(i) => {
                proof {
                    lemma_unique_index(self.dep_keys.deep_view(), i as int);
                }
                crate::utils::text::clone_names(&self.dep_lists[i])
            },
            None => {
                let r: Vec<String> = Vec::new();
                proof {
                    assert(r.deep_view() =~= Seq::<Name>::empty());
                }
                r
            },
        }
    }

    /// The loaded modules, in the order first known.
    pub fn loaded_modules(&self) -> (r: Vec<String>)
        requires
            self.wf(),
        ensures
            forall|k: Name| #[trigger] r.deep_view().contains(k) <==> self.instance_map().contains_key(k),
            r.deep_view().no_duplicates(),
    {
        let mut r: Vec<String> = Vec::new();
        let mut i: usize = 0;
        proof {
            assert(r.deep_view() =~= Seq::<Name>::empty());
        }
        while i < self.ids.len()
            invariant
                self.wf(),
                i <= self.ids.len(),
                r.deep_view().no_duplicates(),
                forall|k: Name| #[trigger] r.deep_view().contains(k) <==> exists|j: int|
                    0 <= j < i && self.ids.deep_view()[j] == k && self.instances@[j] is Some,
            decreases self.ids.len() - i,
        {
            if self.instances[i].is_some() {
                let ghost before = r.deep_view();
                r.push(self.ids[i].clone());
                proof {
                    assert(r.deep_view() =~= before.push(self.ids.deep_view()[i as int]));
                    assert(!before.contains(self.ids.deep_view()[i as int])) by {
                        if before.contains(self.ids.deep_view()[i as int]) {
                            let j = choose|j: int| 0 <= j < i && self.ids.deep_view()[j] == self.ids.deep_view()[i as int] && self.instances@[j] is Some;
                        }
                    }
                    assert forall|k: Name| #[trigger] r.deep_view().contains(k) <==> exists|j: int|
                        0 <= j < i + 1 && self.ids.deep_view()[j] == k && self.instances@[j] is Some by {
                        if r.deep_view().contains(k) && k != self.ids.deep_view()[i as int] {
                            assert(before.contains(k)) by {
                                let p = choose|p: int| 0 <= p < r.deep_view().len() && r.deep_view()[p] == k;
                                assert(p < before.len());
                                assert(before[p] == k);
                            }
                        }
                        if exists|j: int| 0 <= j < i + 1 && self.ids.deep_view()[j] == k && self.instances@[j] is Some {
                            if k == self.ids.deep_view()[i as int] {
                                assert(r.deep_view()[before.len() as int] == k);
                            } else {
                                let j = choose|j: int| 0 <= j < i + 1 && self.ids.deep_view()[j] == k && self.instances@[j] is Some;
                                assert(j < i);
                                assert(before.contains(k));
                                let p = choose|p: int| 0 <= p < before.len() && before[p] == k;
                                assert(r.deep_view()[p] == k);
                            }
                        }
                    }
                }
            } else {
                proof {
                    assert forall|k: Name| #[trigger] r.deep_view().contains(k) <==> exists|j: int|
                        0 <= j < i + 1 && self.ids.deep_view()[j] == k && self.instances@[j] is Some by {
                        if exists|j: int| 0 <= j < i + 1 && self.ids.deep_view()[j] == k && self.instances@[j] is Some {
                            let j = choose|j: int| 0 <= j < i + 1 && self.ids.deep_view()[j] == k && self.instances@[j] is Some;
                            assert(j < i);
                        }
                    }
                }
            }
            i = i + 1;
        }
        proof {
            assert forall|k: Name| #[trigger] r.deep_view().contains(k) <==> self.instance_map().contains_key(k) by {
                if self.instance_map().contains_key(k) {
                    let j = self.ids.deep_view().index_of(k);
                    assert(self.ids.deep_view()[j] == k);
                }
                if r.deep_view().contains(k) {
                    let j = choose|j: int| 0 <= j < self.ids.len() && self.ids.deep_view()[j] == k && self.instances@[j] is Some;
                    lemma_unique_index(self.ids.deep_view(), j);
                }
            }
        }
        r
    }

    /// Sets the state of module `module_id`.
    pub fn set_state(&mut self, module_id: &str, state: ModuleState)
        requires
            old(self).wf(),
        ensures
            final(self).wf(),
            final(self).state_map() == old(self).state_map().insert(module_id@, state),
            final(self).instance_map() == old(self).instance_map(),
            final(self).dependents_map() == old(self).dependents_map(),
    {
        let ghost m0 = self.state_map();
        let ghost i0 = self.instance_map();
        let ghost ids0 = self.ids.deep_view();
        match position_of(&self.ids, module_id) {
            Some(i) => {
                self.states.set(i, state);
                proof {
                    lemma_unique_index(ids0, i as int);
                    assert forall|k: Name| #[trigger] m0.contains_key(k) implies k == module_id@ || self.state_map()[k] == m0[k] by {
                        if k != module_id@ {
                            let j = ids0.index_of(k);
                            assert(ids0[j] == k);
                            assert(j != i);
                        }
                    }
                    assert(self.state_map() =~= m0.insert(module_id@, state));
                    assert(self.instance_map() =~= i0);
                }
            },
            None => {
                self.ids.push(module_id.to_owned());
                self.states.push(state);
                self.instances.push(None);
                proof {
                    let ids1 = self.ids.deep_view();
                    assert(ids1 =~= ids0.push(module_id@));
                    lemma_unique_index(ids1, ids0.len() as int);
                    assert forall|k: Name| ids0.contains(k) implies #[trigger] ids1.index_of(k) == ids0.index_of(k) by {
                        let j = ids0.index_of(k);
                        assert(ids0[j] == k);
                        lemma_unique_index(ids0, j);
                        lemma_unique_index(ids1, j);
                    }
                    assert forall|k: Name| #[trigger] ids1.contains(k) <==> (ids0.contains(k) || k == module_id@) by {
                        if ids1.contains(k) && k != module_id@ {
                            let j = choose|j: int| 0 <= j < ids1.len() && ids1[j] == k;
                            assert(j < ids0.len());
                            assert(ids0[j] == k);
                        }
                        if ids0.contains(k) {
                            let j = choose|j: int| 0 <= j < ids0.len() && ids0[j] == k;
                            assert(ids1[j] == k);
                        }
                        if k == module_id@ {
                            assert(ids1[ids0.len() as int] == k);
                        }
                    }
                    assert(self.state_map() =~= m0.insert(module_id@, state));
                    assert(self.instance_map() =~= i0);
                }
            },
        }
    }

    /// Sets or clears the instance of known module `module_id`.
    fn set_instance(&mut self, module_id: &str, inst: Option<Runtime>)
        requires
            old(self).wf(),
            old(self).state_map().contains_key(module_id@),
        ensures
            final(self).wf(),
            final(self).state_map() == old(self).state_map(),
            final(self).dependents_map() == old(self).dependents_map(),
            final(self).instance_map() == match inst {
                Some(rt) => old(self).instance_map().insert(module_id@, rt),
                None => old(self).instance_map().remove(module_id@),
            },
    {
        let ghost i0 = self.instance_map();
        let ghost m0 = self.state_map();
        let ghost ids0 = self.ids.deep_view();
        match position_of(&self.ids, module_id) {
            Some(i) => {
                self.instances.set(i, inst);
                proof {
                    lemma_unique_index(ids0, i as int);
                    assert forall|k: Name| k != module_id@ && ids0.contains(k) implies #[trigger] ids0.index_of(k) != i by {
                        let j = ids0.index_of(k);
                        assert(ids0[j] == k);
                    }
                    assert(self.state_map() =~= m0);
                    match inst {
                        Some(rt) => {
                            assert(self.instance_map() =~= i0.insert(module_id@, rt));
                        },
                        None => {
                            assert(self.instance_map() =~= i0.remove(module_id@));
                        },
                    }
                }
            },
            None => {},
        }
    }

    /// Records that `module_id` depends on `key`.
    fn add_dependent(&mut self, key: &str, module_id: &str)
        requires
            old(self).wf(),
        ensures
            final(self).wf(),
            final(self).state_map() == old(self).state_map(),
            final(self).instance_map() == old(self).instance_map(),
            final(self).dependents_map() == old(self).dependents_map().insert(
                key@,
                (if old(self).dependents_map().contains_key(key@) { old(self).dependents_map()[key@] } else { Seq::empty() }).push(
                    module_id@,
                ),
            ),
    {
        let ghost d0 = self.dependents_map();
        let ghost keys0 = self.dep_keys.deep_view();
        match position_of(&self.dep_keys, key) {
            Some(i) => {
                let mut list = self.dep_lists.remove(i);
                let ghost l0 = list.deep_view();
                list.push(module_id.to_owned());
                proof {
                    assert(list.deep_view() =~= l0.push(module_id@));
                }
                self.dep_lists.insert(i, list);
                proof {
                    lemma_unique_index(keys0, i as int);
                    assert forall|k: Name| k != key@ && keys0.contains(k) implies #[trigger] keys0.index_of(k) != i by {
                        let j = keys0.index_of(k);
                        assert(keys0[j] == k);
                    }
                    assert(self.dependents_map() =~= d0.insert(key@, d0[key@].push(module_id@)));
                }
            },
            None => {
                let mut list: Vec<String> = Vec::new();
                list.push(module_id.to_owned());
                proof {
                    assert(list.deep_view() =~= seq![module_id@]);
                }
                self.dep_keys.push(key.to_owned());
                self.dep_lists.push(list);
                proof {
                    let keys1 = self.dep_keys.deep_view();
                    assert(keys1 =~= keys0.push(key@));
                    lemma_unique_index(keys1, keys0.len() as int);
                    assert forall|k: Name| keys0.contains(k) implies #[trigger] keys1.index_of(k) == keys0.index_of(k) by {
                        let j = keys0.index_of(k);
                        assert(keys0[j] == k);
                        lemma_unique_index(keys0, j);
                        lemma_unique_index(keys1, j);
                    }
                    assert forall|k: Name| #[trigger] keys1.contains(k) <==> (keys0.contains(k) || k == key@) by {
                        if keys1.contains(k) && k != key@ {
                            let j = choose|j: int| 0 <= j < keys1.len() && keys1[j] == k;
                            assert(keys0[j] == k);
                        }
                        if keys0.contains(k) {
                            let j = choose|j: int| 0 <= j < keys0.len() && keys0[j] == k;
                            assert(keys1[j] == k);
                        }
                        if k == key@ {
                            assert(keys1[keys0.len() as int] == k);
                        }
                    }
                    assert(Seq::<Name>::empty().push(module_id@) =~= seq![module_id@]);
                    assert(self.dependents_map() =~= d0.insert(key@, Seq::<Name>::empty().push(module_id@)));
                }
            },
        }
    }

    /// Records module `module_info` as a dependent of each module it
    /// depends on.
    pub fn record_dependencies(&mut self, module_info: &ModuleInfo)
        requires
            old(self).wf(),
        ensures
            final(self).wf(),
            final(self).state_map() == old(self).state_map(),
            final(self).instance_map() == old(self).instance_map(),
            final(self).dependents_map() == record_deps(
                old(self).dependents_map(),
                module_info.metadata.dependencies@,
                module_info.metadata.id@,
                module_info.metadata.dependencies@.len(),
            ),
    {
        let deps = &module_info.metadata.dependencies;
        let mut i: usize = 0;
        while i < deps.len()
            invariant
                self.wf(),
                i <= deps.len(),
                self.state_map() == old(self).state_map(),
                self.instance_map() == old(self).instance_map(),
                self.dependents_map() == record_deps(old(self).dependents_map(), deps@, module_info.metadata.id@, i as nat),
            decreases deps.len() - i,
        {
            self.add_dependent(deps[i].module_id.as_str(), module_info.id());
            i = i + 1;
        }
    }

    /// Removes module `module_id` from the dependents.
    pub fn remove_dependencies(&mut self, module_id: &str)
        requires
            old(self).wf(),
        ensures
            final(self).wf(),
            final(self).state_map() == old(self).state_map(),
            final(self).instance_map() == old(self).instance_map(),
            final(self).dependents_map() == drop_dependent(old(self).dependents_map(), module_id@),
    {
        let ghost d0 = self.dependents_map();
        let ghost keys0 = self.dep_keys.deep_view();
        let mut keys: Vec<String> = Vec::new();
        let mut lists: Vec<Vec<String>> = Vec::new();
        let mut i: usize = 0;
        proof {
            assert(keys.deep_view() =~= Seq::<Name>::empty());
        }
        while i < self.dep_keys.len()
            invariant
                self.wf(),
                self.dep_keys.deep_view() == keys0,
                d0 == self.dependents_map(),
                i <= self.dep_keys.len(),
                keys.len() == lists.len(),
                keys.deep_view().no_duplicates(),
                forall|x: int| 0 <= x < keys.len() ==> keys0.take(i as int).contains(#[trigger] keys.deep_view()[x]),
                forall|k: Name| #[trigger] keys.deep_view().contains(k) <==> (keys0.take(i as int).contains(k) && k != module_id@),
                forall|x: int| 0 <= x < keys.len() ==> (#[trigger] lists@[x]).deep_view() == without(d0[keys.deep_view()[x]], module_id@),
            decreases self.dep_keys.len() - i,
        {
            proof {
                lemma_unique_index(keys0, i as int);
                assert(keys0.take(i + 1) =~= keys0.take(i as int).push(keys0[i as int]));
            }
            if !str_eq(self.dep_keys[i].as_str(), module_id) {
                let filtered = super::dependency::names_without(&self.dep_lists[i], module_id);
                let ghost kv = keys.deep_view();
                keys.push(self.dep_keys[i].clone());
                lists.push(filtered);
                proof {
                    assert(keys.deep_view() =~= kv.push(keys0[i as int]));
                    assert(!kv.contains(keys0[i as int])) by {
                        if kv.contains(keys0[i as int]) {
                            assert(keys0.take(i as int).contains(keys0[i as int]));
                            let y = choose|y: int| 0 <= y < i && keys0.take(i as int)[y] == keys0[i as int];
                            assert(keys0[y] == keys0[i as int]);
                        }
                    }
                    assert forall|x: int| 0 <= x < keys.len() implies keys0.take(i + 1).contains(#[trigger] keys.deep_view()[x]) by {
                        if x < kv.len() {
                            let y = choose|y: int| 0 <= y < i && keys0.take(i as int)[y] == kv[x];
                            assert(keys0.take(i + 1)[y] == kv[x]);
                        } else {
                            assert(keys0.take(i + 1)[i as int] == keys.deep_view()[x]);
                        }
                    }
                    assert forall|k: Name| #[trigger] keys.deep_view().contains(k) <==> (keys0.take(i + 1).contains(k) && k != module_id@) by {
                        if keys0.take(i + 1).contains(k) && k != keys0[i as int] && k != module_id@ {
                            let y = choose|y: int| 0 <= y < i + 1 && #[trigger] keys0.take(i + 1)[y] == k;
                            assert(keys0.take(i as int)[y] == k);
                            assert(kv.contains(k));
                            let p = choose|p: int| 0 <= p < kv.len() && kv[p] == k;
                            assert(keys.deep_view()[p] == k);
                        }
                        if keys.deep_view().contains(k) && k != keys0[i as int] {
                            let p = choose|p: int| 0 <= p < keys.deep_view().len() && keys.deep_view()[p] == k;
                            assert(kv[p] == k);
                            assert(kv.contains(k));
                            let y = choose|y: int| 0 <= y < i && #[trigger] keys0.take(i as int)[y] == k;
                            assert(keys0.take(i + 1)[y] == k);
                        }
                        assert(keys0[i as int] != module_id@);
                        if k == keys0[i as int] {
                            assert(keys.deep_view()[kv.len() as int] == k);
                            assert(keys0.take(i + 1)[i as int] == k);
                        }
                    }
                }
            } else {
                proof {
                    assert forall|x: int| 0 <= x < keys.len() implies keys0.take(i + 1).contains(#[trigger] keys.deep_view()[x]) by {
                        let y = choose|y: int| 0 <= y < i && keys0.take(i as int)[y] == keys.deep_view()[x];
                        assert(keys0.take(i + 1)[y] == keys.deep_view()[x]);
                    }
                    assert forall|k: Name| #[trigger] keys.deep_view().contains(k) <==> (keys0.take(i + 1).contains(k) && k != module_id@) by {
                        if keys0.take(i + 1).contains(k) && k != module_id@ {
                            let y = choose|y: int| 0 <= y < i + 1 && #[trigger] keys0.take(i + 1)[y] == k;
                            assert(y < i);
                            assert(keys0.take(i as int)[y] == k);
                        }
                        if keys.deep_view().contains(k) {
                            assert(keys0.take(i as int).contains(k));
                            let y = choose|y: int| 0 <= y < i && #[trigger] keys0.take(i as int)[y] == k;
                            assert(keys0.take(i + 1)[y] == k);
                        }
                    }
                }
            }
            i = i + 1;
        }
        proof {
            assert(keys0.take(i as int) =~= keys0);
        }
        self.dep_keys = keys;
        self.dep_lists = lists;
        proof {
            let kn = self.dep_keys.deep_view();
            assert forall|k: Name| #[trigger] kn.contains(k) implies self.dep_lists@[kn.index_of(k)].deep_view() == without(d0[k], module_id@) by {
                let x = kn.index_of(k);
                assert(kn[x] == k);
            }
            assert(self.dependents_map() =~= drop_dependent(d0, module_id@));
        }
    }

    /// Checks that module `module_id` may be loaded and marks it loading.
    /// Fails with `ModuleAlreadyLoaded` when it is loaded or running, or
    /// with `ModuleLoadFailed` when it is being loaded; nothing changes
    /// then.
    pub fn begin_load(&mut self, module_id: &str) -> (r: Result<(), CoreError>)
        requires
            old(self).wf(),
        ensures
            final(self).wf(),
            final(self).instance_map() == old(self).instance_map(),
            final(self).dependents_map() == old(self).dependents_map(),
            ({
                let s = old(self).state_map();
                if s.contains_key(module_id@) && (s[module_id@] == ModuleState::Loaded || s[module_id@] == ModuleState::Running) {
                    (r matches Err(e) && e@ == ErrorView::ModuleAlreadyLoaded(module_id@)) && final(self).state_map() == s
                } else if s.contains_key(module_id@) && s[module_id@] == ModuleState::Loading {
                    (r matches Err(e) && e@ == ErrorView::ModuleLoadFailed { module_id: module_id@, reason: "模块正在加载中"@ })
                        && final(self).state_map() == s
                } else {
                    r is Ok && final(self).state_map() == s.insert(module_id@, ModuleState::Loading)
                }
            }),
    {
        match self.get_state(module_id) {
            Some(ModuleState::Loaded) | Some(ModuleState::Running) => {
                return Err(CoreError::ModuleAlreadyLoaded(module_id.to_owned()));
            },
            Some(ModuleState::Loading) => {
                return Err(
                    CoreError::ModuleLoadFailed {
                        module_id: module_id.to_owned(),
                        reason: String::from_str("模块正在加载中"),
                    },
                );
            },
            _ => {},
        }
        self.set_state(module_id, ModuleState::Loading);
        Ok(())
    }

    /// Records what the runtime answered when loading `module_info`: on
    /// success its instance in `runtime`, its dependencies, and state
    /// loaded; on failure with `reason`, state error and `ModuleLoadFailed`.
    pub fn finish_load(&mut self, module_info: &ModuleInfo, outcome: Result<Runtime, String>) -> (r: Result<(), CoreError>)
        requires
            old(self).wf(),
        ensures
            final(self).wf(),
            match outcome {
                Err(reason) => (r matches Err(e) && e@ == ErrorView::ModuleLoadFailed {
                    module_id: module_info.metadata.id@,
                    reason: reason@,
                }) && final(self).state_map() == old(self).state_map().insert(module_info.metadata.id@, ModuleState::Error)
                    && final(self).instance_map() == old(self).instance_map()
                    && final(self).dependents_map() == old(self).dependents_map(),
                Ok(rt) => r is Ok && final(self).state_map() == old(self).state_map().insert(
                    module_info.metadata.id@,
                    ModuleState::Loaded,
                ) && final(self).instance_map() == old(self).instance_map().insert(module_info.metadata.id@, rt)
                    && final(self).dependents_map() == record_deps(
                    old(self).dependents_map(),
                    module_info.metadata.dependencies@,
                    module_info.metadata.id@,
                    module_info.metadata.dependencies@.len(),
                ),
            },
    {
        let module_id = module_info.id();
        match outcome {
            Err(reason) => {
                self.set_state(module_id, ModuleState::Error);
                Err(CoreError::ModuleLoadFailed { module_id: module_id.to_owned(), reason })
            },
            Ok(rt) => {
                self.set_state(module_id, ModuleState::Loaded);
                self.set_instance(module_id, Some(rt));
                self.record_dependencies(module_info);
                Ok(())
            },
        }
    }

    /// Checks that module `module_id` may be unloaded and marks it
    /// unloading. Fails with `ModuleNotLoaded` when the loader does not
    /// know it, with `ModuleUnloadFailed` when its state does not allow
    /// unloading, or with `ModuleHasDependents` when modules depend on it;
    /// nothing changes then.
    pub fn begin_unload(&mut self, module_id: &str) -> (r: Result<(), CoreError>)
        requires
            old(self).wf(),
        ensures
            final(self).wf(),
            final(self).instance_map() == old(self).instance_map(),
            final(self).dependents_map() == old(self).dependents_map(),
            ({
                let s = old(self).state_map();
                let d: Seq<Name> = if old(self).dependents_map().contains_key(module_id@) {
                    old(self).dependents_map()[module_id@]
                } else {
                    Seq::empty()
                };
                if !s.contains_key(module_id@) {
                    (r matches Err(e) && e@ == ErrorView::ModuleNotLoaded(module_id@)) && final(self).state_map() == s
                } else if !(s[module_id@] == ModuleState::Loaded || s[module_id@] == ModuleState::Stopped || s[module_id@]
                    == ModuleState::Error) {
                    (r matches Err(e) && e@ == ErrorView::ModuleUnloadFailed {
                        module_id: module_id@,
                        reason: "模块状态 "@ + state_name(s[module_id@]) + " 不允许卸载"@,
                    }) && final(self).state_map() == s
                } else if d.len() > 0 {
                    (r matches Err(e) && e@ == ErrorView::ModuleHasDependents { module: module_id@, dependents: d })
                        && final(self).state_map() == s
                } else {
                    r is Ok && final(self).state_map() == s.insert(module_id@, ModuleState::Unloading)
                }
            }),
    {
        let state = match self.get_state(module_id) {
            None => {
                return Err(CoreError::ModuleNotLoaded(module_id.to_owned()));
            },
            Some(s) => s,
        };
        if !state.can_unload() {
            let name = state_name_of(state);
            let mut reason = String::from_str("模块状态 ");
            reason.append(name.as_str());
            reason.append(" 不允许卸载");
            return Err(CoreError::ModuleUnloadFailed { module_id: module_id.to_owned(), reason });
        }
        let dependents = self.get_dependents(module_id);
        if dependents.len() > 0 {
            return Err(CoreError::ModuleHasDependents { module: module_id.to_owned(), dependents });
        }
        self.set_state(module_id, ModuleState::Unloading);
        Ok(())
    }

    /// Records what the runtime answered when unloading `module_id`: on
    /// success its instance and its dependencies go and its state becomes
    /// unloaded; on failure with `reason`, state error and
    /// `ModuleUnloadFailed`.
    pub fn finish_unload(&mut self, module_id: &str, outcome: Result<(), String>) -> (r: Result<(), CoreError>)
        requires
            old(self).wf(),
        ensures
            final(self).wf(),
            match outcome {
                Err(reason) => (r matches Err(e) && e@ == ErrorView::ModuleUnloadFailed {
                    module_id: module_id@,
                    reason: reason@,
                }) && final(self).state_map() == old(self).state_map().insert(module_id@, ModuleState::Error)
                    && final(self).instance_map() == old(self).instance_map()
                    && final(self).dependents_map() == old(self).dependents_map(),
                Ok(()) => r is Ok && final(self).state_map() == old(self).state_map().insert(
                    module_id@,
                    ModuleState::Unloaded,
                ) && final(self).instance_map() == old(self).instance_map().remove(module_id@)
                    && final(self).dependents_map() == drop_dependent(old(self).dependents_map(), module_id@),
            },
    {
        match outcome {
            Err(reason) => {
                self.set_state(module_id, ModuleState::Error);
                Err(CoreError::ModuleUnloadFailed { module_id: module_id.to_owned(), reason })
            },
            Ok(()) => {
                self.set_state(module_id, ModuleState::Unloaded);
                self.set_instance(module_id, None);
                self.remove_dependencies(module_id);
                Ok(())
            },
        }
    }

    /// Loads `module_info` in the Rust runtime: [`ModuleLoader::begin_load`]
    /// then [`ModuleLoader::finish_load`] with the runtime's instance.
    pub fn load(&mut self, module_info: &ModuleInfo, runtime: &super::runtime::RustRuntimeManager) -> (r: Result<(), CoreError>)
        requires
            old(self).wf(),
        ensures
            final(self).wf(),
            ({
                let s = old(self).state_map();
                let id = module_info.metadata.id@;
                if s.contains_key(id) && (s[id] == ModuleState::Loaded || s[id] == ModuleState::Running) {
                    (r matches Err(e) && e@ == ErrorView::ModuleAlreadyLoaded(id)) && final(self).state_map() == s
                        && final(self).instance_map() == old(self).instance_map()
                        && final(self).dependents_map() == old(self).dependents_map()
                } else if s.contains_key(id) && s[id] == ModuleState::Loading {
                    (r matches Err(e) && e@ == ErrorView::ModuleLoadFailed { module_id: id, reason: "模块正在加载中"@ })
                        && final(self).state_map() == s
                        && final(self).instance_map() == old(self).instance_map()
                        && final(self).dependents_map() == old(self).dependents_map()
                } else {
                    r is Ok && final(self).state_map() == s.insert(id, ModuleState::Loaded)
                        && final(self).instance_map() == old(self).instance_map().insert(id, Runtime::Rust)
                        && final(self).dependents_map() == record_deps(
                        old(self).dependents_map(),
                        module_info.metadata.dependencies@,
                        id,
                        module_info.metadata.dependencies@.len(),
                    )
                }
            }),
    {
        match self.begin_load(module_info.id()) {
            Err(e) => Err(e),
            Ok(()) => {
                let inst = runtime.load_module(module_info);
                let r = self.finish_load(module_info, Ok(inst.runtime));
                proof {
                    assert(old(self).state_map().insert(module_info.metadata.id@, ModuleState::Loading).insert(
                        module_info.metadata.id@,
                        ModuleState::Loaded,
                    ) =~= old(self).state_map().insert(module_info.metadata.id@, ModuleState::Loaded));
                }
                r
            },
        }
    }

    /// Unloads `module_id` from the Rust runtime, which always succeeds:
    /// [`ModuleLoader::begin_unload`] then [`ModuleLoader::finish_unload`].
    pub fn unload(&mut self, module_id: &str, runtime: &super::runtime::RustRuntimeManager) -> (r: Result<(), CoreError>)
        requires
            old(self).wf(),
        ensures
            final(self).wf(),
            ({
                let s = old(self).state_map();
                let d: Seq<Name> = if old(self).dependents_map().contains_key(module_id@) {
                    old(self).dependents_map()[module_id@]
                } else {
                    Seq::empty()
                };
                if !s.contains_key(module_id@) {
                    (r matches Err(e) && e@ == ErrorView::ModuleNotLoaded(module_id@)) && final(self).state_map() == s
                        && final(self).instance_map() == old(self).instance_map()
                        && final(self).dependents_map() == old(self).dependents_map()
                } else if !(s[module_id@] == ModuleState::Loaded || s[module_id@] == ModuleState::Stopped || s[module_id@]
                    == ModuleState::Error) {
                    (r matches Err(e) && e@ == ErrorView::ModuleUnloadFailed {
                        module_id: module_id@,
                        reason: "模块状态 "@ + state_name(s[module_id@]) + " 不允许卸载"@,
                    }) && final(self).state_map() == s
                        && final(self).instance_map() == old(self).instance_map()
                        && final(self).dependents_map() == old(self).dependents_map()
                } else if d.len() > 0 {
                    (r matches Err(e) && e@ == ErrorView::ModuleHasDependents { module: module_id@, dependents: d })
                        && final(self).state_map() == s
                        && final(self).instance_map() == old(self).instance_map()
                        && final(self).dependents_map() == old(self).dependents_map()
                } else {
                    r is Ok && final(self).state_map() == s.insert(module_id@, ModuleState::Unloaded)
                        && final(self).instance_map() == old(self).instance_map().remove(module_id@)
                        && final(self).dependents_map() == drop_dependent(old(self).dependents_map(), module_id@)
                }
            }),
    {
        match self.begin_unload(module_id) {
            Err(e) => Err(e),
            Ok(()) => {
                let r = self.finish_unload(module_id, Ok(()));
                proof {
                    assert(old(self).state_map().insert(module_id@, ModuleState::Unloading).insert(
                        module_id@,
                        ModuleState::Unloaded,
                    ) =~= old(self).state_map().insert(module_id@, ModuleState::Unloaded));
                }
                r
            },
        }
    }
}

} // verus!
