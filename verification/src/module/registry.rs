//! The module registry: the modules the kernel knows, with their state.
//!
//! Reading a module's description file is left to the caller, who hands
//! the registry the parsed metadata. Times are milliseconds since the Unix
//! epoch.

use vstd::prelude::*;

use super::metadata::{ModuleInfo, ModuleMetadata, ModuleState};
use super::parser::{parser_problems, ModuleParser};
use crate::utils::clock::now_millis;
use crate::utils::error::{CoreError, ErrorView};
use crate::utils::text::{join, position_of, str_eq};

verus! {

/// The name of a module's description file.
pub const MODULE_CONFIG_FILENAME: &'static str = "module.yaml";

/// The ids of a list of modules.
pub open spec fn ids_of(s: Seq<ModuleInfo>) -> Seq<Seq<char>> {
    s.map_values(|m: ModuleInfo| m.metadata.id@)
}

/// The position of module `id` in `s`, if it is there.
pub open spec fn index_of_id(s: Seq<ModuleInfo>, id: Seq<char>) -> Option<int> {
    if ids_of(s).contains(id) {
        Some(ids_of(s).index_of(id))
    } else {
        None
    }
}

/// The modules the kernel knows, each once, in the order registered, and
/// the directories searched for modules.
pub struct ModuleRegistry {
    modules: Vec<ModuleInfo>,
    module_dirs: Vec<String>,
}

impl ModuleRegistry {
    /// The modules, in the order registered.
    pub closed spec fn entries(&self) -> Seq<ModuleInfo> {
        self.modules@
    }

    /// The directories searched for modules.
    pub closed spec fn dirs(&self) -> Seq<Seq<char>> {
        self.module_dirs.deep_view()
    }

    /// The invariant: no two modules share an id.
    pub closed spec fn wf(&self) -> bool {
        ids_of(self.modules@).no_duplicates()
    }

    /// No two registered modules share an id.
    pub proof fn lemma_unique_ids(&self)
        requires
            self.wf(),
        ensures
            ids_of(self.entries()).no_duplicates(),
    {
    }

    /// An empty registry searching `module_dirs`.
    pub fn new(module_dirs: Vec<String>) -> (r: Self)
        ensures
            r.wf(),
            r.entries().len() == 0,
            r.dirs() == module_dirs.deep_view(),
    {
        let r = ModuleRegistry { modules: Vec::new(), module_dirs };
        proof {
            assert(ids_of(r.modules@) =~= Seq::<Seq<char>>::empty());
        }
        r
    }

    /// An empty registry searching `./modules`.
    pub fn with_defaults() -> (r: Self)
        ensures
            r.wf(),
            r.entries().len() == 0,
            r.dirs() == seq!["./modules"@],
    {
        let mut dirs: Vec<String> = Vec::new();
        dirs.push(String::from_str("./modules"));
        proof {
            assert(dirs.deep_view() =~= seq!["./modules"@]);
        }
        Self::new(dirs)
    }

    /// The position of module `id`.
    fn find(&self, id: &str) -> (r: Option<usize>)
        requires
            self.wf(),
        ensures
            match r {
                Some(i) => index_of_id(self.entries(), id@) == Some(i as int) && i < self.entries().len(),
                None => index_of_id(self.entries(), id@) is None,
            },
    {
        let mut i: usize = 0;
        while i < self.modules.len()
            invariant
                self.wf(),
                i <= self.modules.len(),
                forall|j: int| 0 <= j < i ==> ids_of(self.modules@)[j] != id@,
            decreases self.modules.len() - i,
        {
            if str_eq(self.modules[i].metadata.id.as_str(), id) {
                proof {
                    let ids = ids_of(self.modules@);
                    assert(ids[i as int] == id@);
                    assert(ids.contains(id@));
                    let k = ids.index_of(id@);
                    assert(ids[k] == ids[i as int]);
                }
                return Some(i);
            }
            i = i + 1;
        }
        proof {
            let ids = ids_of(self.modules@);
            if ids.contains(id@) {
                let k = choose|k: int| 0 <= k < ids.len() && ids[k] == id@;
                assert(ids[k] != id@);
            }
        }
        None
    }

    /// Registers a module with `metadata` found at `path`, in state
    /// registered. Fails with `InvalidMetadata` when the metadata does not
    /// validate, or with `ModuleAlreadyLoaded` when a module with its id is
    /// registered; the registry is then left as it was.
    pub fn register_with_metadata(&mut self, metadata: ModuleMetadata, path: String) -> (r: Result<String, CoreError>)
        requires
            old(self).wf(),
        ensures
            final(self).wf(),
            final(self).dirs() == old(self).dirs(),
            parser_problems(metadata).len() > 0 ==> (r matches Err(e) && e@ == ErrorView::InvalidMetadata(
                join(parser_problems(metadata), "; "@),
            )) && final(self).entries() == old(self).entries(),
            parser_problems(metadata).len() == 0 && ids_of(old(self).entries()).contains(metadata.id@) ==> (r matches Err(
                e,
            ) && e@ == ErrorView::ModuleAlreadyLoaded(metadata.id@)) && final(self).entries() == old(self).entries(),
            parser_problems(metadata).len() == 0 && !ids_of(old(self).entries()).contains(metadata.id@) ==> (r matches Ok(
                id,
            ) && id@ == metadata.id@) && final(self).entries() == old(self).entries().push(ModuleInfo {
                metadata,
                state: ModuleState::Registered,
                path,
                loaded_at: None,
                started_at: None,
                last_error: None,
            }),
    {
        match ModuleParser::validate(&metadata) {
            Err(e) => {
                return Err(e);
            },
            Ok(()) => {},
        }
        let module_id = metadata.id.clone();
        if self.find(module_id.as_str()).is_some() {
            return Err(CoreError::ModuleAlreadyLoaded(module_id));
        }
        let ghost s0 = self.modules@;
        self.modules.push(ModuleInfo::new(metadata, path));
        proof {
            assert(ids_of(self.modules@) =~= ids_of(s0).push(module_id@));
        }
        Ok(module_id)
    }

    /// Removes module `module_id`. Fails with `ModuleNotFound` when it is
    /// not registered, or with `ModuleUnloadFailed` when it is running; the
    /// registry is then left as it was.
    pub fn unregister(&mut self, module_id: &str) -> (r: Result<(), CoreError>)
        requires
            old(self).wf(),
        ensures
            final(self).wf(),
            final(self).dirs() == old(self).dirs(),
            match index_of_id(old(self).entries(), module_id@) {
                None => (r matches Err(e) && e@ == ErrorView::ModuleNotFound(module_id@)) && final(self).entries()
                    == old(self).entries(),
                Some(i) => if old(self).entries()[i].state == ModuleState::Running {
                    (r matches Err(e) && e@ == ErrorView::ModuleUnloadFailed {
                        module_id: module_id@,
                        reason: "模块正在运行中，请先停止模块"@,
                    }) && final(self).entries() == old(self).entries()
                } else {
                    r is Ok && final(self).entries() == old(self).entries().remove(i)
                },
            },
    {
        match self.find(module_id) {
            None => Err(CoreError::ModuleNotFound(module_id.to_owned())),
            Some(i) => {
                if self.modules[i].state == ModuleState::Running {
                    return Err(
                        CoreError::ModuleUnloadFailed {
                            module_id: module_id.to_owned(),
                            reason: String::from_str("模块正在运行中，请先停止模块"),
                        },
                    );
                }
                let ghost s0 = self.modules@;
                self.modules.remove(i);
                proof {
                    assert(ids_of(self.modules@) =~= ids_of(s0).remove(i as int));
                    assert(ids_of(self.modules@).no_duplicates()) by {
                        assert forall|a: int, b: int| 0 <= a < b < ids_of(self.modules@).len() implies ids_of(
                            self.modules@,
                        )[a] != ids_of(self.modules@)[b] by {
                            let a0 = if a < i { a } else { a + 1 };
                            let b0 = if b < i { b } else { b + 1 };
                            assert(ids_of(self.modules@)[a] == ids_of(s0)[a0]);
                            assert(ids_of(self.modules@)[b] == ids_of(s0)[b0]);
                        }
                    }
                }
                Ok(())
            },
        }
    }

    /// Module `module_id`, if registered.
    pub fn get_module(&self, module_id: &str) -> (r: Option<&ModuleInfo>)
        requires
            self.wf(),
        ensures
            match index_of_id(self.entries(), module_id@) {
                Some(i) => r == Some(&self.entries()[i]),
                None => r is None,
            },
    {
        match self.find(module_id) {
            Some(i) => Some(&self.modules[i]),
            None => None,
        }
    }

    /// The metadata of module `module_id`, if registered.
    pub fn get_metadata(&self, module_id: &str) -> (r: Option<&ModuleMetadata>)
        requires
            self.wf(),
        ensures
            match index_of_id(self.entries(), module_id@) {
                Some(i) => r == Some(&self.entries()[i].metadata),
                None => r is None,
            },
    {
        match self.find(module_id) {
            Some(i) => Some(&self.modules[i].metadata),
            None => None,
        }
    }

    /// The registered modules, in the order registered.
    pub fn list_modules(&self) -> (r: &Vec<ModuleInfo>)
        ensures
            r@ == self.entries(),
    {
        &self.modules
    }

    /// The state of module `module_id`, if registered.
    pub fn get_state(&self, module_id: &str) -> (r: Option<ModuleState>)
        requires
            self.wf(),
        ensures
            match index_of_id(self.entries(), module_id@) {
                Some(i) => r == Some(self.entries()[i].state),
                None => r is None,
            },
    {
        match self.find(module_id) {
            Some(i) => Some(self.modules[i].state),
            None => None,
        }
    }

    /// Sets the state of module `module_id` at time `now`: entering loaded
    /// records the load time, entering running the start time. Fails with
    /// `ModuleNotFound`, changing nothing, when it is not registered.
    pub fn set_state_at(&mut self, module_id: &str, state: ModuleState, now: i64) -> (r: Result<(), CoreError>)
        requires
            old(self).wf(),
        ensures
            final(self).wf(),
            final(self).dirs() == old(self).dirs(),
            match index_of_id(old(self).entries(), module_id@) {
                None => (r matches Err(e) && e@ == ErrorView::ModuleNotFound(module_id@)) && final(self).entries()
                    == old(self).entries(),
                Some(i) => r is Ok && final(self).entries() == old(self).entries().update(
                    i,
                    ModuleInfo {
                        state,
                        loaded_at: if state == ModuleState::Loaded { Some(now) } else { old(self).entries()[i].loaded_at },
                        started_at: if state == ModuleState::Running { Some(now) } else { old(self).entries()[i].started_at },
                        ..old(self).entries()[i]
                    },
                ),
            },
    {
        match self.find(module_id) {
            None => Err(CoreError::ModuleNotFound(module_id.to_owned())),
            Some(i) => {
                let ghost s0 = self.modules@;
                let mut info = self.modules.remove(i);
                info.state = state;
                if state == ModuleState::Loaded {
                    info.loaded_at = Some(now);
                }
                if state == ModuleState::Running {
                    info.started_at = Some(now);
                }
                self.modules.insert(i, info);
                proof {
                    assert(self.modules@ =~= s0.update(i as int, info));
                    assert(ids_of(self.modules@) =~= ids_of(s0));
                }
                Ok(())
            },
        }
    }

    /// Sets the state of module `module_id` now (see
    /// [`ModuleRegistry::set_state_at`]).
    pub fn set_state(&mut self, module_id: &str, state: ModuleState) -> (r: Result<(), CoreError>)
        requires
            old(self).wf(),
        ensures
            final(self).wf(),
            final(self).dirs() == old(self).dirs(),
            match index_of_id(old(self).entries(), module_id@) {
                None => (r matches Err(e) && e@ == ErrorView::ModuleNotFound(module_id@)) && final(self).entries()
                    == old(self).entries(),
                Some(i) => r is Ok && final(self).entries().len() == old(self).entries().len()
                    && final(self).entries()[i].state == state && final(self).entries()[i].metadata == old(
                    self,
                ).entries()[i].metadata && forall|j: int|
                    0 <= j < old(self).entries().len() && j != i ==> #[trigger] final(self).entries()[j] == old(
                        self,
                    ).entries()[j],
            },
    {
        self.set_state_at(module_id, state, now_millis())
    }

    /// Marks module `module_id` failed with `error`. Fails with
    /// `ModuleNotFound`, changing nothing, when it is not registered.
    pub fn set_error(&mut self, module_id: &str, error: &str) -> (r: Result<(), CoreError>)
        requires
            old(self).wf(),
        ensures
            final(self).wf(),
            final(self).dirs() == old(self).dirs(),
            match index_of_id(old(self).entries(), module_id@) {
                None => (r matches Err(e) && e@ == ErrorView::ModuleNotFound(module_id@)) && final(self).entries()
                    == old(self).entries(),
                Some(i) => r is Ok && final(self).entries().len() == old(self).entries().len()
                    && final(self).entries()[i] == (ModuleInfo {
                        state: ModuleState::Error,
                        last_error: final(self).entries()[i].last_error,
                        ..old(self).entries()[i]
                    }) && (final(self).entries()[i].last_error matches Some(m) && m@ == error@) && forall|j: int|
                    0 <= j < old(self).entries().len() && j != i ==> #[trigger] final(self).entries()[j] == old(
                        self,
                    ).entries()[j],
            },
    {
        match self.find(module_id) {
            None => Err(CoreError::ModuleNotFound(module_id.to_owned())),
            Some(i) => {
                let ghost s0 = self.modules@;
                let mut info = self.modules.remove(i);
                info.state = ModuleState::Error;
                info.last_error = Some(error.to_owned());
                self.modules.insert(i, info);
                proof {
                    assert(self.modules@ =~= s0.update(i as int, info));
                    assert(ids_of(self.modules@) =~= ids_of(s0));
                }
                Ok(())
            },
        }
    }

    /// Whether module `module_id` is registered.
    pub fn contains_module(&self, module_id: &str) -> (r: bool)
        requires
            self.wf(),
        ensures
            r == ids_of(self.entries()).contains(module_id@),
    {
        self.find(module_id).is_some()
    }

    /// The modules in `state`, in the order registered.
    pub fn find_by_state(&self, state: ModuleState) -> (r: Vec<&ModuleInfo>)
        ensures
            referenced(r@) == in_state(self.entries(), state, self.entries().len() as nat),
    {
        let mut r: Vec<&ModuleInfo> = Vec::new();
        let mut i: usize = 0;
        proof {
            assert(referenced(r@) =~= Seq::<ModuleInfo>::empty());
        }
        while i < self.modules.len()
            invariant
                i <= self.modules.len(),
                referenced(r@) == in_state(self.modules@, state, i as nat),
            decreases self.modules.len() - i,
        {
            if self.modules[i].state == state {
                let ghost before = r@;
                r.push(&self.modules[i]);
                proof {
                    assert(referenced(r@) =~= referenced(before).push(self.modules@[i as int]));
                }
            }
            i = i + 1;
        }
        r
    }

    /// The running modules, in the order registered.
    pub fn get_running_modules(&self) -> (r: Vec<&ModuleInfo>)
        ensures
            referenced(r@) == in_state(self.entries(), ModuleState::Running, self.entries().len() as nat),
    {
        self.find_by_state(ModuleState::Running)
    }

    /// How many modules are registered.
    pub fn count(&self) -> (r: usize)
        ensures
            r == self.entries().len(),
    {
        self.modules.len()
    }

    /// Forgets every module.
    pub fn clear(&mut self)
        ensures
            final(self).wf(),
            final(self).entries().len() == 0,
            final(self).dirs() == old(self).dirs(),
    {
        self.modules.clear();
        proof {
            assert(ids_of(self.modules@) =~= Seq::<Seq<char>>::empty());
        }
    }

    /// The directories searched for modules.
    pub fn module_dirs(&self) -> (r: &Vec<String>)
        ensures
            r.deep_view() == self.dirs(),
    {
        &self.module_dirs
    }

    /// Adds directory `dir` unless it is searched already.
    pub fn add_module_dir(&mut self, dir: &str)
        requires
            old(self).wf(),
        ensures
            final(self).wf(),
            final(self).entries() == old(self).entries(),
            final(self).dirs() == if old(self).dirs().contains(dir@) { old(self).dirs() } else { old(self).dirs().push(dir@) },
    {
        if position_of(&self.module_dirs, dir).is_none() {
            let ghost d0 = self.module_dirs.deep_view();
            self.module_dirs.push(dir.to_owned());
            proof {
                assert(self.module_dirs.deep_view() =~= d0.push(dir@));
            }
        }
    }

    /// The ids of the registered modules, in the order registered.
    pub fn get_all_module_ids(&self) -> (r: Vec<String>)
        ensures
            r.deep_view() == ids_of(self.entries()),
    {
        let mut r: Vec<String> = Vec::new();
        let mut i: usize = 0;
        while i < self.modules.len()
            invariant
                i <= self.modules.len(),
                r.deep_view() =~= ids_of(self.modules@).take(i as int),
            decreases self.modules.len() - i,
        {
            r.push(self.modules[i].metadata.id.clone());
            proof {
                assert(ids_of(self.modules@).take(i + 1) =~= ids_of(self.modules@).take(i as int).push(
                    self.modules@[i as int].metadata.id@,
                ));
            }
            i = i + 1;
        }
        proof {
            assert(ids_of(self.modules@).take(i as int) =~= ids_of(self.modules@));
        }
        r
    }

    /// The states of the listed modules that are registered, in the order
    /// listed.
    pub fn get_states(&self, module_ids: &[String]) -> (r: Vec<(String, ModuleState)>)
        requires
            self.wf(),
        ensures
            r@.map_values(|p: (String, ModuleState)| (p.0@, p.1)) == states_of(self.entries(), module_ids@, module_ids@.len() as nat),
    {
        let mut r: Vec<(String, ModuleState)> = Vec::new();
        let mut i: usize = 0;
        proof {
            assert(r@.map_values(|p: (String, ModuleState)| (p.0@, p.1)) =~= Seq::<(Seq<char>, ModuleState)>::empty());
        }
        while i < module_ids.len()
            invariant
                self.wf(),
                i <= module_ids.len(),
                r@.map_values(|p: (String, ModuleState)| (p.0@, p.1)) == states_of(self.entries(), module_ids@, i as nat),
            decreases module_ids.len() - i,
        {
            match self.get_state(module_ids[i].as_str()) {
                Some(s) => {
                    let ghost before = r@;
                    r.push((module_ids[i].clone(), s));
                    proof {
                        assert(r@.map_values(|p: (String, ModuleState)| (p.0@, p.1)) =~= before.map_values(
                            |p: (String, ModuleState)| (p.0@, p.1),
                        ).push((module_ids@[i as int]@, s)));
                    }
                },
                None => {},
            }
            i = i + 1;
        }
        r
    }
}

/// The first `n` modules of `s` that are in `state`, in order.
pub open spec fn in_state(s: Seq<ModuleInfo>, state: ModuleState, n: nat) -> Seq<ModuleInfo>
    decreases n,
{
    if n == 0 || n > s.len() {
        Seq::empty()
    } else {
        let r = in_state(s, state, (n - 1) as nat);
        if s[n - 1].state == state { r.push(s[n - 1]) } else { r }
    }
}

/// The modules a list of references points to.
pub open spec fn referenced(r: Seq<&ModuleInfo>) -> Seq<ModuleInfo> {
    r.map_values(|m: &ModuleInfo| *m)
}

/// The states of the first `n` listed modules that are registered.
pub open spec fn states_of(s: Seq<ModuleInfo>, ids: Seq<String>, n: nat) -> Seq<(Seq<char>, ModuleState)>
    decreases n,
{
    if n == 0 || n > ids.len() {
        Seq::empty()
    } else {
        let r = states_of(s, ids, (n - 1) as nat);
        match index_of_id(s, ids[n - 1]@) {
            Some(i) => r.push((ids[n - 1]@, s[i].state)),
            None => r,
        }
    }
}

/// Unregistering a module just registered gives the registry back: the
/// new module is found last, and removing it leaves the modules as they
/// were.
pub proof fn lemma_unregister_undoes_register(before: Seq<ModuleInfo>, info: ModuleInfo)
    requires
        !ids_of(before).contains(info.metadata.id@),
    ensures
        index_of_id(before.push(info), info.metadata.id@) == Some(before.len() as int),
        before.push(info).remove(before.len() as int) == before,
{
    let after = before.push(info);
    let ids = ids_of(after);
    assert(ids =~= ids_of(before).push(info.metadata.id@));
    assert(ids[before.len() as int] == info.metadata.id@);
    let p = ids.index_of(info.metadata.id@);
    assert(ids[p] == info.metadata.id@);
    if p != before.len() {
        assert(ids_of(before)[p] == info.metadata.id@);
    }
    assert(after.remove(before.len() as int) =~= before);
}

} // verus!
