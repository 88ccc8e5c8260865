//! Validation of module metadata read from a module's description file,
//! and the formats of module ids, permissions and action names.

use vstd::prelude::*;

use super::metadata::{Dependency, ModuleMetadata};
use super::version::{is_valid_req, is_valid_version, req_parse_error, version_parse_error};
use crate::utils::error::CoreError;
use crate::utils::text::{
    ascii_alnum, ascii_letter, chars_of, decimal, decimal_string, is_ascii_alnum, is_ascii_letter,
    join, join_names,
};

verus! {

/// `s` cut at each occurrence of `sep`, as `str::split` does: `n`
/// occurrences give `n + 1` parts, some of which may be empty.
pub open spec fn split_on(s: Seq<char>, sep: char) -> Seq<Seq<char>>
    decreases s.len(),
{
    if s.len() == 0 {
        seq![Seq::empty()]
    } else {
        let p = split_on(s.drop_last(), sep);
        if s.last() == sep {
            p.push(Seq::empty())
        } else {
            p.update(p.len() - 1, p.last().push(s.last()))
        }
    }
}

/// An identifier: a letter or `_`, then letters, digits and `_`.
pub open spec fn is_identifier(s: Seq<char>) -> bool {
    &&& s.len() > 0
    &&& (is_ascii_letter(s[0]) || s[0] == '_')
    &&& forall|i: int| 0 <= i < s.len() ==> #[trigger] is_ascii_alnum(s[i]) || s[i] == '_'
}

/// A module id: a letter, then letters, digits, `_` and `-`.
pub open spec fn is_module_id(s: Seq<char>) -> bool {
    &&& s.len() > 0
    &&& is_ascii_letter(s[0])
    &&& forall|i: int| 0 <= i < s.len() ==> #[trigger] is_ascii_alnum(s[i]) || s[i] == '_' || s[i] == '-'
}

/// A permission: `name`, `domain.action` or `domain.*`, each part an
/// identifier.
pub open spec fn is_permission(s: Seq<char>) -> bool {
    let parts = split_on(s, '.');
    &&& s.len() > 0
    &&& (parts.len() == 1 && is_identifier(parts[0]) || parts.len() == 2 && is_identifier(parts[0]) && (
    parts[1] == seq!['*'] || is_identifier(parts[1])))
}

/// An action name: identifiers joined by dots.
pub open spec fn is_action_name(s: Seq<char>) -> bool {
    &&& s.len() > 0
    &&& forall|i: int| 0 <= i < split_on(s, '.').len() ==> is_identifier(#[trigger] split_on(s, '.')[i])
}

/// The messages for the dependency at 1-based position `pos`, given whether
/// its requirement parses.
pub open spec fn dependency_messages(d: Dependency, req_parses: bool, pos: nat) -> Seq<Seq<char>> {
    let a: Seq<Seq<char>> = if d.module_id@.len() == 0 {
        seq!["第 "@ + decimal(pos) + " 个依赖的模块 ID 不能为空"@]
    } else {
        Seq::empty()
    };
    let b: Seq<Seq<char>> = if d.version@.len() == 0 {
        seq!["依赖 '"@ + d.module_id@ + "' 的版本要求不能为空"@]
    } else if !req_parses {
        seq![
            "依赖 '"@ + d.module_id@ + "' 的版本要求格式无效: '"@ + d.version@
                + "', 请使用 semver 范围格式 (如 ^1.0.0)"@,
        ]
    } else {
        Seq::empty()
    };
    a + b
}

/// The messages for the first `n` dependencies.
pub open spec fn dependencies_messages(deps: Seq<Dependency>, reqs: Seq<bool>, n: nat) -> Seq<Seq<char>>
    decreases n,
{
    if n == 0 {
        Seq::empty()
    } else {
        dependencies_messages(deps, reqs, (n - 1) as nat) + dependency_messages(
            deps[n - 1],
            reqs[n - 1],
            n,
        )
    }
}

/// The messages for the first `n` requested permissions.
pub open spec fn permission_messages(perms: Seq<Seq<char>>, n: nat) -> Seq<Seq<char>>
    decreases n,
{
    if n == 0 {
        Seq::empty()
    } else {
        let p = perms[n - 1];
        let rest = permission_messages(perms, (n - 1) as nat);
        if is_permission(p) {
            rest
        } else {
            rest.push("无效的权限声明格式: '"@ + p + "'"@)
        }
    }
}

/// The messages for the first `n` provided actions.
pub open spec fn action_messages(actions: Seq<Seq<char>>, n: nat) -> Seq<Seq<char>>
    decreases n,
{
    if n == 0 {
        Seq::empty()
    } else {
        let a = actions[n - 1];
        let rest = action_messages(actions, (n - 1) as nat);
        if is_action_name(a) {
            rest
        } else {
            rest.push("无效的 action 名称格式: '"@ + a + "', 推荐使用 domain.action 格式"@)
        }
    }
}

/// The problems of `m`'s id, name, version and entry path, given whether its
/// version parses.
pub open spec fn basic_problems(m: ModuleMetadata, version_parses: bool) -> Seq<Seq<char>> {
    let id: Seq<Seq<char>> = if m.id@.len() == 0 {
        seq!["模块 ID 不能为空"@]
    } else if !is_module_id(m.id@) {
        seq!["模块 ID '"@ + m.id@ + "' 格式无效，只允许字母、数字、下划线和连字符"@]
    } else {
        Seq::empty()
    };
    let name: Seq<Seq<char>> = if m.name@.len() == 0 { seq!["模块名称不能为空"@] } else { Seq::empty() };
    let version: Seq<Seq<char>> = if m.version@.len() == 0 {
        seq!["模块版本号不能为空"@]
    } else if !version_parses {
        seq!["无效的版本号格式 '"@ + m.version@ + "', 请使用 semver 格式 (如 1.0.0)"@]
    } else {
        Seq::empty()
    };
    let entry: Seq<Seq<char>> = if m.entry.path@.len() == 0 {
        seq!["入口文件路径不能为空"@]
    } else {
        Seq::empty()
    };
    id + name + version + entry
}

/// The problem of `m`'s lowest kernel version, given whether it parses.
pub open spec fn compat_problems(m: ModuleMetadata, min_core_parses: bool) -> Seq<Seq<char>> {
    match m.compatibility.min_core_version {
        Some(v) => if min_core_parses {
            Seq::empty()
        } else {
            seq!["最低内核版本格式无效: '"@ + v@ + "'"@]
        },
        None => Seq::empty(),
    }
}

/// Every problem of `m`, in the order the checks run, given whether its
/// version parses, whether each dependency's requirement parses, and whether
/// its lowest kernel version (if any) parses as a requirement.
pub open spec fn problems_given(
    m: ModuleMetadata,
    version_parses: bool,
    reqs: Seq<bool>,
    min_core_parses: bool,
) -> Seq<Seq<char>> {
    basic_problems(m, version_parses) + dependencies_messages(m.dependencies@, reqs, m.dependencies@.len())
        + permission_messages(m.permissions.requested.deep_view(), m.permissions.requested@.len())
        + compat_problems(m, min_core_parses) + action_messages(
        m.interfaces.provides.deep_view(),
        m.interfaces.provides@.len(),
    )
}

/// Whether each dependency's requirement parses.
pub open spec fn requirement_outcomes(deps: Seq<Dependency>) -> Seq<bool> {
    Seq::new(deps.len(), |i: int| req_parse_error(deps[i].version@) is None)
}

/// Every problem `ModuleParser::validate` finds in `m`, in order.
pub open spec fn parser_problems(m: ModuleMetadata) -> Seq<Seq<char>> {
    problems_given(
        m,
        version_parse_error(m.version@) is None,
        requirement_outcomes(m.dependencies@),
        match m.compatibility.min_core_version {
            Some(v) => req_parse_error(v@) is None,
            None => true,
        },
    )
}

/// Checks module metadata and the formats of the names it declares.
#[derive(Debug, Clone, Copy)]
pub struct ModuleParser;

/// `s` followed by `t`, as a new string.
fn cat(s: &str, t: &str) -> (r: String)
    ensures
        r@ == s@ + t@,
{
    let mut r = String::from_str(s);
    r.append(t);
    r
}

proof fn lemma_chars_deep_view(v: Vec<char>)
    ensures
        v.deep_view() == v@,
{
    assert(v.deep_view() =~= v@);
}

/// The characters of `s` cut at each `sep`.
pub(crate) fn split_chars(s: &str, sep: char) -> (r: Vec<Vec<char>>)
    ensures
        r.deep_view() == split_on(s@, sep),
{
    let cs = chars_of(s);
    let mut parts: Vec<Vec<char>> = Vec::new();
    parts.push(Vec::new());
    proof {
        assert(cs@.take(0) =~= Seq::<char>::empty());
        lemma_chars_deep_view(parts@[0]);
        assert(parts.deep_view() =~= seq![Seq::<char>::empty()]);
    }
    let mut i: usize = 0;
    while i < cs.len()
        invariant
            cs@ == s@,
            i <= cs.len(),
            parts.len() >= 1,
            parts.deep_view() == split_on(cs@.take(i as int), sep),
        decreases cs.len() - i,
    {
        proof {
            assert(cs@.take(i + 1).drop_last() =~= cs@.take(i as int));
            assert(cs@.take(i + 1).last() == cs@[i as int]);
        }
        if cs[i] == sep {
            let ghost before = parts.deep_view();
            parts.push(Vec::new());
            proof {
                lemma_chars_deep_view(parts@[parts.len() - 1]);
                assert(parts.deep_view() =~= before.push(Seq::<char>::empty()));
                assert(parts.deep_view() =~= split_on(cs@.take(i + 1), sep));
            }
        } else {
            let last = parts.len() - 1;
            let ghost before = parts.deep_view();
            let mut tail = parts.pop().unwrap();
            proof {
                lemma_chars_deep_view(tail);
                assert(tail@ == before[last as int]);
                assert(parts.deep_view() =~= before.drop_last());
            }
            tail.push(cs[i]);
            let ghost tv = tail@;
            proof {
                lemma_chars_deep_view(tail);
            }
            parts.push(tail);
            proof {
                assert(parts.deep_view() =~= before.drop_last().push(tv));
                assert(parts.deep_view() =~= before.update(last as int, before[last as int].push(cs@[i as int])));
                assert(parts.deep_view() =~= split_on(cs@.take(i + 1), sep));
            }
        }
        i = i + 1;
    }
    proof {
        assert(cs@.take(cs.len() as int) =~= cs@);
    }
    parts
}

/// Whether `cs` is an identifier.
fn identifier_chars(cs: &Vec<char>) -> (r: bool)
    ensures
        r == is_identifier(cs@),
{
    if cs.len() == 0 {
        return false;
    }
    if !(ascii_letter(cs[0]) || cs[0] == '_') {
        return false;
    }
    let mut i: usize = 0;
    while i < cs.len()
        invariant
            i <= cs.len(),
            forall|j: int| 0 <= j < i ==> #[trigger] is_ascii_alnum(cs@[j]) || cs@[j] == '_',
        decreases cs.len() - i,
    {
        if !(ascii_alnum(cs[i]) || cs[i] == '_') {
            return false;
        }
        i = i + 1;
    }
    true
}

impl ModuleParser {
    /// A parser.
    pub fn new() -> (r: Self) {
        ModuleParser
    }

    /// Whether `id` is a valid module id: a letter, then letters, digits,
    /// `_` and `-`.
    pub fn is_valid_module_id(id: &str) -> (r: bool)
        ensures
            r == is_module_id(id@),
    {
        let cs = chars_of(id);
        if cs.len() == 0 {
            return false;
        }
        if !ascii_letter(cs[0]) {
            return false;
        }
        let mut i: usize = 0;
        while i < cs.len()
            invariant
                cs@ == id@,
                i <= cs.len(),
                forall|j: int| 0 <= j < i ==> #[trigger] is_ascii_alnum(cs@[j]) || cs@[j] == '_' || cs@[j] == '-',
            decreases cs.len() - i,
        {
            if !(ascii_alnum(cs[i]) || cs[i] == '_' || cs[i] == '-') {
                return false;
            }
            i = i + 1;
        }
        true
    }

    /// Whether `s` is an identifier: a letter or `_`, then letters, digits
    /// and `_`.
    pub fn is_valid_identifier(s: &str) -> (r: bool)
        ensures
            r == is_identifier(s@),
    {
        let cs = chars_of(s);
        identifier_chars(&cs)
    }

    /// Whether `permission` is `name`, `domain.action` or `domain.*`.
    pub fn is_valid_permission(permission: &str) -> (r: bool)
        ensures
            r == is_permission(permission@),
    {
        if permission.is_empty() {
            return false;
        }
        let parts = split_chars(permission, '.');
        proof {
            assert(parts.deep_view().len() == parts.len());
        }
        if parts.len() == 1 {
            proof {
                assert(parts.deep_view()[0] == parts@[0]@);
            }
            identifier_chars(&parts[0])
        } else if parts.len() == 2 {
            proof {
                assert(parts.deep_view()[0] == parts@[0]@);
                assert(parts.deep_view()[1] == parts@[1]@);
            }
            if !identifier_chars(&parts[0]) {
                return false;
            }
            let second = &parts[1];
            if second.len() == 1 && second[0] == '*' {
                proof {
                    assert(second@ =~= seq!['*']);
                }
                return true;
            }
            proof {
                if second@ == seq!['*'] {
                    assert(second@.len() == 1 && second@[0] == '*');
                }
            }
            identifier_chars(second)
        } else {
            false
        }
    }

    /// Whether `action` is identifiers joined by dots.
    pub fn is_valid_action_name(action: &str) -> (r: bool)
        ensures
            r == is_action_name(action@),
    {
        if action.is_empty() {
            return false;
        }
        let parts = split_chars(action, '.');
        let mut i: usize = 0;
        while i < parts.len()
            invariant
                parts.deep_view() == split_on(action@, '.'),
                i <= parts.len(),
                forall|j: int| 0 <= j < i ==> is_identifier(#[trigger] split_on(action@, '.')[j]),
            decreases parts.len() - i,
        {
            proof {
                assert(parts.deep_view()[i as int] == parts@[i as int]@);
            }
            if !identifier_chars(&parts[i]) {
                return false;
            }
            i = i + 1;
        }
        true
    }

    /// Every problem of `metadata`, given whether its version parses,
    /// whether each dependency's requirement parses, and whether its lowest
    /// kernel version (if any) parses as a requirement.
    pub fn problems(
        metadata: &ModuleMetadata,
        version_parses: bool,
        reqs: &Vec<bool>,
        min_core_parses: bool,
    ) -> (r: Vec<String>)
        requires
            reqs.len() == metadata.dependencies.len(),
        ensures
            r.deep_view() == problems_given(*metadata, version_parses, reqs@, min_core_parses),
    {
        let mut errors: Vec<String> = Vec::new();
        if metadata.id.as_str().is_empty() {
            errors.push(String::from_str("模块 ID 不能为空"));
        } else if !Self::is_valid_module_id(metadata.id.as_str()) {
            let m = cat("模块 ID '", metadata.id.as_str());
            errors.push(cat(m.as_str(), "' 格式无效，只允许字母、数字、下划线和连字符"));
        }
        if metadata.name.as_str().is_empty() {
            errors.push(String::from_str("模块名称不能为空"));
        }
        if metadata.version.as_str().is_empty() {
            errors.push(String::from_str("模块版本号不能为空"));
        } else if !version_parses {
            let m = cat("无效的版本号格式 '", metadata.version.as_str());
            errors.push(cat(m.as_str(), "', 请使用 semver 格式 (如 1.0.0)"));
        }
        if metadata.entry.path.as_str().is_empty() {
            errors.push(String::from_str("入口文件路径不能为空"));
        }
        let ghost head = errors.deep_view();
        proof {
            assert(head =~= basic_problems(*metadata, version_parses));
        }
        let deps = &metadata.dependencies;
        let mut i: usize = 0;
        while i < deps.len()
            invariant
                deps == metadata.dependencies,
                reqs.len() == deps.len(),
                i <= deps.len(),
                errors.deep_view() == head + dependencies_messages(deps@, reqs@, i as nat),
            decreases deps.len() - i,
        {
            let d = &deps[i];
            let ghost before = errors.deep_view();
            if d.module_id.as_str().is_empty() {
                let pos = decimal_string((i as u64) + 1);
                let m = cat("第 ", pos.as_str());
                errors.push(cat(m.as_str(), " 个依赖的模块 ID 不能为空"));
            }
            let ghost mid = errors.deep_view();
            if d.version.as_str().is_empty() {
                let m = cat("依赖 '", d.module_id.as_str());
                errors.push(cat(m.as_str(), "' 的版本要求不能为空"));
            } else if !reqs[i] {
                let m1 = cat("依赖 '", d.module_id.as_str());
                let m2 = cat(m1.as_str(), "' 的版本要求格式无效: '");
                let m3 = cat(m2.as_str(), d.version.as_str());
                errors.push(cat(m3.as_str(), "', 请使用 semver 范围格式 (如 ^1.0.0)"));
            }
            proof {
                assert(((i as u64) + 1) as nat == (i + 1) as nat);
                assert(errors.deep_view() =~= before + dependency_messages(deps@[i as int], reqs@[i as int], (i + 1) as nat));
                assert(dependencies_messages(deps@, reqs@, (i + 1) as nat) == dependencies_messages(deps@, reqs@, i as nat)
                    + dependency_messages(deps@[i as int], reqs@[i as int], (i + 1) as nat));
                assert(errors.deep_view() =~= head + dependencies_messages(deps@, reqs@, (i + 1) as nat));
            }
            i = i + 1;
        }
        let ghost head2 = errors.deep_view();
        let perms = &metadata.permissions.requested;
        let mut k: usize = 0;
        while k < perms.len()
            invariant
                perms == metadata.permissions.requested,
                k <= perms.len(),
                errors.deep_view() == head2 + permission_messages(perms.deep_view(), k as nat),
            decreases perms.len() - k,
        {
            let ghost before = errors.deep_view();
            proof {
                assert(perms.deep_view()[k as int] == perms@[k as int]@);
            }
            if !Self::is_valid_permission(perms[k].as_str()) {
                let m = cat("无效的权限声明格式: '", perms[k].as_str());
                errors.push(cat(m.as_str(), "'"));
                proof {
                    assert(errors.deep_view() =~= before.push("无效的权限声明格式: '"@ + perms@[k as int]@ + "'"@));
                }
            }
            proof {
                assert(errors.deep_view() =~= head2 + permission_messages(perms.deep_view(), (k + 1) as nat));
            }
            k = k + 1;
        }
        let ghost head3 = errors.deep_view();
        match &metadata.compatibility.min_core_version {
            Some(v) => {
                if !min_core_parses {
                    let m = cat("最低内核版本格式无效: '", v.as_str());
                    errors.push(cat(m.as_str(), "'"));
                }
            },
            None => {},
        }
        let ghost head4 = errors.deep_view();
        proof {
            assert(head4 =~= head3 + compat_problems(*metadata, min_core_parses));
        }
        let actions = &metadata.interfaces.provides;
        let mut a: usize = 0;
        while a < actions.len()
            invariant
                actions == metadata.interfaces.provides,
                a <= actions.len(),
                errors.deep_view() == head4 + action_messages(actions.deep_view(), a as nat),
            decreases actions.len() - a,
        {
            let ghost before = errors.deep_view();
            proof {
                assert(actions.deep_view()[a as int] == actions@[a as int]@);
            }
            if !Self::is_valid_action_name(actions[a].as_str()) {
                let m = cat("无效的 action 名称格式: '", actions[a].as_str());
                errors.push(cat(m.as_str(), "', 推荐使用 domain.action 格式"));
                proof {
                    assert(errors.deep_view() =~= before.push("无效的 action 名称格式: '"@ + actions@[a as int]@ + "', 推荐使用 domain.action 格式"@));
                }
            }
            proof {
                assert(errors.deep_view() =~= head4 + action_messages(actions.deep_view(), (a + 1) as nat));
            }
            a = a + 1;
        }
        proof {
            assert(errors.deep_view() =~= problems_given(*metadata, version_parses, reqs@, min_core_parses));
        }
        errors
    }

    /// Checks `metadata`: the id, name, version, entry path, dependencies,
    /// requested permissions, lowest kernel version and provided actions.
    /// Fails with `InvalidMetadata` holding every problem found, joined by
    /// `"; "`.
    pub fn validate(metadata: &ModuleMetadata) -> (r: Result<(), CoreError>)
        ensures
            parser_problems(*metadata).len() == 0 ==> r is Ok,
            parser_problems(*metadata).len() > 0 ==> (r matches Err(CoreError::InvalidMetadata(m))
                && m@ == join(parser_problems(*metadata), "; "@)),
    {
        let version_parses = is_valid_version(metadata.version.as_str());
        let mut reqs: Vec<bool> = Vec::new();
        let mut i: usize = 0;
        while i < metadata.dependencies.len()
            invariant
                i <= metadata.dependencies.len(),
                reqs.len() == i,
                forall|j: int| 0 <= j < i ==> reqs@[j] == (req_parse_error(metadata.dependencies@[j].version@) is None),
            decreases metadata.dependencies.len() - i,
        {
            reqs.push(is_valid_req(metadata.dependencies[i].version.as_str()));
            i = i + 1;
        }
        let min_core_parses = match &metadata.compatibility.min_core_version {
            Some(v) => is_valid_req(v.as_str()),
            None => true,
        };
        proof {
            assert(reqs@ =~= requirement_outcomes(metadata.dependencies@));
        }
        let errors = Self::problems(metadata, version_parses, &reqs, min_core_parses);
        if errors.len() == 0 {
            Ok(())
        } else {
            Err(CoreError::InvalidMetadata(join_names(&errors, "; ")))
        }
    }
}

} // verus!
