//! The dependency manager's decisions: parsing the `add` argument, mutating
//! the manifest's dependency table, and planning the fetch walk — which
//! dependencies are cloned, when a build script runs, and what each
//! dependency contributes to the compile flags and the lock store.

use vstd::prelude::*;
use crate::config::CxConfig;
use crate::config::DepEntry;
use crate::config::Dependency;
use crate::dialect::strs_view;
use crate::strutil::contains_spec;
use crate::strutil::last_segment;
use crate::strutil::spec_last_segment;
use crate::strutil::count_char;
use crate::strutil::remove_all;
use crate::strutil::spec_count_char;
use crate::strutil::spec_remove_all;
use crate::strutil::str_contains;
use crate::strutil::str_eq;

verus! {

// ---------------------------------------------------------------------------
// Parsing the `add` argument
// ---------------------------------------------------------------------------
/// The name and git URL the `add` argument denotes: a URL keeps itself and
/// takes its last path segment, stripped of `.git`, as the name; a
/// `owner/repo` shorthand expands to the canonical hosting URL; anything
/// else is rejected.
pub open spec fn spec_parse_dep_input(s: Seq<char>) -> Option<(Seq<char>, Seq<char>)> {
    if contains_spec(s, "http"@) || contains_spec(s, "git@"@) {
        Some((spec_remove_all(spec_last_segment(s), ".git"@), s))
    } else if spec_count_char(s, '/') == 1 {
        Some((spec_last_segment(s), "https://github.com/"@ + s + ".git"@))
    } else {
        None
    }
}

pub fn parse_dep_input(s: &str) -> (r: Option<(String, String)>)
    ensures
        match r {
            Some(p) => spec_parse_dep_input(s@) == Some((p.0@, p.1@)),
            None => spec_parse_dep_input(s@) is None,
        },
{
    if str_contains(s, "http") || str_contains(s, "git@") {
        proof {
            reveal_strlit(".git");
        }
        let seg = last_segment(s);
        let name = remove_all(seg.as_str(), ".git");
        Some((name, String::from_str(s)))
    } else if count_char(s, '/') == 1 {
        let name = last_segment(s);
        let url = String::from_str("https://github.com/").concat(s).concat(".git");
        Some((name, url))
    } else {
        None
    }
}

// ---------------------------------------------------------------------------
// Manifest mutation
// ---------------------------------------------------------------------------
/// A dependency of this name is declared.
pub open spec fn spec_dep_exists(deps: Seq<DepEntry>, name: Seq<char>) -> bool {
    exists|i: int| 0 <= i < deps.len() && (#[trigger] deps[i]).name@ == name
}

/// Whether the table declares `name`.
pub fn dep_exists(deps: &Vec<DepEntry>, name: &str) -> (r: bool)
    ensures
        r == spec_dep_exists(deps@, name@),
{
    let n = deps.len();
    let mut i: usize = 0;
    while i < n
        invariant
            n == deps@.len(),
            i <= n,
            forall|j: int| 0 <= j < i ==> (#[trigger] deps@[j]).name@ != name@,
        decreases n - i,
    {
        if str_eq(deps[i].name.as_str(), name) {
            assert(deps@[i as int].name@ == name@);
            return true;
        }
        i += 1;
    }
    false
}

/// Insert a bare-URL dependency under `name`, rejecting a name that is
/// already declared. On rejection the manifest is returned unchanged.
pub fn add_dependency(config: CxConfig, name: String, url: String) -> (r: (CxConfig, bool))
    requires
        config.wf(),
    ensures
        r.0.wf(),
        r.1 == !spec_dep_exists(config.spec_deps(), name@),
        !r.1 ==> r.0 == config,
        r.1 ==> r.0.package == config.package && r.0.build == config.build && r.0.scripts
            == config.scripts && r.0.spec_deps() == config.spec_deps().push(
            DepEntry { name, dep: Dependency::Simple(url) },
        ),
{
    let CxConfig { package, dependencies, build, scripts } = config;
    match dependencies {
        Some(deps) => {
            if dep_exists(&deps, name.as_str()) {
                let back = CxConfig { package, dependencies: Some(deps), build, scripts };
                (back, false)
            } else {
                let mut deps2 = deps;
                deps2.push(DepEntry { name, dep: Dependency::Simple(url) });
                let out = CxConfig { package, dependencies: Some(deps2), build, scripts };
                proof {
                    assert forall|i: int, j: int|
                        0 <= i < j < out.spec_deps().len() implies (
                    #[trigger] out.spec_deps()[i]).name@ != (#[trigger] out.spec_deps()[j]).name@ by {
                        if j < out.spec_deps().len() - 1 {
                            assert(config.spec_deps()[i].name@ != config.spec_deps()[j].name@);
                        } else {
                            assert(!spec_dep_exists(config.spec_deps(), name@));
                            assert(config.spec_deps()[i].name@ != name@);
                        }
                    }
                }
                (out, true)
            }
        },
        None => {
            let mut deps2: Vec<DepEntry> = Vec::new();
            deps2.push(DepEntry { name, dep: Dependency::Simple(url) });
            let out = CxConfig { package, dependencies: Some(deps2), build, scripts };
            proof {
                assert(config.spec_deps() =~= Seq::<DepEntry>::empty());
                assert(out.spec_deps() =~= config.spec_deps().push(
                    DepEntry { name, dep: Dependency::Simple(url) },
                ));
            }
            (out, true)
        },
    }
}

/// Remove the dependency declared under `name`. When the name is absent the
/// manifest is returned unchanged and `false` reports the miss.
pub fn remove_dependency(config: CxConfig, name: &str) -> (r: (CxConfig, bool))
    requires
        config.wf(),
    ensures
        r.0.wf(),
        r.1 == spec_dep_exists(config.spec_deps(), name@),
        !r.1 ==> r.0 == config,
        r.1 ==> r.0.package == config.package && r.0.build == config.build && r.0.scripts
            == config.scripts && exists|i: int|
            0 <= i < config.spec_deps().len() && (#[trigger] config.spec_deps()[i]).name@ == name@
                && r.0.spec_deps() == config.spec_deps().remove(i),
{
    let CxConfig { package, dependencies, build, scripts } = config;
    match dependencies {
        Some(deps) => {
            let n = deps.len();
            let mut i: usize = 0;
            while i < n
                invariant
                    n == deps@.len(),
                    i <= n,
                    config.wf(),
                    deps@ == config.spec_deps(),
                    config == (CxConfig {
                        package,
                        dependencies: Some(deps),
                        build,
                        scripts,
                    }),
                    forall|j: int| 0 <= j < i ==> (#[trigger] deps@[j]).name@ != name@,
                decreases n - i,
            {
                if str_eq(deps[i].name.as_str(), name) {
                    assert(deps@[i as int].name@ == name@);
                    let mut deps2 = deps;
                    deps2.remove(i);
                    let out = CxConfig { package, dependencies: Some(deps2), build, scripts };
                    proof {
                        assert(out.spec_deps() == config.spec_deps().remove(i as int));
                        let ii = i as int;
                        assert(0 <= ii && ii < config.spec_deps().len());
                        assert(config.spec_deps()[ii].name@ == name@);
                        assert forall|p: int, q: int|
                            0 <= p < q < out.spec_deps().len() implies (
                        #[trigger] out.spec_deps()[p]).name@ != (
                        #[trigger] out.spec_deps()[q]).name@ by {
                            let p0 = if p < i as int {
                                p
                            } else {
                                p + 1
                            };
                            let q0 = if q < i as int {
                                q
                            } else {
                                q + 1
                            };
                            assert(out.spec_deps()[p] == config.spec_deps()[p0]);
                            assert(out.spec_deps()[q] == config.spec_deps()[q0]);
                            assert(config.spec_deps()[p0].name@ != config.spec_deps()[q0].name@);
                        }
                    }
                    return (out, true);
                }
                i += 1;
            }
            let back = CxConfig { package, dependencies: Some(deps), build, scripts };
            (back, false)
        },
        None => {
            let back = CxConfig { package, dependencies: None, build, scripts };
            (back, false)
        },
    }
}

// ---------------------------------------------------------------------------
// Fetch planning
// ---------------------------------------------------------------------------
/// `name` has a cache directory.
pub open spec fn spec_cached(cached: Seq<String>, name: Seq<char>) -> bool {
    exists|i: int| 0 <= i < cached.len() && (#[trigger] cached[i])@ == name
}

/// Whether the cache listing holds `name`.
pub fn name_cached(cached: &Vec<String>, name: &str) -> (r: bool)
    ensures
        r == spec_cached(cached@, name@),
{
    let n = cached.len();
    let mut i: usize = 0;
    while i < n
        invariant
            n == cached@.len(),
            i <= n,
            forall|j: int| 0 <= j < i ==> (#[trigger] cached@[j])@ != name@,
        decreases n - i,
    {
        if str_eq(cached[i].as_str(), name) {
            assert(cached@[i as int]@ == name@);
            return true;
        }
        i += 1;
    }
    false
}

/// The clone decision for every dependency in manifest order: a dependency
/// whose cache directory exists is never cloned; every other one is cloned
/// from its URL.
pub open spec fn spec_clone_plan(deps: Seq<DepEntry>, cached: Seq<String>) -> Seq<
    Option<Seq<char>>,
> {
    deps.map(
        |i: int, e: DepEntry|
            if spec_cached(cached, e.name@) {
                None
            } else {
                Some(e.dep.spec_url())
            },
    )
}

/// How many clones a plan performs.
pub open spec fn spec_clone_count(plan: Seq<Option<Seq<char>>>) -> int
    decreases plan.len(),
{
    if plan.len() == 0 {
        0
    } else {
        spec_clone_count(plan.drop_last()) + if plan.last() is Some {
            1int
        } else {
            0int
        }
    }
}

/// The clone decisions for a dependency table against a cache listing.
pub fn plan_clones(deps: &Vec<DepEntry>, cached: &Vec<String>) -> (r: Vec<Option<String>>)
    ensures
        r@.len() == deps@.len(),
        forall|i: int|
            0 <= i < r@.len() ==> (match #[trigger] r@[i] {
                Some(u) => spec_clone_plan(deps@, cached@)[i] == Some(u@),
                None => spec_clone_plan(deps@, cached@)[i] is None,
            }),
{
    let n = deps.len();
    let mut plan: Vec<Option<String>> = Vec::new();
    let mut i: usize = 0;
    while i < n
        invariant
            n == deps@.len(),
            i <= n,
            plan@.len() == i,
            forall|j: int|
                0 <= j < i ==> (match #[trigger] plan@[j] {
                    Some(u) => spec_clone_plan(deps@, cached@)[j] == Some(u@),
                    None => spec_clone_plan(deps@, cached@)[j] is None,
                }),
        decreases n - i,
    {
        if name_cached(cached, deps[i].name.as_str()) {
            plan.push(None);
        } else {
            plan.push(Some(deps[i].dep.get_url()));
        }
        i += 1;
    }
    plan
}

/// Law: dependency fetch is idempotent by cache presence. When every
/// declared dependency already has a cache directory, the plan performs
/// zero clones.
pub proof fn lemma_fetch_idempotent(deps: Seq<DepEntry>, cached: Seq<String>)
    requires
        forall|i: int| 0 <= i < deps.len() ==> spec_cached(cached, (#[trigger] deps[i]).name@),
    ensures
        spec_clone_count(spec_clone_plan(deps, cached)) == 0,
{
    let plan = spec_clone_plan(deps, cached);
    assert(forall|i: int| 0 <= i < plan.len() ==> (#[trigger] plan[i]) is None);
    lemma_clone_count_all_none(plan);
}

proof fn lemma_clone_count_all_none(plan: Seq<Option<Seq<char>>>)
    requires
        forall|i: int| 0 <= i < plan.len() ==> (#[trigger] plan[i]) is None,
    ensures
        spec_clone_count(plan) == 0,
    decreases plan.len(),
{
    if plan.len() > 0 {
        lemma_clone_count_all_none(plan.drop_last());
    }
}

/// The build-script decision: no script runs for a dependency whose cache
/// directory is unpopulated (a failed clone); otherwise a script declared by
/// a complex dependency runs unless its declared output artifact already
/// exists, and always when no artifact is declared.
pub open spec fn spec_script_decision(
    dep: &Dependency,
    clone_ok: bool,
    artifact_present: bool,
) -> Option<Seq<char>> {
    if !clone_ok {
        None
    } else {
        match dep {
            Dependency::Simple(_) => None,
            Dependency::Complex { build, output, .. } => match build {
                None => None,
                Some(cmd) => {
                    let declared = match output {
                        Some(o) => o@.len() > 0,
                        None => false,
                    };
                    if !declared || !artifact_present {
                        Some(cmd@)
                    } else {
                        None
                    }
                },
            },
        }
    }
}

/// Whether to run this dependency's build script, given whether its cache
/// directory is populated and whether its declared artifact already exists
/// under the clone root.
pub fn script_decision(dep: &Dependency, clone_ok: bool, artifact_present: bool) -> (r: Option<
    String,
>)
    ensures
        match r {
            Some(cmd) => spec_script_decision(dep, clone_ok, artifact_present) == Some(cmd@),
            None => spec_script_decision(dep, clone_ok, artifact_present) is None,
        },
{
    if !clone_ok {
        return None;
    }
    match dep {
        Dependency::Simple(_) => None,
        Dependency::Complex { build, output, .. } => match build {
            None => None,
            Some(cmd) => {
                let declared = match output {
                    Some(o) => o.unicode_len() > 0,
                    None => false,
                };
                if !declared || !artifact_present {
                    Some(cmd.clone())
                } else {
                    None
                }
            },
        },
    }
}

/// The three conventional include candidates of a clone root, whether or not
/// the directories exist. Dialect translation turns them into `-I` or `/I`
/// flags; nothing else may format them.
pub open spec fn spec_include_paths(lib_path: Seq<char>) -> Seq<Seq<char>> {
    seq![lib_path, lib_path + "/include"@, lib_path + "/src"@]
}

/// What one dependency adds to the build, given the clone root path and how
/// its fetch went.
pub struct DepContribution {
    /// Include candidates: the clone root and its conventional
    /// subdirectories.
    pub include_paths: Vec<String>,
    /// The declared output artifact `<root>/<output>`, when it exists.
    pub link_flag: Option<String>,
    /// Whether the lock store records this fetch.
    pub record_lock: bool,
    /// A declared output artifact is still missing.
    pub warn_missing_artifact: bool,
}

/// The link artifact a dependency offers: its declared output under the
/// clone root, when present.
pub open spec fn spec_link_flag(
    dep: &Dependency,
    lib_path: Seq<char>,
    artifact_present: bool,
) -> Option<Seq<char>> {
    match dep {
        Dependency::Complex { output: Some(o), .. } => if artifact_present {
            Some(lib_path + "/"@ + o@)
        } else {
            None
        },
        _ => None,
    }
}

/// Whether a declared output artifact is missing after the script phase.
pub open spec fn spec_warn_missing(dep: &Dependency, artifact_present: bool) -> bool {
    match dep {
        Dependency::Complex { output: Some(_), .. } => !artifact_present,
        _ => false,
    }
}

/// What one dependency contributes: nothing at all when its clone failed or
/// its build script failed; otherwise the three include candidates, the
/// link artifact when present, and a lock record exactly when this walk
/// cloned it.
pub fn dependency_contribution(
    dep: &Dependency,
    lib_path: &str,
    clone_ok: bool,
    cloned_now: bool,
    script_ok: bool,
    artifact_present: bool,
) -> (r: DepContribution)
    ensures
        !(clone_ok && script_ok) ==> r.include_paths@.len() == 0 && r.link_flag is None
            && !r.record_lock && !r.warn_missing_artifact,
        clone_ok && script_ok ==> strs_view(r.include_paths@) == spec_include_paths(lib_path@),
        clone_ok && script_ok ==> (match r.link_flag {
            Some(f) => spec_link_flag(dep, lib_path@, artifact_present) == Some(f@),
            None => spec_link_flag(dep, lib_path@, artifact_present) is None,
        }),
        clone_ok && script_ok ==> r.warn_missing_artifact == spec_warn_missing(
            dep,
            artifact_present,
        ),
        r.record_lock == (clone_ok && cloned_now && script_ok),
{
    if !clone_ok || !script_ok {
        return DepContribution {
            include_paths: Vec::new(),
            link_flag: None,
            record_lock: false,
            warn_missing_artifact: false,
        };
    }
    let mut include_paths: Vec<String> = Vec::new();
    include_paths.push(String::from_str(lib_path));
    include_paths.push(String::from_str(lib_path).concat("/include"));
    include_paths.push(String::from_str(lib_path).concat("/src"));
    proof {
        assert(strs_view(include_paths@) =~= spec_include_paths(lib_path@));
    }
    let link_flag: Option<String> = match dep {
        Dependency::Complex { output: Some(o), .. } => {
            if artifact_present {
                Some(String::from_str(lib_path).concat("/").concat(o.as_str()))
            } else {
                None
            }
        },
        _ => None,
    };
    let warn_missing_artifact = match dep {
        Dependency::Complex { output: Some(_), .. } => !artifact_present,
        _ => false,
    };
    DepContribution { include_paths, link_flag, record_lock: cloned_now, warn_missing_artifact }
}

} // verus!
