//! The project manifest model: package identity, declared dependencies and
//! build settings, as one explicit value passed into every component call.

use vstd::prelude::*;
use crate::strutil::str_eq;

verus! {

/// Package identity: name, version and the language-standard token.
pub struct PackageConfig {
    pub name: String,
    pub version: String,
    pub edition: String,
}

/// The language-standard token used when the manifest does not declare one.
pub fn default_edition() -> (r: String)
    ensures
        r@ == "c++20"@,
{
    String::from_str("c++20")
}

/// A declared dependency: either a bare git URL, or a record with an optional
/// branch, build script and output artifact.
pub enum Dependency {
    Simple(String),
    Complex {
        git: String,
        branch: Option<String>,
        build: Option<String>,
        output: Option<String>,
    },
}

impl Dependency {
    /// The git URL the dependency is fetched from, whichever form it takes.
    pub open spec fn spec_url(&self) -> Seq<char> {
        match self {
            Dependency::Simple(url) => url@,
            Dependency::Complex { git, .. } => git@,
        }
    }

    pub fn get_url(&self) -> (r: String)
        ensures
            r@ == self.spec_url(),
    {
        match self {
            Dependency::Simple(url) => url.clone(),
            Dependency::Complex { git, .. } => git.clone(),
        }
    }
}

/// One entry of the manifest's dependency table: logical name and spec.
pub struct DepEntry {
    pub name: String,
    pub dep: Dependency,
}

/// Optional build settings from the manifest.
pub struct BuildConfig {
    pub compiler: Option<String>,
    pub cflags: Option<Vec<String>>,
    pub libs: Option<Vec<String>>,
}

/// Optional pre/post build hooks from the manifest.
pub struct ScriptsConfig {
    pub pre_build: Option<String>,
    pub post_build: Option<String>,
}

/// The whole manifest. The dependency table keeps manifest order; its logical
/// names are unique when the manifest is well formed.
pub struct CxConfig {
    pub package: PackageConfig,
    pub dependencies: Option<Vec<DepEntry>>,
    pub build: Option<BuildConfig>,
    pub scripts: Option<ScriptsConfig>,
}

/// The names of a dependency table, in manifest order.
pub open spec fn dep_names(deps: Seq<DepEntry>) -> Seq<Seq<char>> {
    deps.map(|i: int, e: DepEntry| e.name@)
}

/// A dependency table is well formed when no logical name repeats.
pub open spec fn deps_wf(deps: Seq<DepEntry>) -> bool {
    forall|i: int, j: int|
        0 <= i < j < deps.len() ==> deps[i].name@ != deps[j].name@
}

impl CxConfig {
    /// The manifest's dependency table, empty when none is declared.
    pub open spec fn spec_deps(&self) -> Seq<DepEntry> {
        match self.dependencies {
            Some(deps) => deps@,
            None => Seq::empty(),
        }
    }

    /// A manifest is well formed when its dependency names are unique.
    pub open spec fn wf(&self) -> bool {
        deps_wf(self.spec_deps())
    }
}

/// Whether the manifest's dependency names are unique.
pub fn manifest_wf(config: &CxConfig) -> (r: bool)
    ensures
        r == config.wf(),
{
    let deps: &Vec<DepEntry> = match &config.dependencies {
        Some(d) => d,
        None => {
            proof {
                assert(config.spec_deps() =~= Seq::<DepEntry>::empty());
            }
            return true;
        },
    };
    let n = deps.len();
    let mut i: usize = 0;
    while i < n
        invariant
            n == deps@.len(),
            deps@ == config.spec_deps(),
            i <= n,
            forall|p: int, q: int|
                0 <= p < q < i ==> (#[trigger] deps@[p]).name@ != (#[trigger] deps@[q]).name@,
        decreases n - i,
    {
        let mut j: usize = 0;
        while j < i
            invariant
                n == deps@.len(),
                deps@ == config.spec_deps(),
                i < n,
                j <= i,
                forall|q: int| 0 <= q < j ==> (#[trigger] deps@[q]).name@ != deps@[i as int].name@,
            decreases i - j,
        {
            if str_eq(deps[j].name.as_str(), deps[i].name.as_str()) {
                assert(deps@[j as int].name@ == deps@[i as int].name@);
                return false;
            }
            j += 1;
        }
        i += 1;
    }
    true
}

} // verus!
