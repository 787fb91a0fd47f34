//! Toolchain resolution: mapping manifest compiler tokens to compiler kinds,
//! ranking discovered candidates in the fixed preference order, and the
//! deterministic resolution order over preference, cached selection and
//! probed candidates.

use vstd::prelude::*;
use crate::config::CxConfig;
use crate::strutil::eq_ignore_ascii_case_spec;
use crate::strutil::str_eq_ignore_ascii_case;

verus! {

/// The compiler front ends the tool understands.
#[derive(Clone, Copy, PartialEq, Eq, Structural, Debug)]
pub enum CompilerType {
    MSVC,
    ClangCL,
    Clang,
    GCC,
}

/// How a resolved toolchain was found.
#[derive(Clone, Copy, PartialEq, Eq, Structural, Debug)]
pub enum ToolchainSource {
    /// The manifest named the compiler.
    Manifest,
    /// A previously persisted user selection.
    CachedSelection,
    /// Platform probing.
    Probe,
}

/// An immutable description of which compiler to invoke and how it was found.
#[derive(Debug)]
pub struct Toolchain {
    pub compiler_type: CompilerType,
    pub path: String,
    pub version: String,
    pub source: ToolchainSource,
}

/// Resolution failure: no usable compiler candidate.
#[derive(Debug)]
pub enum ToolchainError {
    NotFound {
        /// Whether to print installer guidance: suppressed when the failure
        /// is explained by an intentional Clang/GCC preference.
        show_install_help: bool,
    },
}

/// The compiler kind a manifest token names, if recognized (matched without
/// regard to ASCII case).
pub open spec fn spec_parse_compiler_token(t: Seq<char>) -> Option<CompilerType> {
    if eq_ignore_ascii_case_spec(t, "msvc"@) || eq_ignore_ascii_case_spec(t, "cl"@)
        || eq_ignore_ascii_case_spec(t, "cl.exe"@) {
        Some(CompilerType::MSVC)
    } else if eq_ignore_ascii_case_spec(t, "clang-cl"@) || eq_ignore_ascii_case_spec(
        t,
        "clangcl"@,
    ) {
        Some(CompilerType::ClangCL)
    } else if eq_ignore_ascii_case_spec(t, "clang"@) || eq_ignore_ascii_case_spec(t, "clang++"@) {
        Some(CompilerType::Clang)
    } else if eq_ignore_ascii_case_spec(t, "gcc"@) || eq_ignore_ascii_case_spec(t, "g++"@) {
        Some(CompilerType::GCC)
    } else {
        None
    }
}

pub fn parse_compiler_token(t: &str) -> (r: Option<CompilerType>)
    ensures
        r == spec_parse_compiler_token(t@),
{
    if str_eq_ignore_ascii_case(t, "msvc") || str_eq_ignore_ascii_case(t, "cl")
        || str_eq_ignore_ascii_case(t, "cl.exe") {
        Some(CompilerType::MSVC)
    } else if str_eq_ignore_ascii_case(t, "clang-cl") || str_eq_ignore_ascii_case(t, "clangcl") {
        Some(CompilerType::ClangCL)
    } else if str_eq_ignore_ascii_case(t, "clang") || str_eq_ignore_ascii_case(t, "clang++") {
        Some(CompilerType::Clang)
    } else if str_eq_ignore_ascii_case(t, "gcc") || str_eq_ignore_ascii_case(t, "g++") {
        Some(CompilerType::GCC)
    } else {
        None
    }
}

/// The compiler preference the manifest declares, if any token it holds is
/// recognized.
pub open spec fn spec_manifest_preference(config: &CxConfig) -> Option<CompilerType> {
    match config.build {
        Some(b) => match b.compiler {
            Some(c) => spec_parse_compiler_token(c@),
            None => None,
        },
        None => None,
    }
}

pub fn manifest_preference(config: &CxConfig) -> (r: Option<CompilerType>)
    ensures
        r == spec_manifest_preference(config),
{
    match &config.build {
        Some(b) => match &b.compiler {
            Some(c) => parse_compiler_token(c.as_str()),
            None => None,
        },
        None => None,
    }
}

/// The fixed preference order: native vendor compiler first, then the
/// vendor-compatible front end, then the two open front ends.
pub open spec fn spec_rank(t: CompilerType) -> int {
    match t {
        CompilerType::MSVC => 0,
        CompilerType::ClangCL => 1,
        CompilerType::Clang => 2,
        CompilerType::GCC => 3,
    }
}

pub fn rank(t: CompilerType) -> (r: u8)
    ensures
        r as int == spec_rank(t),
{
    match t {
        CompilerType::MSVC => 0,
        CompilerType::ClangCL => 1,
        CompilerType::Clang => 2,
        CompilerType::GCC => 3,
    }
}

/// Index of the first candidate of kind `t`, if any.
pub open spec fn spec_find_by_type(cands: Seq<Toolchain>, t: CompilerType) -> Option<int>
    decreases cands.len(),
{
    if cands.len() == 0 {
        None
    } else if cands[0].compiler_type == t {
        Some(0)
    } else {
        match spec_find_by_type(cands.drop_first(), t) {
            Some(i) => Some(i + 1),
            None => None,
        }
    }
}

/// Shift an optional index by `k`.
spec fn shift_opt(o: Option<int>, k: int) -> Option<int> {
    match o {
        Some(i) => Some(i + k),
        None => None,
    }
}

pub fn find_by_type(cands: &Vec<Toolchain>, t: CompilerType) -> (r: Option<usize>)
    ensures
        match r {
            Some(i) => i < cands@.len() && spec_find_by_type(cands@, t) == Some(i as int),
            None => spec_find_by_type(cands@, t) is None,
        },
{
    let n = cands.len();
    let mut i: usize = 0;
    proof {
        assert(cands@.skip(0) =~= cands@);
    }
    while i < n
        invariant
            n == cands@.len(),
            i <= n,
            spec_find_by_type(cands@, t) == shift_opt(
                spec_find_by_type(cands@.skip(i as int), t),
                i as int,
            ),
        decreases n - i,
    {
        proof {
            assert(cands@.skip(i as int)[0] == cands@[i as int]);
            assert(cands@.skip(i as int).drop_first() =~= cands@.skip(i as int + 1));
        }
        if cands[i].compiler_type == t {
            return Some(i);
        }
        i += 1;
    }
    proof {
        assert(cands@.skip(n as int) =~= Seq::<Toolchain>::empty());
    }
    None
}

/// Index of the best-ranked candidate, earliest among equals, if any.
pub open spec fn spec_best_idx(cands: Seq<Toolchain>) -> Option<int>
    decreases cands.len(),
{
    if cands.len() == 0 {
        None
    } else {
        match spec_best_idx(cands.drop_last()) {
            None => Some(0),
            Some(b) => if spec_rank(cands.last().compiler_type) < spec_rank(
                cands[b].compiler_type,
            ) {
                Some(cands.len() - 1)
            } else {
                Some(b)
            },
        }
    }
}

pub fn pick_best(cands: &Vec<Toolchain>) -> (r: Option<usize>)
    ensures
        match r {
            Some(i) => i < cands@.len() && spec_best_idx(cands@) == Some(i as int),
            None => cands@.len() == 0,
        },
{
    let n = cands.len();
    if n == 0 {
        return None;
    }
    let mut best: usize = 0;
    let mut best_rank: u8 = rank(cands[0].compiler_type);
    proof {
        let first = cands@.take(1);
        assert(first.len() == 1);
        assert(first.drop_last() =~= Seq::<Toolchain>::empty());
        assert(first.last() == cands@[0]);
        assert(spec_best_idx(Seq::<Toolchain>::empty()) is None);
        assert(spec_best_idx(cands@.take(1)) == Some(0int));
    }
    let mut i: usize = 1;
    while i < n
        invariant
            n == cands@.len(),
            1 <= i <= n,
            best < i,
            best_rank as int == spec_rank(cands@[best as int].compiler_type),
            spec_best_idx(cands@.take(i as int)) == Some(best as int),
        decreases n - i,
    {
        proof {
            assert(cands@.take(i as int + 1).drop_last() =~= cands@.take(i as int));
            assert(cands@.take(i as int + 1).last() == cands@[i as int]);
            assert(cands@.take(i as int + 1)[best as int] == cands@[best as int]);
        }
        let rk = rank(cands[i].compiler_type);
        if rk < best_rank {
            best = i;
            best_rank = rk;
        }
        i += 1;
    }
    proof {
        assert(cands@.take(n as int) =~= cands@);
    }
    Some(best)
}

impl Toolchain {
    /// The same descriptor with its provenance replaced.
    fn with_source(&self, source: ToolchainSource) -> (r: Toolchain)
        ensures
            r == (Toolchain {
                compiler_type: self.compiler_type,
                path: self.path,
                version: self.version,
                source,
            }),
    {
        Toolchain {
            compiler_type: self.compiler_type,
            path: self.path.clone(),
            version: self.version.clone(),
            source,
        }
    }
}

/// Whether a missed preference suppresses the installer guidance: preferring
/// one of the open front ends is an intentional non-default choice.
pub open spec fn spec_show_help_for(t: CompilerType) -> bool {
    !(t == CompilerType::Clang || t == CompilerType::GCC)
}

/// What resolution returns, first match wins:
/// 1. a recognized manifest preference, if a candidate of that kind exists;
/// 2. the persisted user selection;
/// 3. the best-ranked probed candidate;
/// 4. otherwise `NotFound`, with installer guidance unless the failure is
///    explained by an intentional Clang/GCC preference.
pub open spec fn spec_resolve(
    preference: Option<CompilerType>,
    cached: Option<Toolchain>,
    cands: Seq<Toolchain>,
) -> Result<Toolchain, ToolchainError> {
    match preference {
        Some(t) => match spec_find_by_type(cands, t) {
            Some(i) => Ok(
                Toolchain {
                    compiler_type: cands[i].compiler_type,
                    path: cands[i].path,
                    version: cands[i].version,
                    source: ToolchainSource::Manifest,
                },
            ),
            None => Err(ToolchainError::NotFound { show_install_help: spec_show_help_for(t) }),
        },
        None => match cached {
            Some(c) => Ok(c),
            None => match spec_best_idx(cands) {
                Some(i) => Ok(
                    Toolchain {
                        compiler_type: cands[i].compiler_type,
                        path: cands[i].path,
                        version: cands[i].version,
                        source: ToolchainSource::Probe,
                    },
                ),
                None => Err(ToolchainError::NotFound { show_install_help: true }),
            },
        },
    }
}

/// Resolve a toolchain descriptor from the manifest preference, the persisted
/// user selection and the probed candidates.
pub fn resolve_toolchain(
    preference: Option<CompilerType>,
    cached: Option<Toolchain>,
    candidates: &Vec<Toolchain>,
) -> (r: Result<Toolchain, ToolchainError>)
    ensures
        r == spec_resolve(preference, cached, candidates@),
{
    match preference {
        Some(t) => match find_by_type(candidates, t) {
            Some(i) => Ok(candidates[i].with_source(ToolchainSource::Manifest)),
            None => Err(
                ToolchainError::NotFound {
                    show_install_help: !(t == CompilerType::Clang || t == CompilerType::GCC),
                },
            ),
        },
        None => match cached {
            Some(c) => Ok(c),
            None => match pick_best(candidates) {
                Some(i) => Ok(candidates[i].with_source(ToolchainSource::Probe)),
                None => Err(ToolchainError::NotFound { show_install_help: true }),
            },
        },
    }
}

/// What the host offers when the full discovery fails and the tool falls
/// back to conventional environment variables and PATH probing.
pub struct HostProbe {
    pub is_windows: bool,
    pub env_cxx: Option<String>,
    pub env_cc: Option<String>,
    pub clangxx_available: bool,
    pub gxx_available: bool,
    pub clang_available: bool,
    pub gcc_available: bool,
    pub cl_available: bool,
}

/// The PATH-based fallback decision tree: the detected toolchain's path when
/// discovery succeeded; else the manifest setting, then the conventional
/// environment variable, then the fixed probe order, then the platform
/// default.
pub open spec fn spec_get_compiler(
    config: &CxConfig,
    detected: Option<&Toolchain>,
    probe: &HostProbe,
    has_cpp: bool,
) -> Seq<char> {
    match detected {
        Some(tc) => tc.path@,
        None => {
            let manifest_choice: Option<Seq<char>> = match config.build {
                Some(b) => match b.compiler {
                    Some(c) => Some(c@),
                    None => None,
                },
                None => None,
            };
            match manifest_choice {
                Some(c) => c,
                None => {
                    if has_cpp {
                        match probe.env_cxx {
                            Some(v) => v@,
                            None => if probe.clangxx_available {
                                "clang++"@
                            } else if probe.gxx_available {
                                "g++"@
                            } else if probe.is_windows && probe.cl_available {
                                "cl"@
                            } else {
                                "clang++"@
                            },
                        }
                    } else {
                        match probe.env_cc {
                            Some(v) => v@,
                            None => if probe.clang_available {
                                "clang"@
                            } else if probe.gcc_available {
                                "gcc"@
                            } else if probe.is_windows && probe.cl_available {
                                "cl"@
                            } else {
                                "clang"@
                            },
                        }
                    }
                },
            }
        },
    }
}

/// The compiler command to run: the detected toolchain's path when discovery
/// succeeded, else the PATH-based fallback.
pub fn get_compiler(
    config: &CxConfig,
    detected: Option<&Toolchain>,
    probe: &HostProbe,
    has_cpp: bool,
) -> (r: String)
    ensures
        r@ == spec_get_compiler(config, detected, probe, has_cpp),
{
    match detected {
        Some(tc) => tc.path.clone(),
        None => {
            match &config.build {
                Some(b) => match &b.compiler {
                    Some(c) => {
                        return c.clone();
                    },
                    None => {},
                },
                None => {},
            }
            if has_cpp {
                match &probe.env_cxx {
                    Some(v) => v.clone(),
                    None => {
                        if probe.clangxx_available {
                            String::from_str("clang++")
                        } else if probe.gxx_available {
                            String::from_str("g++")
                        } else if probe.is_windows && probe.cl_available {
                            String::from_str("cl")
                        } else {
                            String::from_str("clang++")
                        }
                    },
                }
            } else {
                match &probe.env_cc {
                    Some(v) => v.clone(),
                    None => {
                        if probe.clang_available {
                            String::from_str("clang")
                        } else if probe.gcc_available {
                            String::from_str("gcc")
                        } else if probe.is_windows && probe.cl_available {
                            String::from_str("cl")
                        } else {
                            String::from_str("clang")
                        }
                    },
                }
            }
        },
    }
}

} // verus!
