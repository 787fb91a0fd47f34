use caxe::config::BuildConfig;
use caxe::config::CxConfig;
use caxe::config::PackageConfig;
use caxe::toolchain::CompilerType;
use caxe::toolchain::HostProbe;
use caxe::toolchain::Toolchain;
use caxe::toolchain::ToolchainError;
use caxe::toolchain::ToolchainSource;
use caxe::toolchain::get_compiler;
use caxe::toolchain::manifest_preference;
use caxe::toolchain::parse_compiler_token;
use caxe::toolchain::rank;
use caxe::toolchain::resolve_toolchain;

fn cand(t: CompilerType, path: &str) -> Toolchain {
    Toolchain {
        compiler_type: t,
        path: path.to_string(),
        version: "14.0".to_string(),
        source: ToolchainSource::Probe,
    }
}

fn plain_config(compiler: Option<&str>) -> CxConfig {
    CxConfig {
        package: PackageConfig {
            name: "demo".to_string(),
            version: "0.1.0".to_string(),
            edition: "c++20".to_string(),
        },
        dependencies: None,
        build: compiler.map(|c| BuildConfig {
            compiler: Some(c.to_string()),
            cflags: None,
            libs: None,
        }),
        scripts: None,
    }
}

fn quiet_probe() -> HostProbe {
    HostProbe {
        is_windows: false,
        env_cxx: None,
        env_cc: None,
        clangxx_available: false,
        gxx_available: false,
        clang_available: false,
        gcc_available: false,
        cl_available: false,
    }
}

#[test]
fn compiler_tokens_recognized() {
    assert_eq!(parse_compiler_token("msvc"), Some(CompilerType::MSVC));
    assert_eq!(parse_compiler_token("MSVC"), Some(CompilerType::MSVC));
    assert_eq!(parse_compiler_token("cl"), Some(CompilerType::MSVC));
    assert_eq!(parse_compiler_token("Cl.Exe"), Some(CompilerType::MSVC));
    assert_eq!(parse_compiler_token("clang-cl"), Some(CompilerType::ClangCL));
    assert_eq!(parse_compiler_token("clangcl"), Some(CompilerType::ClangCL));
    assert_eq!(parse_compiler_token("clang"), Some(CompilerType::Clang));
    assert_eq!(parse_compiler_token("clang++"), Some(CompilerType::Clang));
    assert_eq!(parse_compiler_token("gcc"), Some(CompilerType::GCC));
    assert_eq!(parse_compiler_token("G++"), Some(CompilerType::GCC));
    assert_eq!(parse_compiler_token("tcc"), None);
    assert_eq!(parse_compiler_token(""), None);
}

#[test]
fn manifest_preference_reads_build_table() {
    assert_eq!(manifest_preference(&plain_config(None)), None);
    assert_eq!(manifest_preference(&plain_config(Some("g++"))), Some(CompilerType::GCC));
    assert_eq!(manifest_preference(&plain_config(Some("something-else"))), None);
}

#[test]
fn preference_ranks() {
    assert_eq!(rank(CompilerType::MSVC), 0);
    assert_eq!(rank(CompilerType::ClangCL), 1);
    assert_eq!(rank(CompilerType::Clang), 2);
    assert_eq!(rank(CompilerType::GCC), 3);
}

#[test]
fn resolve_honors_manifest_preference() {
    let cands = vec![cand(CompilerType::Clang, "/usr/bin/clang++"), cand(CompilerType::GCC, "/usr/bin/g++")];
    let tc = resolve_toolchain(Some(CompilerType::GCC), None, &cands).unwrap();
    assert_eq!(tc.path, "/usr/bin/g++");
    assert!(matches!(tc.source, ToolchainSource::Manifest));
}

#[test]
fn resolve_missed_default_preference_offers_help() {
    let cands: Vec<Toolchain> = Vec::new();
    let err = resolve_toolchain(Some(CompilerType::MSVC), None, &cands).unwrap_err();
    let ToolchainError::NotFound { show_install_help } = err;
    assert!(show_install_help);
}

#[test]
fn resolve_missed_open_preference_suppresses_help() {
    let cands = vec![cand(CompilerType::MSVC, "cl.exe")];
    let err = resolve_toolchain(Some(CompilerType::Clang), None, &cands).unwrap_err();
    let ToolchainError::NotFound { show_install_help } = err;
    assert!(!show_install_help);
}

#[test]
fn resolve_honors_cached_selection() {
    let cands = vec![cand(CompilerType::MSVC, "cl.exe")];
    let cached = Toolchain {
        compiler_type: CompilerType::Clang,
        path: "/opt/llvm/bin/clang++".to_string(),
        version: "17".to_string(),
        source: ToolchainSource::CachedSelection,
    };
    let tc = resolve_toolchain(None, Some(cached), &cands).unwrap();
    assert_eq!(tc.path, "/opt/llvm/bin/clang++");
    assert!(matches!(tc.source, ToolchainSource::CachedSelection));
}

#[test]
fn resolve_probe_picks_highest_rank_first() {
    let cands = vec![
        cand(CompilerType::GCC, "/usr/bin/g++"),
        cand(CompilerType::Clang, "/usr/bin/clang++"),
        cand(CompilerType::Clang, "/opt/clang++"),
    ];
    let tc = resolve_toolchain(None, None, &cands).unwrap();
    assert_eq!(tc.path, "/usr/bin/clang++");
    assert!(matches!(tc.source, ToolchainSource::Probe));
}

#[test]
fn resolve_without_candidates_fails() {
    let cands: Vec<Toolchain> = Vec::new();
    let err = resolve_toolchain(None, None, &cands).unwrap_err();
    let ToolchainError::NotFound { show_install_help } = err;
    assert!(show_install_help);
}

#[test]
fn fallback_compiler_uses_detected_toolchain_first() {
    let tc = cand(CompilerType::GCC, "/usr/bin/g++");
    let got = get_compiler(&plain_config(None), Some(&tc), &quiet_probe(), true);
    assert_eq!(got, "/usr/bin/g++");
}

#[test]
fn fallback_compiler_uses_manifest_setting() {
    let got = get_compiler(&plain_config(Some("my-cc")), None, &quiet_probe(), true);
    assert_eq!(got, "my-cc");
}

#[test]
fn fallback_compiler_uses_environment() {
    let mut probe = quiet_probe();
    probe.env_cxx = Some("ccache-g++".to_string());
    let got = get_compiler(&plain_config(None), None, &probe, true);
    assert_eq!(got, "ccache-g++");
    // the C variable drives the C path only
    probe.env_cc = Some("ccache-gcc".to_string());
    let got_c = get_compiler(&plain_config(None), None, &probe, false);
    assert_eq!(got_c, "ccache-gcc");
}

#[test]
fn fallback_compiler_probes_in_fixed_order() {
    let mut probe = quiet_probe();
    probe.gxx_available = true;
    assert_eq!(get_compiler(&plain_config(None), None, &probe, true), "g++");
    probe.clangxx_available = true;
    assert_eq!(get_compiler(&plain_config(None), None, &probe, true), "clang++");
    let mut probe_c = quiet_probe();
    probe_c.gcc_available = true;
    assert_eq!(get_compiler(&plain_config(None), None, &probe_c, false), "gcc");
    probe_c.clang_available = true;
    assert_eq!(get_compiler(&plain_config(None), None, &probe_c, false), "clang");
}

#[test]
fn fallback_compiler_windows_and_default() {
    let mut probe = quiet_probe();
    probe.is_windows = true;
    probe.cl_available = true;
    assert_eq!(get_compiler(&plain_config(None), None, &probe, true), "cl");
    assert_eq!(get_compiler(&plain_config(None), None, &quiet_probe(), true), "clang++");
    assert_eq!(get_compiler(&plain_config(None), None, &quiet_probe(), false), "clang");
}
