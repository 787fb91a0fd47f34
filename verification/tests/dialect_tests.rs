use caxe::dialect::BuildRequest;
use caxe::dialect::build_args;
use caxe::dialect::link_args;
use caxe::dialect::object_args;
use caxe::dialect::compiler_command_is_msvc;
use caxe::dialect::uses_msvc_dialect;
use caxe::toolchain::CompilerType;

fn demo_request() -> BuildRequest {
    BuildRequest {
        sources: vec!["src/main.cpp".to_string()],
        output: "build/demo".to_string(),
        standard: "c++20".to_string(),
        include_paths: vec!["cache/jsonlib".to_string(), "cache/jsonlib/include".to_string()],
        cflags: vec!["-O2".to_string()],
        libs: vec!["m".to_string(), "pthread".to_string()],
        dep_links: vec!["cache/zlib/libz.a".to_string()],
    }
}

#[test]
fn msvc_argument_list_exact() {
    let args = build_args(true, &demo_request());
    let expected = vec![
        "/nologo",
        "/EHsc",
        "src/main.cpp",
        "/Febuild/demo",
        "/std:c++20",
        "/Icache/jsonlib",
        "/Icache/jsonlib/include",
        "-O2",
        "/link",
        "cache/zlib/libz.a",
        "m.lib",
        "pthread.lib",
    ];
    assert_eq!(args, expected);
}

#[test]
fn posix_argument_list_exact() {
    let args = build_args(false, &demo_request());
    let expected = vec![
        "src/main.cpp",
        "-o",
        "build/demo",
        "-std=c++20",
        "-Icache/jsonlib",
        "-Icache/jsonlib/include",
        "-O2",
        "cache/zlib/libz.a",
        "-lm",
        "-lpthread",
    ];
    assert_eq!(args, expected);
}

#[test]
fn msvc_list_carries_only_msvc_markers() {
    let args = build_args(true, &demo_request());
    assert!(args.iter().any(|a| a == "/EHsc"));
    assert!(args.iter().any(|a| a.starts_with("/std:")));
    assert!(!args.iter().any(|a| a.starts_with("-std=")));
}

#[test]
fn posix_list_carries_only_posix_markers() {
    let args = build_args(false, &demo_request());
    assert!(args.iter().any(|a| a.starts_with("-std=")));
    assert!(!args.iter().any(|a| a == "/EHsc"));
    assert!(!args.iter().any(|a| a.starts_with("/std:")));
}

#[test]
fn object_compile_lists_exact() {
    let includes = vec!["cache/jsonlib".to_string()];
    let cflags = vec!["-O2".to_string()];
    let msvc = object_args(true, "src/a.cpp", "build/obj/a.obj", "c++20", &includes, &cflags);
    assert_eq!(
        msvc,
        vec!["/nologo", "/EHsc", "/c", "src/a.cpp", "/Fobuild/obj/a.obj", "/std:c++20", "/Icache/jsonlib", "-O2"]
    );
    let posix = object_args(false, "src/a.cpp", "build/obj/a.o", "c++20", &includes, &cflags);
    assert_eq!(
        posix,
        vec!["-c", "src/a.cpp", "-o", "build/obj/a.o", "-std=c++20", "-Icache/jsonlib", "-O2"]
    );
}

#[test]
fn link_lists_exact() {
    let objects = vec!["build/obj/a.o".to_string(), "build/obj/b.o".to_string()];
    let dep_links = vec!["cache/zlib/libz.a".to_string()];
    let libs = vec!["m".to_string()];
    let msvc = link_args(true, &objects, "build/demo", &dep_links, &libs);
    assert_eq!(
        msvc,
        vec!["/nologo", "build/obj/a.o", "build/obj/b.o", "/Febuild/demo", "/link", "cache/zlib/libz.a", "m.lib"]
    );
    let posix = link_args(false, &objects, "build/demo", &dep_links, &libs);
    assert_eq!(
        posix,
        vec!["build/obj/a.o", "build/obj/b.o", "-o", "build/demo", "cache/zlib/libz.a", "-lm"]
    );
}

#[test]
fn dialect_by_compiler_kind() {
    assert!(uses_msvc_dialect(CompilerType::MSVC));
    assert!(uses_msvc_dialect(CompilerType::ClangCL));
    assert!(!uses_msvc_dialect(CompilerType::Clang));
    assert!(!uses_msvc_dialect(CompilerType::GCC));
}

#[test]
fn dialect_by_command_name() {
    assert!(compiler_command_is_msvc("cl"));
    assert!(compiler_command_is_msvc("C:/tools/bin/cl.exe"));
    assert!(!compiler_command_is_msvc("clang++"));
    assert!(!compiler_command_is_msvc("/usr/bin/g++"));
    assert!(!compiler_command_is_msvc("classic-cc"));
}
