use caxe::config::CxConfig;
use caxe::config::DepEntry;
use caxe::config::Dependency;
use caxe::config::PackageConfig;
use caxe::config::manifest_wf;
use caxe::deps::add_dependency;
use caxe::deps::dependency_contribution;
use caxe::deps::parse_dep_input;
use caxe::deps::plan_clones;
use caxe::deps::remove_dependency;
use caxe::deps::script_decision;
use caxe::lock::LockFile;

fn config_with(deps: Vec<DepEntry>) -> CxConfig {
    CxConfig {
        package: PackageConfig {
            name: "demo".to_string(),
            version: "0.1.0".to_string(),
            edition: "c++20".to_string(),
        },
        dependencies: Some(deps),
        build: None,
        scripts: None,
    }
}

fn simple(name: &str, url: &str) -> DepEntry {
    DepEntry { name: name.to_string(), dep: Dependency::Simple(url.to_string()) }
}

#[test]
fn parse_input_full_url() {
    let (name, url) = parse_dep_input("https://github.com/user/repo.git").unwrap();
    assert_eq!(name, "repo");
    assert_eq!(url, "https://github.com/user/repo.git");
}

#[test]
fn parse_input_scp_style_url() {
    let (name, url) = parse_dep_input("git@github.com:user/repo.git").unwrap();
    assert_eq!(name, "repo");
    assert_eq!(url, "git@github.com:user/repo.git");
}

#[test]
fn parse_input_strips_every_git_suffix() {
    let (name, _) = parse_dep_input("https://host/x.git.git").unwrap();
    assert_eq!(name, "x");
}

#[test]
fn parse_input_shorthand() {
    let (name, url) = parse_dep_input("user/repo").unwrap();
    assert_eq!(name, "repo");
    assert_eq!(url, "https://github.com/user/repo.git");
}

#[test]
fn parse_input_rejects_other_shapes() {
    assert!(parse_dep_input("plainword").is_none());
    assert!(parse_dep_input("a/b/c").is_none());
}

#[test]
fn add_inserts_fresh_name() {
    let config = config_with(vec![simple("a", "u1")]);
    let (config2, added) = add_dependency(config, "b".to_string(), "u2".to_string());
    assert!(added);
    assert!(manifest_wf(&config2));
    let deps = config2.dependencies.as_ref().unwrap();
    assert_eq!(deps.len(), 2);
    assert_eq!(deps[1].name, "b");
    match &deps[1].dep {
        Dependency::Simple(u) => assert_eq!(u, "u2"),
        _ => panic!("expected a bare URL"),
    }
}

#[test]
fn add_starts_missing_dependency_table() {
    let mut config = config_with(Vec::new());
    config.dependencies = None;
    let (config2, added) = add_dependency(config, "a".to_string(), "u".to_string());
    assert!(added);
    assert_eq!(config2.dependencies.as_ref().unwrap().len(), 1);
}

#[test]
fn add_rejects_existing_name_without_mutation() {
    let config = config_with(vec![simple("a", "u1"), simple("b", "u2")]);
    let (config2, added) = add_dependency(config, "a".to_string(), "other".to_string());
    assert!(!added);
    let deps = config2.dependencies.as_ref().unwrap();
    assert_eq!(deps.len(), 2);
    assert_eq!(deps[0].name, "a");
    match &deps[0].dep {
        Dependency::Simple(u) => assert_eq!(u, "u1"),
        _ => panic!("expected a bare URL"),
    }
    assert_eq!(config2.package.name, "demo");
}

#[test]
fn remove_deletes_declared_name() {
    let config = config_with(vec![simple("a", "u1"), simple("b", "u2"), simple("c", "u3")]);
    let (config2, found) = remove_dependency(config, "b");
    assert!(found);
    let deps = config2.dependencies.as_ref().unwrap();
    assert_eq!(deps.len(), 2);
    assert_eq!(deps[0].name, "a");
    assert_eq!(deps[1].name, "c");
}

#[test]
fn remove_missing_name_reports_and_leaves_manifest_unchanged() {
    let config = config_with(vec![simple("a", "u1")]);
    let (config2, found) = remove_dependency(config, "jsonlib");
    assert!(!found);
    let deps = config2.dependencies.as_ref().unwrap();
    assert_eq!(deps.len(), 1);
    assert_eq!(deps[0].name, "a");
    assert_eq!(config2.package.name, "demo");
    assert_eq!(config2.package.version, "0.1.0");
}

#[test]
fn populated_cache_plans_zero_clones() {
    let deps = vec![simple("a", "u1"), simple("b", "u2")];
    let cached = vec!["a".to_string(), "b".to_string(), "extra".to_string()];
    let plan = plan_clones(&deps, &cached);
    assert_eq!(plan.len(), 2);
    assert!(plan.iter().all(|p| p.is_none()));
}

#[test]
fn empty_cache_plans_every_clone() {
    let deps = vec![simple("a", "u1"), simple("b", "u2")];
    let cached: Vec<String> = Vec::new();
    let plan = plan_clones(&deps, &cached);
    assert_eq!(plan, vec![Some("u1".to_string()), Some("u2".to_string())]);
}

#[test]
fn script_runs_unless_artifact_exists() {
    let no_script = Dependency::Simple("u".to_string());
    assert!(script_decision(&no_script, true, false).is_none());

    let with_script = Dependency::Complex {
        git: "u".to_string(),
        branch: None,
        build: Some("make".to_string()),
        output: None,
    };
    assert_eq!(script_decision(&with_script, true, false), Some("make".to_string()));
    assert_eq!(script_decision(&with_script, true, true), Some("make".to_string()));

    let with_artifact = Dependency::Complex {
        git: "u".to_string(),
        branch: None,
        build: Some("make".to_string()),
        output: Some("libx.a".to_string()),
    };
    assert_eq!(script_decision(&with_artifact, true, false), Some("make".to_string()));
    assert!(script_decision(&with_artifact, true, true).is_none());
}

#[test]
fn no_script_runs_after_a_failed_clone() {
    let with_script = Dependency::Complex {
        git: "u".to_string(),
        branch: None,
        build: Some("make".to_string()),
        output: None,
    };
    assert!(script_decision(&with_script, false, false).is_none());
}

#[test]
fn contribution_include_flags_exact() {
    let dep = Dependency::Simple("https://example.com/jsonlib.git".to_string());
    let c = dependency_contribution(&dep, "cache/jsonlib", true, true, true, false);
    assert_eq!(
        c.include_paths,
        vec!["cache/jsonlib", "cache/jsonlib/include", "cache/jsonlib/src"]
    );
    assert!(c.link_flag.is_none());
    assert!(c.record_lock);
    assert!(!c.warn_missing_artifact);
}

#[test]
fn contribution_after_failed_clone_is_empty() {
    let dep = Dependency::Simple("u".to_string());
    let c = dependency_contribution(&dep, "cache/x", false, false, true, false);
    assert!(c.include_paths.is_empty());
    assert!(c.link_flag.is_none());
    assert!(!c.record_lock);
    assert!(!c.warn_missing_artifact);
}

#[test]
fn contribution_after_failed_script_is_empty() {
    let dep = Dependency::Complex {
        git: "u".to_string(),
        branch: None,
        build: Some("make".to_string()),
        output: Some("libx.a".to_string()),
    };
    let c = dependency_contribution(&dep, "cache/x", true, false, false, false);
    assert!(c.include_paths.is_empty());
    assert!(c.link_flag.is_none());
    assert!(!c.record_lock);
    assert!(!c.warn_missing_artifact);
}

#[test]
fn contribution_links_present_artifact_and_warns_on_missing() {
    let dep = Dependency::Complex {
        git: "u".to_string(),
        branch: None,
        build: None,
        output: Some("libx.a".to_string()),
    };
    let present = dependency_contribution(&dep, "cache/x", true, false, true, true);
    assert_eq!(present.link_flag, Some("cache/x/libx.a".to_string()));
    assert!(!present.warn_missing_artifact);
    assert!(!present.record_lock);

    let missing = dependency_contribution(&dep, "cache/x", true, true, true, false);
    assert!(missing.link_flag.is_none());
    assert!(missing.warn_missing_artifact);
    assert!(missing.record_lock);
}

#[test]
fn first_fetch_of_declared_dependency() {
    // manifest declares jsonlib by URL, the cache root is empty
    let url = "https://example.com/jsonlib.git";
    let deps = vec![simple("jsonlib", url)];
    let cached: Vec<String> = Vec::new();
    let plan = plan_clones(&deps, &cached);
    assert_eq!(plan, vec![Some(url.to_string())]);

    // the clone succeeded and the walk records it
    let c = dependency_contribution(&deps[0].dep, "cache/jsonlib", true, true, true, false);
    assert_eq!(
        c.include_paths,
        vec!["cache/jsonlib", "cache/jsonlib/include", "cache/jsonlib/src"]
    );
    assert!(c.record_lock);

    let mut lock = LockFile::new();
    lock.insert("jsonlib".to_string(), url.to_string(), "deadbeef".to_string());
    let entry = lock.get("jsonlib").unwrap();
    assert_eq!(entry.git, url);
    assert_eq!(entry.rev, "deadbeef");
}

#[test]
fn manifest_wf_detects_repeated_names() {
    let ok = config_with(vec![simple("a", "u1"), simple("b", "u2")]);
    assert!(manifest_wf(&ok));
    let dup = config_with(vec![simple("a", "u1"), simple("a", "u2")]);
    assert!(!manifest_wf(&dup));
}
