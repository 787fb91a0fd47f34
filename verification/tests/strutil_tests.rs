use caxe::strutil::count_char;
use caxe::strutil::last_segment;
use caxe::strutil::remove_all;
use caxe::strutil::str_contains;
use caxe::strutil::str_ends_with;
use caxe::strutil::str_eq;
use caxe::strutil::str_starts_with;

#[test]
fn string_equality() {
    assert!(str_eq("abc", "abc"));
    assert!(!str_eq("abc", "abd"));
    assert!(!str_eq("ab", "abc"));
    assert!(str_eq("", ""));
}

#[test]
fn prefixes_and_suffixes() {
    assert!(str_starts_with("hello.cpp", "hel"));
    assert!(str_starts_with("x", ""));
    assert!(!str_starts_with("he", "hel"));
    assert!(str_ends_with("lib.a", ".a"));
    assert!(!str_ends_with("a", "ba"));
}

#[test]
fn substring_search() {
    assert!(str_contains("git@host:user/repo", "git@"));
    assert!(!str_contains("github.com", "git@"));
    assert!(str_contains("anything", ""));
}

#[test]
fn pattern_removal_scans_left_to_right() {
    assert_eq!(remove_all("repo.git", ".git"), "repo");
    assert_eq!(remove_all("a.git.gitb", ".git"), "ab");
    assert_eq!(remove_all("aaa", "aa"), "a");
    assert_eq!(remove_all("untouched", "zz"), "untouched");
}

#[test]
fn path_segments() {
    assert_eq!(last_segment("a/b/c"), "c");
    assert_eq!(last_segment("plain"), "plain");
    assert_eq!(last_segment("trailing/"), "");
    assert_eq!(count_char("a/b/c", '/'), 2);
    assert_eq!(count_char("nothing", '/'), 0);
}
