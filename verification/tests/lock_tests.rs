use caxe::lock::LockFile;
use caxe::lock::parse_lock;

#[test]
fn lock_insert_and_get() {
    let mut lf = LockFile::new();
    assert_eq!(lf.len(), 0);
    lf.insert(
        "jsonlib".to_string(),
        "https://example.com/jsonlib.git".to_string(),
        "abc123".to_string(),
    );
    assert_eq!(lf.len(), 1);
    let pl = lf.get("jsonlib").unwrap();
    assert_eq!(pl.git, "https://example.com/jsonlib.git");
    assert_eq!(pl.rev, "abc123");
    assert!(lf.get("missing").is_none());
}

#[test]
fn lock_insert_overwrites_in_place() {
    let mut lf = LockFile::new();
    lf.insert("a".to_string(), "u1".to_string(), "r1".to_string());
    lf.insert("b".to_string(), "u2".to_string(), "r2".to_string());
    lf.insert("a".to_string(), "u3".to_string(), "r3".to_string());
    assert_eq!(lf.len(), 2);
    let pa = lf.get("a").unwrap();
    assert_eq!(pa.git, "u3");
    assert_eq!(pa.rev, "r3");
    let pb = lf.get("b").unwrap();
    assert_eq!(pb.git, "u2");
}

#[test]
fn lock_render_exact_text() {
    let mut lf = LockFile::new();
    lf.insert(
        "jsonlib".to_string(),
        "https://example.com/jsonlib.git".to_string(),
        "abc123".to_string(),
    );
    let text = lf.render().unwrap();
    assert_eq!(
        text,
        "[package.jsonlib]\ngit = \"https://example.com/jsonlib.git\"\nrev = \"abc123\"\n"
    );
}

#[test]
fn lock_round_trip_identical_mapping() {
    let mut lf = LockFile::new();
    lf.insert(
        "alpha".to_string(),
        "https://example.com/alpha.git".to_string(),
        "1111".to_string(),
    );
    lf.insert(
        "beta-2".to_string(),
        "git://example.org/beta.git".to_string(),
        "2222".to_string(),
    );
    let text = lf.render().unwrap();
    let back = parse_lock(&text).unwrap();
    assert_eq!(back.len(), 2);
    let a = back.get("alpha").unwrap();
    assert_eq!(a.git, "https://example.com/alpha.git");
    assert_eq!(a.rev, "1111");
    let b = back.get("beta-2").unwrap();
    assert_eq!(b.git, "git://example.org/beta.git");
    assert_eq!(b.rev, "2222");
    // writing the parsed store again gives the same bytes
    assert_eq!(back.render().unwrap(), text);
}

#[test]
fn lock_parse_empty_text() {
    let lf = parse_lock("").unwrap();
    assert_eq!(lf.len(), 0);
}

#[test]
fn lock_parse_rejects_garbage() {
    assert!(parse_lock("not a lock file").is_none());
    assert!(parse_lock("[package.a]\ngit = \"u\"\n").is_none());
    assert!(parse_lock("[package.]\ngit = \"u\"\nrev = \"r\"\n").is_none());
    assert!(parse_lock("[package.a]\ngit = u\nrev = \"r\"\n").is_none());
}

#[test]
fn lock_insert_keeps_ascending_name_order() {
    let mut lf = LockFile::new();
    lf.insert("beta".to_string(), "u2".to_string(), "r2".to_string());
    lf.insert("alpha".to_string(), "u1".to_string(), "r1".to_string());
    let text = lf.render().unwrap();
    assert_eq!(
        text,
        "[package.alpha]\ngit = \"u1\"\nrev = \"r1\"\n[package.beta]\ngit = \"u2\"\nrev = \"r2\"\n"
    );
    assert_eq!(lf.get("alpha").unwrap().rev, "r1");
    assert_eq!(lf.get("beta").unwrap().rev, "r2");
}

#[test]
fn lock_serialization_is_canonical() {
    // equal mappings built in different orders give identical bytes
    let mut x = LockFile::new();
    x.insert("b".to_string(), "ub".to_string(), "rb".to_string());
    x.insert("a".to_string(), "ua".to_string(), "ra".to_string());
    let mut y = LockFile::new();
    y.insert("a".to_string(), "ua".to_string(), "ra".to_string());
    y.insert("b".to_string(), "ub".to_string(), "rb".to_string());
    assert_eq!(x.render().unwrap(), y.render().unwrap());
}

#[test]
fn lock_parse_rejects_out_of_order_text() {
    let text = "[package.b]\ngit = \"u2\"\nrev = \"r2\"\n[package.a]\ngit = \"u1\"\nrev = \"r1\"\n";
    assert!(parse_lock(text).is_none());
}

#[test]
fn lock_parse_rejects_repeated_name() {
    let text = "[package.a]\ngit = \"u1\"\nrev = \"r1\"\n[package.a]\ngit = \"u2\"\nrev = \"r2\"\n";
    assert!(parse_lock(text).is_none());
}

#[test]
fn lock_render_rejects_unprintable_value() {
    let mut lf = LockFile::new();
    lf.insert("a".to_string(), "u\"quoted".to_string(), "r".to_string());
    assert!(lf.render().is_none());

    let mut lf2 = LockFile::new();
    lf2.insert("bad name".to_string(), "u".to_string(), "r".to_string());
    assert!(lf2.render().is_none());
}
