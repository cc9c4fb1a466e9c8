use pbuild::hash::{
    any_env_dirty, depfile_key, env_is_dirty, env_key, env_stored_value, hash_bytes, is_dirty, load_depfile_inputs,
    parse_lock_file, record_env_values, serialize_lock_file, store_depfile_inputs, LockFile,
};
use pbuild::strmap::StrMap;

fn lock(pairs: &[(&str, &str)]) -> LockFile {
    let mut m = StrMap::new();
    for (k, v) in pairs {
        m.insert(k.to_string(), v.to_string());
    }
    m
}

#[test]
fn hash_file_existing_returns_some() {
    let h = hash_bytes(b"hello");
    assert!(!h.is_empty());
    assert_eq!(h, "2cf24dba5fb0a30e26e83b2ac5b9e29e1b161e5c1fa7425e73043362938b9824");
}

#[test]
fn same_content_same_hash() {
    let h1 = hash_bytes(b"deterministic");
    let h2 = hash_bytes(b"deterministic");
    assert_eq!(h1, h2);
}

#[test]
fn different_content_different_hash() {
    let h1 = hash_bytes(b"aaa");
    let h2 = hash_bytes(b"bbb");
    assert_ne!(h1, h2);
}

#[test]
fn empty_content_hash() {
    assert_eq!(
        hash_bytes(b""),
        "e3b0c44298fc1c149afbf4c8996fb92427ae41e4649b934ca495991b7852b855"
    );
}

#[test]
fn is_dirty_missing_lock_entry() {
    let h = hash_bytes(b"content");
    let lf = StrMap::new();
    assert!(is_dirty(&lf, "some/file", Some(&h)));
}

#[test]
fn is_dirty_matching_hash_is_clean() {
    let h = hash_bytes(b"content");
    let lf = lock(&[("some/file", &h)]);
    assert!(!is_dirty(&lf, "some/file", Some(&h)));
}

#[test]
fn is_dirty_stale_hash() {
    let before = hash_bytes(b"before");
    let after = hash_bytes(b"beforeafter");
    let lf = lock(&[("some/file", &before)]);
    assert!(is_dirty(&lf, "some/file", Some(&after)));
}

#[test]
fn is_dirty_missing_file_with_lock_entry() {
    let lf = lock(&[("gone", "somehash")]);
    assert!(is_dirty(&lf, "gone", None));
}

#[test]
fn missing_file_without_entry_is_dirty() {
    let lf = StrMap::new();
    assert!(is_dirty(&lf, "never", None));
}

#[test]
fn lock_file_round_trips() {
    let original = lock(&[("src/foo.c", "abc123"), ("src/bar.c", "def456")]);
    let contents = serialize_lock_file(&original);
    assert_eq!(contents, "src/bar.c\tdef456\nsrc/foo.c\tabc123\n");
    let parsed = parse_lock_file(&contents);
    assert_eq!(parsed.len(), 2);
    assert_eq!(parsed.get("src/foo.c").map(|s| s.as_str()), Some("abc123"));
    assert_eq!(parsed.get("src/bar.c").map(|s| s.as_str()), Some("def456"));
}

#[test]
fn lock_parse_skips_lines_without_tab_and_later_lines_win() {
    let parsed = parse_lock_file("a\t1\r\nno tab here\nb\t2\t3\na\t4");
    assert_eq!(parsed.len(), 2);
    assert_eq!(parsed.get("a").map(|s| s.as_str()), Some("4"));
    assert_eq!(parsed.get("b").map(|s| s.as_str()), Some("2\t3"));
}

#[test]
fn keys_for_env_and_depfiles() {
    assert_eq!(env_key("CC"), "env:CC");
    assert_eq!(depfile_key("out.o"), "dep:out.o");
}

#[test]
fn env_values_compare_with_the_stored_one() {
    let lf = lock(&[("env:CC", "gcc")]);
    assert!(!env_is_dirty(&lf, "CC", Some("gcc")));
    assert!(env_is_dirty(&lf, "CC", Some("clang")));
    assert!(env_is_dirty(&lf, "CC", None));
    assert!(!env_is_dirty(&lf, "CFLAGS", None));
    assert!(env_is_dirty(&lf, "CFLAGS", Some("")));
    assert_eq!(env_stored_value(&lf, "CC"), Some("gcc"));
    assert_eq!(env_stored_value(&lf, "LD"), None);
}

#[test]
fn depfile_inputs_round_trip() {
    let mut lf = StrMap::new();
    let paths = vec!["a.c".to_string(), "inc/b.h".to_string()];
    store_depfile_inputs(&mut lf, "app", &paths);
    assert_eq!(lf.get("dep:app").map(|s| s.as_str()), Some("a.c\tinc/b.h"));
    assert_eq!(load_depfile_inputs(&lf, "app"), paths);
    assert!(load_depfile_inputs(&lf, "other").is_empty());
    let before = lf.len();
    store_depfile_inputs(&mut lf, "other", &vec![]);
    assert_eq!(lf.len(), before);
}

#[test]
fn a_changed_tracked_variable_makes_the_build_dirty() {
    let lf = lock(&[("env:CC", "gcc")]);
    let vars = vec!["CC".to_string(), "CFLAGS".to_string()];
    assert!(!any_env_dirty(&lf, &vars, &vec![Some("gcc".to_string()), None]));
    assert!(any_env_dirty(&lf, &vars, &vec![Some("gcc".to_string()), Some("-O2".to_string())]));
    assert!(any_env_dirty(&lf, &vars, &vec![None, None]));
    assert!(!any_env_dirty(&lf, &vec![], &vec![]));
}

#[test]
fn tracked_values_are_remembered() {
    let mut lf = lock(&[("env:CC", "gcc"), ("a.c", "h")]);
    let vars = vec!["CC".to_string(), "CFLAGS".to_string(), "LD".to_string()];
    let values = vec![Some("clang".to_string()), Some("-O2".to_string()), None];
    record_env_values(&mut lf, &vars, &values);
    assert_eq!(env_stored_value(&lf, "CC"), Some("clang"));
    assert_eq!(env_stored_value(&lf, "CFLAGS"), Some("-O2"));
    assert_eq!(env_stored_value(&lf, "LD"), None);
    assert!(!any_env_dirty(&lf, &vars, &values));
}
