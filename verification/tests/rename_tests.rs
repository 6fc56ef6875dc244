use maintenance_burden::rename::is_rename;

#[test]
fn brace_rename_reconstructs_both_paths() {
    let r = is_rename("src/{old => new}/file.rs").unwrap();
    assert_eq!(r.0, "src/old/file.rs");
    assert_eq!(r.1, "src/new/file.rs");
}

#[test]
fn brace_rename_collapses_doubled_separator() {
    let r = is_rename("a/{ => new}/x").unwrap();
    assert_eq!(r.0, "a/x");
    assert_eq!(r.1, "a/new/x");
}

#[test]
fn brace_rename_empty_new_side() {
    let r = is_rename("a/{old => }/x").unwrap();
    assert_eq!(r.0, "a/old/x");
    assert_eq!(r.1, "a/x");
}

#[test]
fn simple_rename_splits_whole_field() {
    let r = is_rename("old/path.txt => new/path.txt").unwrap();
    assert_eq!(r.0, "old/path.txt");
    assert_eq!(r.1, "new/path.txt");
}

#[test]
fn simple_rename_splits_at_last_arrow() {
    let r = is_rename("a => b => c").unwrap();
    assert_eq!(r.0, "a => b");
    assert_eq!(r.1, "c");
}

#[test]
fn malformed_brace_falls_through_to_simple_form() {
    let r = is_rename("{a => b").unwrap();
    assert_eq!(r.0, "{a");
    assert_eq!(r.1, "b");
}

#[test]
fn plain_path_is_no_rename() {
    assert!(is_rename("src/main.rs").is_none());
    assert!(is_rename("").is_none());
    assert!(is_rename("weird{}name").is_none());
    assert!(is_rename("a=>b").is_none());
}
