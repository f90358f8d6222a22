use be_core::notify::{DirectoryChanges, Version, WorkspaceState};

fn path(p: &str) -> Vec<Vec<u8>> {
    p.split('/').map(|c| c.as_bytes().to_vec()).collect()
}

fn changes(paths: &[&str]) -> DirectoryChanges {
    let mut c = DirectoryChanges::new();
    for p in paths {
        c.insert(path(p));
    }
    c
}

fn listed(c: &DirectoryChanges) -> Vec<String> {
    c.paths()
        .iter()
        .map(|p| p.iter().map(|s| String::from_utf8(s.clone()).unwrap()).collect::<Vec<_>>().join("/"))
        .collect()
}

fn merged(a: &[&str], b: &[&str]) -> DirectoryChanges {
    let mut c = changes(a);
    c.merge_with(&changes(b));
    c
}

fn check_merged(a: &[&str], b: &[&str], expected: &str) {
    assert_eq!(format!("{:?}", listed(&merged(a, b))), expected);
}

#[test]
fn merge_works() {
    check_merged(&["a", "b", "c"], &["c", "d", "e"], r#"["a", "b", "c", "d", "e"]"#);
}

#[test]
fn merge_removes_children() {
    check_merged(&["foo/bar", "foo/baz", "qux"], &["foo", "qux/bar"], r#"["foo", "qux"]"#);
}

#[test]
fn paths_come_in_component_order() {
    // Component by component: `foo/bar` sorts before `foo-x`, though `-`
    // sorts before `/` as a byte.
    let c = changes(&["foo-x", "foo/bar", "a"]);
    assert_eq!(listed(&c), vec!["a", "foo/bar", "foo-x"]);
}

#[test]
fn merge_keeps_siblings_with_a_common_prefix() {
    // `foobar` is not under `foo`.
    check_merged(&["foo"], &["foobar", "foo/x"], r#"["foo", "foobar"]"#);
}

#[test]
fn merge_into_nothing_drops_nested_paths() {
    check_merged(&[], &["a/b/c", "a/b", "a/d"], r#"["a/b", "a/d"]"#);
    check_merged(&["x"], &[], r#"["x"]"#);
}

#[test]
fn merging_twice_changes_nothing_more() {
    let mut c = merged(&["a/b", "c"], &["a"]);
    let again = changes(&["a/z", "c/d"]);
    c.merge_with(&again);
    assert_eq!(listed(&c), vec!["a", "c"]);
}

fn version(id: usize, paths: &[&str]) -> Version {
    Version { id, changes: changes(paths) }
}

#[test]
fn versions_since_skips_older_ones() {
    let mut state = WorkspaceState { versions: std::collections::VecDeque::new() };
    assert_eq!(state.latest_version(), 0);
    assert!(state.versions_since(7).is_empty());
    state.versions.push_back(version(3, &["a"]));
    state.versions.push_back(version(4, &["b/c"]));
    state.versions.push_back(version(5, &["b"]));
    assert_eq!(state.latest_version(), 5);
    let ids: Vec<usize> = state.versions_since(4).iter().map(|v| v.id).collect();
    assert_eq!(ids, vec![4, 5]);
    assert!(state.versions_since(9).is_empty());
    assert_eq!(listed(&state.changes_since(4)), vec!["b"]);
    assert_eq!(listed(&state.changes_since(3)), vec!["a", "b"]);
}
