use syncdir::path::{is_hidden, TreePath};

fn path(parts: &[&str]) -> TreePath {
    TreePath::from_components(parts.iter().map(|p| p.to_string()).collect())
}

#[test]
fn hidden_names_start_with_a_dot() {
    assert!(is_hidden(".secret"));
    assert!(is_hidden("."));
    assert!(!is_hidden("a.txt"));
    assert!(!is_hidden(""));
}

#[test]
fn strip_prefix_keeps_the_tail() {
    let base = path(&["src"]);
    let whole = path(&["src", "sub", "b.txt"]);
    assert_eq!(whole.strip_prefix(&base), Some(path(&["sub", "b.txt"])));
    assert_eq!(whole.strip_prefix(&path(&["other"])), None);
    assert_eq!(base.strip_prefix(&whole), None);
    assert_eq!(base.strip_prefix(&base), Some(TreePath::new()));
}

#[test]
fn join_appends_relative_and_keeps_absolute() {
    let base = path(&["dst"]);
    assert_eq!(base.join(&path(&["sub", "b.txt"])), path(&["dst", "sub", "b.txt"]));
    assert_eq!(base.join(&TreePath::new()), path(&["dst"]));
    assert_eq!(base.join(&path(&["/", "etc"])), path(&["/", "etc"]));
}

#[test]
fn display_separates_components() {
    assert_eq!(path(&["sub", "b.txt"]).display(), "sub/b.txt");
    assert_eq!(path(&["/", "etc", "passwd"]).display(), "/etc/passwd");
    assert_eq!(path(&["a"]).display(), "a");
    assert_eq!(TreePath::new().display(), "");
}

#[test]
fn paths_compare_component_by_component() {
    assert!(path(&["a", "b"]).same_as(&path(&["a", "b"])));
    assert!(!path(&["a", "b"]).same_as(&path(&["a", "c"])));
    assert!(!path(&["a", "b"]).same_as(&path(&["a"])));
    assert!(path(&["a", "b"]).starts_with(&path(&["a"])));
    assert!(path(&["a", "b"]).starts_with(&TreePath::new()));
    assert!(!path(&["a", "b"]).starts_with(&path(&["b"])));
    assert!(!path(&["a"]).starts_with(&path(&["a", "b"])));
    assert_eq!(path(&["a", "b"]).clone(), path(&["a", "b"]));
    assert_eq!(path(&["a", "b"]).len(), 2);
}

#[test]
fn hidden_component_anywhere_hides_the_path() {
    assert!(path(&[".git", "config"]).has_hidden_component());
    assert!(path(&["sub", ".secret"]).has_hidden_component());
    assert!(!path(&["sub", "b.txt"]).has_hidden_component());
    assert!(!TreePath::new().has_hidden_component());
}

#[test]
fn absolute_paths_start_at_the_root() {
    assert!(path(&["/", "etc"]).is_absolute());
    assert!(!path(&["etc"]).is_absolute());
    assert!(!path(&["//", "etc"]).is_absolute());
    assert!(!TreePath::new().is_absolute());
}

#[test]
fn push_appends_a_component() {
    let mut p = path(&["a"]);
    p.push("b".to_string());
    assert_eq!(p, path(&["a", "b"]));
}
