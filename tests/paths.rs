use std::cmp::Ordering;

use file_store::{ObjectPath, StorageError};

fn path(s: &str) -> ObjectPath {
    ObjectPath::new(s).unwrap()
}

#[test]
fn parse_collapses_separators() {
    assert_eq!(path("/a//b/").to_string(), "/a/b");
    assert_eq!(path("///").to_string(), "/");
    assert_eq!(path("/").depth(), 0);
    assert_eq!(path("/dir2/daz").depth(), 2);
}

#[test]
fn parse_refuses_invalid_text() {
    for s in ["", "a/b", "/a/./b", "/a/../b", "/..", "/a\\b", "/a\0"] {
        match ObjectPath::new(s) {
            Err(StorageError::InvalidPath(t)) => assert_eq!(t, s),
            other => panic!("expected an invalid path for {:?}, got {:?}", s, other),
        }
    }
}

#[test]
fn dots_inside_names_are_fine() {
    assert_eq!(path("/a/.b/c..").to_string(), "/a/.b/c..");
    assert_eq!(path("/.../x").depth(), 2);
}

#[test]
fn normalized_text_parses_back() {
    for s in ["/", "/a", "/a//b///c/", "/x/y.txt", "/é/ü"] {
        let p = path(s);
        let q = path(&p.to_string());
        assert_eq!(p, q);
        assert_eq!(p.to_string(), q.to_string());
    }
}

#[test]
fn parent_and_name() {
    let root = ObjectPath::root();
    assert!(root.is_root());
    assert_eq!(root.parent(), None);
    assert_eq!(root.name(), None);
    let p = path("/a/b/c");
    assert_eq!(p.name(), Some("c".to_string()));
    assert_eq!(p.parent(), Some(path("/a/b")));
    assert_eq!(path("/a").parent(), Some(root));
}

#[test]
fn join_and_ancestors() {
    let base = path("/a/b");
    let joined = base.join(&path("/c/d"));
    assert_eq!(joined.to_string(), "/a/b/c/d");
    assert!(joined.starts_with(&base));
    assert!(joined.starts_with(&joined));
    assert!(base.is_ancestor_of(&joined));
    assert!(!joined.is_ancestor_of(&joined));
    assert!(!path("/a/bc").starts_with(&base));
    assert!(ObjectPath::root().is_ancestor_of(&base));
}

#[test]
fn paths_order_by_segments() {
    assert_eq!(path("/a").cmp_path(&path("/b")), Ordering::Less);
    assert_eq!(path("/a/z").cmp_path(&path("/b")), Ordering::Less);
    assert_eq!(path("/a").cmp_path(&path("/a/b")), Ordering::Less);
    assert_eq!(path("/ab").cmp_path(&path("/a/b")), Ordering::Greater);
    assert_eq!(path("/a/b").cmp_path(&path("/a//b")), Ordering::Equal);
    assert_eq!(path("/b").partial_cmp(&path("/a")), Some(Ordering::Greater));
    assert!(path("/a") < path("/b"));
}

#[test]
fn backend_strings() {
    assert_eq!(path("/a/b/c").to_backend_string("/"), "a/b/c");
    assert_eq!(path("/a/b/c").to_backend_string("\\"), "a\\b\\c");
    assert_eq!(path("/one").to_backend_string("/"), "one");
    assert_eq!(ObjectPath::root().to_backend_string("/"), "");
}
