use std::cmp::Ordering;

use file_store::{B2Object, FileObject, Object, ObjectInfo, ObjectPath, ObjectType, StorageError, Timestamp, UploadInfo};

fn path(s: &str) -> ObjectPath {
    ObjectPath::new(s).unwrap()
}

fn file(p: &str, len: u64) -> Object {
    Object::File(FileObject::new(path(p), len, ObjectType::File, None))
}

fn remote(p: &str, len: u64) -> Object {
    Object::B2(B2Object::new(path(p), len, None))
}

#[test]
fn type_order_table() {
    let types = [ObjectType::Directory, ObjectType::File, ObjectType::Symlink, ObjectType::Unknown];
    let expected = [
        [Ordering::Equal, Ordering::Less, Ordering::Less, Ordering::Less],
        [Ordering::Greater, Ordering::Equal, Ordering::Less, Ordering::Less],
        [Ordering::Greater, Ordering::Greater, Ordering::Equal, Ordering::Less],
        [Ordering::Greater, Ordering::Greater, Ordering::Greater, Ordering::Equal],
    ];
    for (i, a) in types.iter().enumerate() {
        for (j, b) in types.iter().enumerate() {
            assert_eq!(a.cmp(b), expected[i][j], "{:?} against {:?}", a, b);
            assert_eq!(a.partial_cmp(b), Some(expected[i][j]));
        }
    }
}

#[test]
fn type_order_is_antisymmetric_and_transitive() {
    let types = [ObjectType::Unknown, ObjectType::Symlink, ObjectType::File, ObjectType::Directory];
    for a in types.iter() {
        for b in types.iter() {
            assert_eq!(a.cmp(b), b.cmp(a).reverse());
            for c in types.iter() {
                if a.cmp(b) == Ordering::Less && b.cmp(c) == Ordering::Less {
                    assert_eq!(a.cmp(c), Ordering::Less);
                }
            }
        }
    }
    let mut sorted = vec![
        ObjectType::Unknown,
        ObjectType::File,
        ObjectType::Symlink,
        ObjectType::Directory,
        ObjectType::File,
    ];
    sorted.sort();
    assert_eq!(
        sorted,
        vec![
            ObjectType::Directory,
            ObjectType::File,
            ObjectType::File,
            ObjectType::Symlink,
            ObjectType::Unknown
        ]
    );
}

#[test]
fn type_labels() {
    assert_eq!(ObjectType::File.to_string(), "file");
    assert_eq!(ObjectType::Directory.to_string(), "dir");
    assert_eq!(ObjectType::Symlink.label(), "symlink");
    assert_eq!(ObjectType::Unknown.label(), "unknown");
}

#[test]
fn objects_order_by_path_then_length() {
    assert_eq!(file("/a", 100).cmp(&file("/b", 1)), Ordering::Less);
    assert_eq!(file("/b", 1).cmp(&file("/a", 100)), Ordering::Greater);
    assert_eq!(file("/a", 1).cmp(&file("/a", 100)), Ordering::Less);
    assert_eq!(file("/a", 100).cmp(&remote("/a", 1)), Ordering::Greater);
    assert_eq!(file("/a", 5).cmp(&remote("/a", 5)), Ordering::Equal);
    assert!(file("/a", 5) == remote("/a", 5));
    assert!(file("/a", 5) != remote("/a", 6));
    assert!(file("/a", 5) != file("/b", 5));
}

#[test]
fn object_metadata() {
    let t = Timestamp { secs: 1_500_000_000, nanos: 7 };
    let local = Object::File(FileObject::new(path("/d"), 0, ObjectType::Directory, Some(t)));
    assert_eq!(local.path(), path("/d"));
    assert_eq!(local.len(), 0);
    assert!(local.is_empty());
    assert_eq!(local.object_type(), ObjectType::Directory);
    assert_eq!(local.modified(), Some(t));
    let cloud = remote("/x/y", 12);
    assert_eq!(cloud.object_type(), ObjectType::File);
    assert!(!cloud.is_empty());
    assert_eq!(cloud.modified(), None);
}

#[test]
fn uploads_from_objects_and_paths() {
    let t = Timestamp { secs: 10, nanos: 0 };
    let object = Object::File(FileObject::new(path("/src"), 3, ObjectType::File, Some(t)));
    let info = UploadInfo::from_object(&object);
    assert_eq!(info.path, path("/src"));
    assert_eq!(info.modified, Some(t));

    let moved = object.as_upload("/dst//x").unwrap();
    assert_eq!(moved.path, path("/dst/x"));
    assert_eq!(moved.modified, Some(t));

    match object.as_upload("/dst/../x") {
        Err(StorageError::InvalidPath(s)) => assert_eq!(s, "/dst/../x"),
        other => panic!("unexpected {:?}", other),
    }

    let plain = UploadInfo::from(path("/p"));
    assert_eq!(plain.path, path("/p"));
    assert_eq!(plain.modified, None);
    let parsed = UploadInfo::try_from_str("/q").unwrap();
    assert_eq!(parsed.path, path("/q"));
    assert!(UploadInfo::try_from_str("q").is_err());
}
