use file_store::{
    copy_across, copy_file, move_across, move_file, write_file_from_stream, BlockingStreamReader, DataStream, MemoryStore, ObjectInfo,
    ObjectPath, StorageError, StreamItem, TransferError, UploadInfo,
};

fn path(s: &str) -> ObjectPath {
    ObjectPath::new(s).unwrap()
}

/// The deterministic content generator used by the scenarios.
fn generate(seed: u8, length: usize) -> Vec<u8> {
    let mut value = seed;
    let mut out = Vec::with_capacity(length);
    for _ in 0..length {
        value = value.wrapping_add(27).wrapping_mul(9).wrapping_sub(seed).wrapping_add(5);
        out.push(value);
    }
    out
}

fn chunked(data: &[u8], sizes: &[usize]) -> DataStream {
    let mut chunks = Vec::new();
    let mut pos = 0;
    let mut k = 0;
    while pos < data.len() {
        let size = sizes[k % sizes.len()].min(data.len() - pos);
        chunks.push(data[pos..pos + size].to_vec());
        pos += size;
        k += 1;
    }
    DataStream::from_chunks(chunks)
}

fn put(store: &mut MemoryStore, p: &str, data: &[u8]) {
    write_file_from_stream(store, UploadInfo::from(path(p)), chunked(data, &[7])).unwrap();
}

fn read_back(store: &MemoryStore, p: &str) -> Vec<u8> {
    let stream = store.get_content_stream(&path(p)).unwrap();
    let mut reader = BlockingStreamReader::from_stream(stream);
    reader.read_to_end().unwrap()
}

fn is_not_found(r: Result<file_store::Object, StorageError>, p: &str) -> bool {
    matches!(r, Err(StorageError::NotFound(q)) if q == path(p))
}

#[test]
fn generator_is_deterministic() {
    assert_eq!(generate(72, 300), generate(72, 300));
    assert_ne!(generate(72, 300), generate(58, 300));
    assert_eq!(generate(0, 3), vec![248u8, 176, 40]);
}

#[test]
fn reader_delivers_chunks_in_order() {
    let stream = DataStream::from_chunks(vec![vec![1, 2, 3], vec![], vec![4], vec![5, 6]]);
    let mut reader = BlockingStreamReader::from_stream(stream);
    assert_eq!(reader.read(0).unwrap(), Vec::<u8>::new());
    assert_eq!(reader.read(2).unwrap(), vec![1, 2]);
    assert_eq!(reader.read(10).unwrap(), vec![3]);
    assert_eq!(reader.read(10).unwrap(), vec![4]);
    assert_eq!(reader.read(1).unwrap(), vec![5]);
    assert_eq!(reader.read(1).unwrap(), vec![6]);
    assert_eq!(reader.read(8).unwrap(), Vec::<u8>::new());
    assert_eq!(reader.read(8).unwrap(), Vec::<u8>::new());
}

#[test]
fn reader_reports_failure_after_bytes() {
    let err = StorageError::PermissionDenied(path("/x"));
    let stream = DataStream::new(vec![vec![9, 8]], Some(err.clone()));
    let mut reader = BlockingStreamReader::from_stream(stream);
    assert_eq!(reader.read(5).unwrap(), vec![9, 8]);
    assert_eq!(reader.read(5), Err(err));
    assert_eq!(reader.read(5).unwrap(), Vec::<u8>::new());
}

#[test]
fn read_to_end_fails_with_stream_failure() {
    let err = StorageError::Backend(path("/x"), "connection reset".to_string());
    let mut reader = BlockingStreamReader::from_stream(DataStream::new(vec![vec![1]], Some(err.clone())));
    assert_eq!(reader.read_to_end(), Err(err));
}

#[test]
fn stream_items_end_with_marker() {
    let mut stream = DataStream::from_chunks(vec![vec![1], vec![2, 3]]);
    assert!(matches!(stream.next_item(), StreamItem::Chunk(c) if c == vec![1]));
    assert!(matches!(stream.next_item(), StreamItem::Chunk(c) if c == vec![2, 3]));
    assert!(matches!(stream.next_item(), StreamItem::End));
    assert!(matches!(stream.next_item(), StreamItem::End));
}

#[test]
fn stream_round_trip_of_various_lengths() {
    for (length, sizes) in [(0usize, vec![5usize]), (10, vec![64]), (1000, vec![1, 17, 300, 3])] {
        let mut store = MemoryStore::new(64);
        let data = generate(13, length);
        write_file_from_stream(&mut store, UploadInfo::from(path("/f")), chunked(&data, &sizes)).unwrap();
        assert_eq!(store.get_object(&path("/f")).unwrap().len(), length as u64);
        assert_eq!(read_back(&store, "/f"), data);
    }
}

#[test]
fn content_streams_use_the_chunk_size() {
    let mut store = MemoryStore::new(4);
    put(&mut store, "/f", &[1, 2, 3, 4, 5, 6, 7, 8, 9, 10]);
    let mut stream = store.get_content_stream(&path("/f")).unwrap();
    let mut sizes = Vec::new();
    while let StreamItem::Chunk(c) = stream.next_item() {
        sizes.push(c.len());
    }
    assert_eq!(sizes, vec![4, 4, 2]);
}

#[test]
fn write_failures_are_attributed() {
    let mut store = MemoryStore::new(8);
    store.deny_writes(path("/locked"));
    assert!(!store.is_writable(&path("/locked/a")));
    let r = write_file_from_stream(&mut store, UploadInfo::from(path("/locked/a")), chunked(&[1, 2], &[1]));
    assert_eq!(r, Err(TransferError::TargetError(StorageError::PermissionDenied(path("/locked/a")))));

    let err = StorageError::NotFound(path("/elsewhere"));
    let failing = DataStream::new(vec![vec![1, 2]], Some(err.clone()));
    let r = write_file_from_stream(&mut store, UploadInfo::from(path("/open")), failing);
    assert_eq!(r, Err(TransferError::SourceError(err)));
    assert!(is_not_found(store.get_object(&path("/open")), "/open"));
}

#[test]
fn copy_preserves_source() {
    let mut store = MemoryStore::new(16);
    let data = generate(58, 100);
    put(&mut store, "/mediumfile", &data);
    let before = store.get_object(&path("/mediumfile")).unwrap();
    copy_file(&mut store, &path("/mediumfile"), &path("/testfile")).unwrap();
    let after = store.get_object(&path("/mediumfile")).unwrap();
    assert_eq!(before, after);
    assert_eq!(read_back(&store, "/mediumfile"), data);
    assert_eq!(read_back(&store, "/testfile"), data);

    store.deny_writes(path("/ro"));
    assert!(copy_file(&mut store, &path("/mediumfile"), &path("/ro/x")).is_err());
    assert_eq!(read_back(&store, "/mediumfile"), data);
}

#[test]
fn copy_keeps_modification_time() {
    let mut store = MemoryStore::new(16);
    let t = file_store::Timestamp { secs: 99, nanos: 1 };
    let info = UploadInfo { path: path("/a"), modified: Some(t) };
    write_file_from_stream(&mut store, info, chunked(&[1, 2, 3], &[2])).unwrap();
    copy_file(&mut store, &path("/a"), &path("/b")).unwrap();
    assert_eq!(store.get_object(&path("/b")).unwrap().modified(), Some(t));
}

#[test]
fn copy_error_attribution() {
    let mut store = MemoryStore::new(16);
    put(&mut store, "/dir2/daz", &generate(72, 300));
    let r = copy_file(&mut store, &path("/dir2/gaz"), &path("/bazza"));
    assert_eq!(r, Err(TransferError::SourceError(StorageError::NotFound(path("/dir2/gaz")))));
    assert!(is_not_found(store.get_object(&path("/bazza")), "/bazza"));
    let r = copy_file(&mut store, &path("/fooish"), &path("/dir2/too"));
    assert_eq!(r, Err(TransferError::SourceError(StorageError::NotFound(path("/fooish")))));

    store.deny_writes(path("/readonly"));
    let r = copy_file(&mut store, &path("/dir2/daz"), &path("/readonly/x"));
    match r {
        Err(TransferError::TargetError(StorageError::PermissionDenied(p))) => assert_eq!(p, path("/readonly/x")),
        other => panic!("unexpected {:?}", other),
    }
}

#[test]
fn move_deletes_source_only_on_success() {
    let mut store = MemoryStore::new(16);
    let data = generate(3, 40);
    put(&mut store, "/src", &data);
    store.deny_writes(path("/ro"));

    let r = move_file(&mut store, &path("/src"), &path("/ro/dst"));
    assert!(matches!(r, Err(TransferError::TargetError(_))));
    assert_eq!(read_back(&store, "/src"), data);
    assert!(is_not_found(store.get_object(&path("/ro/dst")), "/ro/dst"));

    let r = move_file(&mut store, &path("/missing"), &path("/dst"));
    assert_eq!(r, Err(TransferError::SourceError(StorageError::NotFound(path("/missing")))));
    assert!(is_not_found(store.get_object(&path("/dst")), "/dst"));

    move_file(&mut store, &path("/src"), &path("/dst")).unwrap();
    assert!(is_not_found(store.get_object(&path("/src")), "/src"));
    assert_eq!(read_back(&store, "/dst"), data);
}

#[test]
fn move_onto_itself_keeps_the_object() {
    let mut store = MemoryStore::new(16);
    put(&mut store, "/same", &[4, 5, 6]);
    move_file(&mut store, &path("/same"), &path("/same")).unwrap();
    assert_eq!(read_back(&store, "/same"), vec![4, 5, 6]);
}

#[test]
fn delete_object_and_missing_objects() {
    let mut store = MemoryStore::new(16);
    put(&mut store, "/a", &[1]);
    put(&mut store, "/b", &[2]);
    store.delete_object(&path("/a")).unwrap();
    assert!(is_not_found(store.get_object(&path("/a")), "/a"));
    assert_eq!(read_back(&store, "/b"), vec![2]);
    assert_eq!(store.delete_object(&path("/a")), Err(StorageError::NotFound(path("/a"))));
    assert!(store.get_content_stream(&path("/a")).is_err());
}

#[test]
fn overwrite_replaces_content() {
    let mut store = MemoryStore::new(16);
    put(&mut store, "/a", &[1, 2, 3]);
    put(&mut store, "/a", &[9]);
    assert_eq!(read_back(&store, "/a"), vec![9]);
    assert_eq!(store.get_object(&path("/a")).unwrap().len(), 1);
}

#[test]
fn end_to_end_copy_then_move() {
    let mut store = MemoryStore::new(32);
    let content = generate(72, 300);
    put(&mut store, "/a/source", &content);

    copy_file(&mut store, &path("/a/source"), &path("/b/target")).unwrap();
    assert_eq!(read_back(&store, "/b/target"), generate(72, 300));
    assert_eq!(read_back(&store, "/a/source"), content);
    assert_eq!(store.get_object(&path("/a/source")).unwrap().len(), 300);

    move_file(&mut store, &path("/b/target"), &path("/c/final")).unwrap();
    assert!(is_not_found(store.get_object(&path("/b/target")), "/b/target"));
    assert_eq!(read_back(&store, "/c/final"), generate(72, 300));
}

#[test]
fn list_objects_under_a_prefix() {
    let mut store = MemoryStore::new(16);
    put(&mut store, "/a/x", &[1, 2]);
    put(&mut store, "/a/y/z", &[3]);
    put(&mut store, "/ab", &[4]);
    put(&mut store, "/b", &[]);
    let mut found: Vec<(String, u64)> =
        store.list_objects(&path("/a")).iter().map(|o| (o.path().to_string(), o.len())).collect();
    found.sort();
    assert_eq!(found, vec![("/a/x".to_string(), 2), ("/a/y/z".to_string(), 1)]);
    assert_eq!(store.list_objects(&ObjectPath::root()).len(), 4);
    assert!(store.list_objects(&path("/c")).is_empty());
    assert_eq!(store.list_objects(&path("/b")).len(), 1);
}

#[test]
fn copy_and_move_between_stores() {
    let mut local = MemoryStore::new(8);
    let mut remote = MemoryStore::new(64);
    let data = generate(72, 300);
    put(&mut local, "/a/source", &data);

    copy_across(&local, &path("/a/source"), &mut remote, &path("/b/target")).unwrap();
    assert_eq!(read_back(&remote, "/b/target"), data);
    assert_eq!(read_back(&local, "/a/source"), data);

    let r = copy_across(&local, &path("/nothing"), &mut remote, &path("/x"));
    assert_eq!(r, Err(TransferError::SourceError(StorageError::NotFound(path("/nothing")))));

    remote.deny_writes(path("/ro"));
    let r = move_across(&mut local, &path("/a/source"), &mut remote, &path("/ro/t"));
    assert_eq!(r, Err(TransferError::TargetError(StorageError::PermissionDenied(path("/ro/t")))));
    assert_eq!(read_back(&local, "/a/source"), data);

    move_across(&mut local, &path("/a/source"), &mut remote, &path("/c/final")).unwrap();
    assert!(is_not_found(local.get_object(&path("/a/source")), "/a/source"));
    assert_eq!(read_back(&remote, "/c/final"), data);
}
