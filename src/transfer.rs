//! Writing, copying and moving objects as compositions of backend
//! operations. Every failure is tagged with the side that caused it.
//!
//! Nothing is rolled back: a backend may keep a partly written target after a
//! failure. The in-memory store commits a write only when it completes, so
//! there a failed transfer leaves the target as it was.

use vstd::prelude::*;

use crate::error::{ErrorView, StorageError, TransferError, TransferErrorView};
use crate::objects::{ObjectInfo, UploadInfo};
use crate::path::ObjectPath;
use crate::store::{MemoryStore, Stored, WriteSink};
use crate::stream::{DataStream, StreamItem};

verus! {

/// What a transfer's result says.
pub open spec fn outcome(r: Result<(), TransferError>) -> Result<(), TransferErrorView> {
    match r {
        Ok(()) => Ok(()),
        Err(e) => Err(e@),
    }
}

/// The effect of writing a stream of `content`, followed by `failure` if it
/// fails, to `path` with modification time `modified`.
pub open spec fn write_effect(
    before: Map<Seq<Seq<char>>, Stored>,
    target_writable: bool,
    path: Seq<Seq<char>>,
    modified: Option<crate::objects::Timestamp>,
    content: Seq<u8>,
    failure: Option<ErrorView>,
    r: Result<(), TransferErrorView>,
    after: Map<Seq<Seq<char>>, Stored>,
) -> bool {
    if !target_writable {
        r == Err::<(), TransferErrorView>(TransferErrorView::TargetError(ErrorView::PermissionDenied(path)))
            && after == before
    } else if failure is Some {
        r == Err::<(), TransferErrorView>(TransferErrorView::SourceError(failure->Some_0)) && after == before
    } else {
        r == Ok::<(), TransferErrorView>(()) && after == before.insert(path, Stored { data: content, modified })
    }
}

/// The effect of copying `source` to `target`.
pub open spec fn copy_effect(
    before: Map<Seq<Seq<char>>, Stored>,
    target_writable: bool,
    source: Seq<Seq<char>>,
    target: Seq<Seq<char>>,
    r: Result<(), TransferErrorView>,
    after: Map<Seq<Seq<char>>, Stored>,
) -> bool {
    if !before.contains_key(source) {
        r == Err::<(), TransferErrorView>(TransferErrorView::SourceError(ErrorView::NotFound(source)))
            && after == before
    } else if !target_writable {
        r == Err::<(), TransferErrorView>(TransferErrorView::TargetError(ErrorView::PermissionDenied(target)))
            && after == before
    } else {
        r == Ok::<(), TransferErrorView>(()) && after == before.insert(target, before[source])
    }
}

/// The effect of moving `source` to `target`. A move onto the same path
/// leaves the object where it is.
pub open spec fn move_effect(
    before: Map<Seq<Seq<char>>, Stored>,
    target_writable: bool,
    source: Seq<Seq<char>>,
    target: Seq<Seq<char>>,
    r: Result<(), TransferErrorView>,
    after: Map<Seq<Seq<char>>, Stored>,
) -> bool {
    if !before.contains_key(source) || !target_writable || source == target {
        copy_effect(before, target_writable, source, target, r, after)
    } else {
        r == Ok::<(), TransferErrorView>(()) && after == before.insert(target, before[source]).remove(source)
    }
}

/// Drains `stream` into `sink` chunk by chunk and has the store keep the
/// result; a failure of the stream is the source's.
fn drain(store: &mut MemoryStore, opened: WriteSink, content_stream: DataStream) -> (r: Result<(), TransferError>)
    requires
        old(store).wf(),
        opened.written().len() == 0,
    ensures
        final(store).wf(),
        final(store).chunk_len() == old(store).chunk_len(),
        forall|q: Seq<Seq<char>>| #[trigger] final(store).writable(q) == old(store).writable(q),
        match content_stream.failure() {
            Some(e) => outcome(r) == Err::<(), TransferErrorView>(TransferErrorView::SourceError(e))
                && final(store).contents() == old(store).contents(),
            None => r is Ok && final(store).contents() == old(store).contents().insert(
                opened.target(),
                Stored { data: content_stream.pending().flatten(), modified: opened.modified_view() },
            ),
        },
{
    let mut sink = opened;
    let mut stream = content_stream;
    let ghost content = stream.pending().flatten();
    let ghost failure = stream.failure();
    let ghost target = sink.target();
    let ghost modified = sink.modified_view();
    assert(sink.written() + stream.pending().flatten() =~= content);
    loop
        invariant
            store.wf(),
            *store == *old(store),
            sink.written() + stream.pending().flatten() == content,
            stream.failure() == failure,
            failure == content_stream.failure(),
            content == content_stream.pending().flatten(),
            target == opened.target(),
            modified == opened.modified_view(),
            sink.target() == target,
            sink.modified_view() == modified,
        decreases stream.pending().len(),
    {
        let ghost pending = stream.pending();
        let ghost written = sink.written();
        match stream.next_item() {
            StreamItem::Chunk(c) => {
                assert(pending.flatten() == pending[0] + pending.drop_first().flatten());
                sink.write_chunk(c);
                assert(sink.written() + stream.pending().flatten() =~= written + pending.flatten());
            },
            StreamItem::End => {
                assert(failure is None);
                assert(pending.len() == 0);
                assert(pending.flatten() =~= Seq::<u8>::empty());
                assert(sink.written() =~= content);
                assert(sink.target() == target);
                store.finalize(sink);
                return Ok(());
            },
            StreamItem::Failed(e) => {
                assert(failure == Some(e@));
                return Err(TransferError::SourceError(e));
            },
        }
    }
}

/// Writes the content of `stream` to the upload's path. Fails with a target
/// error where the store refuses the write, and with a source error where
/// the stream fails.
pub fn write_file_from_stream(store: &mut MemoryStore, info: UploadInfo, stream: DataStream) -> (r: Result<(), TransferError>)
    requires
        old(store).wf(),
    ensures
        final(store).wf(),
        final(store).chunk_len() == old(store).chunk_len(),
        forall|q: Seq<Seq<char>>| #[trigger] final(store).writable(q) == old(store).writable(q),
        write_effect(
            old(store).contents(),
            old(store).writable(info.path@),
            info.path@,
            info.modified,
            stream.pending().flatten(),
            stream.failure(),
            outcome(r),
            final(store).contents(),
        ),
{
    match store.open_write_sink(info) {
        Ok(sink) => drain(store, sink, stream),
        Err(e) => Err(TransferError::TargetError(e)),
    }
}

/// Copies the object at `source` to `target`, keeping its modification
/// time. Fails with a source error where `source` does not exist, before
/// anything is written, and with a target error where the store refuses the
/// write. The source is left as it was.
pub fn copy_file(store: &mut MemoryStore, source: &ObjectPath, target: &ObjectPath) -> (r: Result<(), TransferError>)
    requires
        old(store).wf(),
    ensures
        final(store).wf(),
        final(store).chunk_len() == old(store).chunk_len(),
        forall|q: Seq<Seq<char>>| #[trigger] final(store).writable(q) == old(store).writable(q),
        copy_effect(
            old(store).contents(),
            old(store).writable(target@),
            source@,
            target@,
            outcome(r),
            final(store).contents(),
        ),
{
    let object = match store.get_object(source) {
        Ok(o) => o,
        Err(e) => {
            return Err(TransferError::SourceError(e));
        },
    };
    let stream = match store.get_content_stream(source) {
        Ok(s) => s,
        Err(e) => {
            return Err(TransferError::SourceError(e));
        },
    };
    let info = UploadInfo { path: target.duplicate(), modified: object.modified() };
    let sink = match store.open_write_sink(info) {
        Ok(s) => s,
        Err(e) => {
            return Err(TransferError::TargetError(e));
        },
    };
    let r = drain(store, sink, stream);
    assert(final(store).contents() =~= old(store).contents().insert(target@, old(store).contents()[source@]));
    r
}

/// Moves the object at `source` to `target`: copies it, and only once the
/// copy succeeded deletes the source. A failed copy leaves the source as it
/// was and is reported as `copy_file` reports it; a source that could not be
/// removed after the copy is reported as `SourceNotRemoved`.
pub fn move_file(store: &mut MemoryStore, source: &ObjectPath, target: &ObjectPath) -> (r: Result<(), TransferError>)
    requires
        old(store).wf(),
    ensures
        final(store).wf(),
        final(store).chunk_len() == old(store).chunk_len(),
        forall|q: Seq<Seq<char>>| #[trigger] final(store).writable(q) == old(store).writable(q),
        move_effect(
            old(store).contents(),
            old(store).writable(target@),
            source@,
            target@,
            outcome(r),
            final(store).contents(),
        ),
{
    match copy_file(store, source, target) {
        Ok(()) => {},
        Err(e) => {
            return Err(e);
        },
    }
    if *source == *target {
        assert(final(store).contents() =~= old(store).contents());
        return Ok(());
    }
    match store.delete_object(source) {
        Ok(()) => Ok(()),
        Err(e) => Err(TransferError::SourceNotRemoved(e)),
    }
}

/// The effect on the target store of copying `source`, held by a store with
/// `source_contents`, to `target` in another store.
pub open spec fn copy_across_effect(
    source_contents: Map<Seq<Seq<char>>, Stored>,
    before: Map<Seq<Seq<char>>, Stored>,
    target_writable: bool,
    source: Seq<Seq<char>>,
    target: Seq<Seq<char>>,
    r: Result<(), TransferErrorView>,
    after: Map<Seq<Seq<char>>, Stored>,
) -> bool {
    if !source_contents.contains_key(source) {
        r == Err::<(), TransferErrorView>(TransferErrorView::SourceError(ErrorView::NotFound(source)))
            && after == before
    } else if !target_writable {
        r == Err::<(), TransferErrorView>(TransferErrorView::TargetError(ErrorView::PermissionDenied(target)))
            && after == before
    } else {
        r == Ok::<(), TransferErrorView>(()) && after == before.insert(target, source_contents[source])
    }
}

/// Copies the object at `source` in store `from` to `target` in store `to`,
/// keeping its modification time. Errors are attributed as by `copy_file`;
/// `from` is only read.
pub fn copy_across(from: &MemoryStore, source: &ObjectPath, to: &mut MemoryStore, target: &ObjectPath) -> (r: Result<(), TransferError>)
    requires
        from.wf(),
        old(to).wf(),
    ensures
        final(to).wf(),
        final(to).chunk_len() == old(to).chunk_len(),
        forall|q: Seq<Seq<char>>| #[trigger] final(to).writable(q) == old(to).writable(q),
        copy_across_effect(
            from.contents(),
            old(to).contents(),
            old(to).writable(target@),
            source@,
            target@,
            outcome(r),
            final(to).contents(),
        ),
{
    let object = match from.get_object(source) {
        Ok(o) => o,
        Err(e) => {
            return Err(TransferError::SourceError(e));
        },
    };
    let stream = match from.get_content_stream(source) {
        Ok(s) => s,
        Err(e) => {
            return Err(TransferError::SourceError(e));
        },
    };
    let info = UploadInfo { path: target.duplicate(), modified: object.modified() };
    let sink = match to.open_write_sink(info) {
        Ok(s) => s,
        Err(e) => {
            return Err(TransferError::TargetError(e));
        },
    };
    let r = drain(to, sink, stream);
    assert(final(to).contents() =~= old(to).contents().insert(target@, from.contents()[source@]));
    r
}

/// Moves the object at `source` in store `from` to `target` in store `to`:
/// copies it, and only once the copy succeeded deletes the source.
pub fn move_across(from: &mut MemoryStore, source: &ObjectPath, to: &mut MemoryStore, target: &ObjectPath) -> (r: Result<(), TransferError>)
    requires
        old(from).wf(),
        old(to).wf(),
    ensures
        final(from).wf(),
        final(to).wf(),
        copy_across_effect(
            old(from).contents(),
            old(to).contents(),
            old(to).writable(target@),
            source@,
            target@,
            outcome(r),
            final(to).contents(),
        ),
        r is Ok ==> final(from).contents() == old(from).contents().remove(source@),
        r is Err ==> final(from).contents() == old(from).contents(),
{
    match copy_across(from, source, to, target) {
        Ok(()) => {},
        Err(e) => {
            return Err(e);
        },
    }
    match from.delete_object(source) {
        Ok(()) => Ok(()),
        Err(e) => Err(TransferError::SourceNotRemoved(e)),
    }
}

/// A copy leaves the source as it was, whether it succeeds or fails.
pub proof fn copy_preserves_source(
    before: Map<Seq<Seq<char>>, Stored>,
    target_writable: bool,
    source: Seq<Seq<char>>,
    target: Seq<Seq<char>>,
    r: Result<(), TransferErrorView>,
    after: Map<Seq<Seq<char>>, Stored>,
)
    requires
        copy_effect(before, target_writable, source, target, r, after),
    ensures
        after.contains_key(source) == before.contains_key(source),
        before.contains_key(source) ==> after[source] == before[source],
{
}

/// A successful move removes the source and puts its content at the
/// target; a failed one leaves both source and target as they were.
pub proof fn move_deletes_source_only_on_success(
    before: Map<Seq<Seq<char>>, Stored>,
    target_writable: bool,
    source: Seq<Seq<char>>,
    target: Seq<Seq<char>>,
    r: Result<(), TransferErrorView>,
    after: Map<Seq<Seq<char>>, Stored>,
)
    requires
        move_effect(before, target_writable, source, target, r, after),
        source != target,
    ensures
        r is Ok ==> !after.contains_key(source) && after.contains_key(target) && after[target]
            == before[source],
        r is Err ==> after == before,
{
}

/// A copy from a path that holds nothing fails on the source side with
/// `NotFound`; a copy of an existing object to a target that refuses writes
/// fails on the target side.
pub proof fn copy_error_attribution(
    before: Map<Seq<Seq<char>>, Stored>,
    target_writable: bool,
    source: Seq<Seq<char>>,
    target: Seq<Seq<char>>,
    r: Result<(), TransferErrorView>,
    after: Map<Seq<Seq<char>>, Stored>,
)
    requires
        copy_effect(before, target_writable, source, target, r, after),
    ensures
        !before.contains_key(source) ==> r == Err::<(), TransferErrorView>(
            TransferErrorView::SourceError(ErrorView::NotFound(source)),
        ),
        before.contains_key(source) && !target_writable ==> r matches Err(TransferErrorView::TargetError(_)),
{
}

/// Bytes written from a stream and read back through a content stream come
/// back as they were written, whatever the chunks on either side.
pub proof fn stream_round_trip(
    before: Map<Seq<Seq<char>>, Stored>,
    path: Seq<Seq<char>>,
    modified: Option<crate::objects::Timestamp>,
    written: Seq<Seq<u8>>,
    after: Map<Seq<Seq<char>>, Stored>,
    read_chunks: Seq<Seq<u8>>,
    read: Seq<u8>,
)
    requires
        write_effect(before, true, path, modified, written.flatten(), None, Ok(()), after),
        read_chunks.flatten() == after[path].data,
        read == read_chunks.flatten(),
    ensures
        read == written.flatten(),
{
}

} // verus!
