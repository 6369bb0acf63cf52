//! A backend that keeps objects in memory. It offers the capabilities that
//! the transfer operations need: metadata, content streams, write sinks and
//! deletion.

use vstd::prelude::*;

use crate::error::{ErrorView, StorageError};
use crate::objects::{FileObject, Object, ObjectInfo, ObjectType, Timestamp, UploadInfo};
use crate::path::ObjectPath;
use crate::stream::DataStream;

verus! {

/// What the store holds at one path.
pub ghost struct Stored {
    pub data: Seq<u8>,
    pub modified: Option<Timestamp>,
}

/// `a` is `b` or one of its ancestors.
pub open spec fn is_prefix(a: Seq<Seq<char>>, b: Seq<Seq<char>>) -> bool {
    a.len() <= b.len() && b.subrange(0, a.len() as int) == a
}

#[derive(Debug)]
struct Entry {
    path: ObjectPath,
    data: Vec<u8>,
    modified: Option<Timestamp>,
}

impl Entry {
    spec fn stored(&self) -> Stored {
        Stored { data: self.data@, modified: self.modified }
    }
}

/// Bytes `from..to` of `v`.
fn copy_range(v: &Vec<u8>, from: usize, to: usize) -> (r: Vec<u8>)
    requires
        from <= to <= v@.len(),
    ensures
        r@ == v@.subrange(from as int, to as int),
{
    let mut out: Vec<u8> = Vec::new();
    let mut i: usize = from;
    while i < to
        invariant
            from <= i <= to,
            to <= v@.len(),
            out@ == v@.subrange(from as int, i as int),
        decreases to - i,
    {
        out.push(v[i]);
        assert(v@.subrange(from as int, i + 1) =~= v@.subrange(from as int, i as int).push(v@[i as int]));
        i = i + 1;
    }
    out
}

/// Writes chunks to one path of a store; nothing is stored until the store
/// finalizes it.
#[derive(Debug)]
pub struct WriteSink {
    path: ObjectPath,
    modified: Option<Timestamp>,
    data: Vec<u8>,
}

impl WriteSink {
    /// The path the sink writes to.
    pub closed spec fn target(&self) -> Seq<Seq<char>> {
        self.path@
    }

    /// The bytes written so far.
    pub closed spec fn written(&self) -> Seq<u8> {
        self.data@
    }

    /// The modification time the object will carry.
    pub closed spec fn modified_view(&self) -> Option<Timestamp> {
        self.modified
    }

    /// Appends a chunk.
    pub fn write_chunk(&mut self, chunk: Vec<u8>)
        ensures
            final(self).written() == old(self).written() + chunk@,
            final(self).target() == old(self).target(),
            final(self).modified_view() == old(self).modified_view(),
    {
        let mut c = chunk;
        self.data.append(&mut c);
    }
}

/// Objects kept in memory, with paths under which writes are refused.
pub struct MemoryStore {
    entries: Vec<Entry>,
    read_only: Vec<ObjectPath>,
    chunk_size: usize,
    model: Ghost<Map<Seq<Seq<char>>, Stored>>,
}

impl MemoryStore {
    /// What the store holds, by path.
    pub closed spec fn contents(&self) -> Map<Seq<Seq<char>>, Stored> {
        self.model@
    }

    /// Writes to `p` are accepted.
    pub closed spec fn writable(&self, p: Seq<Seq<char>>) -> bool {
        forall|i: int| 0 <= i < self.read_only@.len() ==> !is_prefix(#[trigger] self.read_only@[i]@, p)
    }

    /// The size of the chunks that content streams carry.
    pub closed spec fn chunk_len(&self) -> nat {
        self.chunk_size as nat
    }

    /// The entries hold exactly the contents, one entry per path.
    pub closed spec fn wf(&self) -> bool {
        &&& self.chunk_size > 0
        &&& forall|i: int|
            0 <= i < self.entries@.len() ==> #[trigger] self.model@.contains_key(self.entries@[i].path@)
                && self.model@[self.entries@[i].path@] == self.entries@[i].stored()
        &&& forall|p: Seq<Seq<char>>|
            #[trigger] self.model@.contains_key(p) ==> exists|i: int|
                0 <= i < self.entries@.len() && #[trigger] self.entries@[i].path@ == p
        &&& forall|i: int, j: int|
            0 <= i < j < self.entries@.len() ==> #[trigger] self.entries@[i].path@ != #[trigger] self.entries@[j].path@
    }

    /// An empty store whose content streams carry chunks of `chunk_size` bytes.
    pub fn new(chunk_size: usize) -> (r: MemoryStore)
        requires
            chunk_size > 0,
        ensures
            r.wf(),
            r.contents() == Map::<Seq<Seq<char>>, Stored>::empty(),
            r.chunk_len() == chunk_size,
            forall|p: Seq<Seq<char>>| r.writable(p),
    {
        MemoryStore {
            entries: Vec::new(),
            read_only: Vec::new(),
            chunk_size,
            model: Ghost(Map::empty()),
        }
    }

    /// Refuses writes to `prefix` and to every path below it from now on.
    pub fn deny_writes(&mut self, prefix: ObjectPath)
        requires
            old(self).wf(),
        ensures
            final(self).wf(),
            final(self).contents() == old(self).contents(),
            final(self).chunk_len() == old(self).chunk_len(),
            forall|p: Seq<Seq<char>>|
                #[trigger] final(self).writable(p) == (old(self).writable(p) && !is_prefix(prefix@, p)),
    {
        let ghost pv = prefix@;
        self.read_only.push(prefix);
        assert forall|p: Seq<Seq<char>>|
            #[trigger] self.writable(p) == (old(self).writable(p) && !is_prefix(pv, p)) by {
            if old(self).writable(p) && !is_prefix(pv, p) {
                assert forall|i: int| 0 <= i < self.read_only@.len() implies !is_prefix(
                    #[trigger] self.read_only@[i]@,
                    p,
                ) by {
                    if i < old(self).read_only@.len() {
                        assert(self.read_only@[i] == old(self).read_only@[i]);
                    }
                }
            }
            if !old(self).writable(p) {
                let i = choose|i: int|
                    0 <= i < old(self).read_only@.len() && is_prefix(#[trigger] old(self).read_only@[i]@, p);
                assert(self.read_only@[i] == old(self).read_only@[i]);
            }
            if is_prefix(pv, p) {
                assert(self.read_only@[old(self).read_only@.len() as int]@ == pv);
            }
        }
    }

    /// Whether writes to `p` are accepted.
    pub fn is_writable(&self, p: &ObjectPath) -> (r: bool)
        ensures
            r == self.writable(p@),
    {
        let mut i: usize = 0;
        while i < self.read_only.len()
            invariant
                i <= self.read_only@.len(),
                forall|k: int| 0 <= k < i ==> !is_prefix(#[trigger] self.read_only@[k]@, p@),
            decreases self.read_only@.len() - i,
        {
            if p.starts_with(&self.read_only[i]) {
                return false;
            }
            i = i + 1;
        }
        true
    }

    /// The index of the entry at `p`.
    fn find(&self, p: &ObjectPath) -> (r: Option<usize>)
        requires
            self.wf(),
        ensures
            match r {
                Some(i) => i < self.entries@.len() && self.entries@[i as int].path@ == p@
                    && self.contents().contains_key(p@),
                None => !self.contents().contains_key(p@),
            },
    {
        let mut i: usize = 0;
        while i < self.entries.len()
            invariant
                self.wf(),
                i <= self.entries@.len(),
                forall|k: int| 0 <= k < i ==> #[trigger] self.entries@[k].path@ != p@,
            decreases self.entries@.len() - i,
        {
            if self.entries[i].path == *p {
                return Some(i);
            }
            i = i + 1;
        }
        None
    }

    /// Removes the entry at index `i`.
    fn take_entry(&mut self, i: usize)
        requires
            old(self).wf(),
            i < old(self).entries@.len(),
        ensures
            final(self).wf(),
            final(self).contents() == old(self).contents().remove(old(self).entries@[i as int].path@),
            final(self).read_only == old(self).read_only,
            final(self).chunk_size == old(self).chunk_size,
    {
        let ghost old_entries = self.entries@;
        let ghost p = old_entries[i as int].path@;
        let ghost last = old_entries.len() - 1;
        self.entries.swap_remove(i);
        self.model = Ghost(self.model@.remove(p));
        let ghost new_entries = self.entries@;
        assert forall|k: int| 0 <= k < new_entries.len() implies #[trigger] new_entries[k] == (if k == i {
            old_entries[last]
        } else {
            old_entries[k]
        }) by {}
        assert forall|k: int| 0 <= k < new_entries.len() implies #[trigger] self.model@.contains_key(
            new_entries[k].path@,
        ) && self.model@[new_entries[k].path@] == new_entries[k].stored() by {
            let ok = if k == i {
                last
            } else {
                k
            };
            assert(new_entries[k] == old_entries[ok]);
            assert(old(self).model@.contains_key(old_entries[ok].path@));
            if ok < i {
                assert(old_entries[ok].path@ != old_entries[i as int].path@);
            } else if ok > i {
                assert(old_entries[i as int].path@ != old_entries[ok].path@);
            }
            assert(old_entries[ok].path@ != p);
        }
        assert forall|q: Seq<Seq<char>>| #[trigger] self.model@.contains_key(q) implies exists|k: int|
            0 <= k < new_entries.len() && #[trigger] new_entries[k].path@ == q by {
            let ok = choose|ok: int| 0 <= ok < old_entries.len() && #[trigger] old_entries[ok].path@ == q;
            assert(ok != i);
            if ok == last {
                assert(new_entries[i as int].path@ == q);
            } else {
                assert(new_entries[ok].path@ == q);
            }
        }
        assert forall|a: int, b: int| 0 <= a < b < new_entries.len() implies #[trigger] new_entries[a].path@
            != #[trigger] new_entries[b].path@ by {
            let oa = if a == i {
                last
            } else {
                a
            };
            let ob = if b == i {
                last
            } else {
                b
            };
            assert(new_entries[a] == old_entries[oa]);
            assert(new_entries[b] == old_entries[ob]);
            if oa < ob {
                assert(old_entries[oa].path@ != old_entries[ob].path@);
            } else {
                assert(old_entries[ob].path@ != old_entries[oa].path@);
            }
        }
    }

    /// Stores `data` at `path`, replacing what was there.
    fn put(&mut self, path: ObjectPath, data: Vec<u8>, modified: Option<Timestamp>)
        requires
            old(self).wf(),
        ensures
            final(self).wf(),
            final(self).contents() == old(self).contents().insert(path@, Stored { data: data@, modified }),
            final(self).read_only == old(self).read_only,
            final(self).chunk_size == old(self).chunk_size,
    {
        let ghost p = path@;
        match self.find(&path) {
            Some(i) => {
                self.take_entry(i);
            },
            None => {},
        }
        let ghost before = self.entries@;
        assert(!self.model@.contains_key(p));
        let e = Entry { path, data, modified };
        let ghost st = e.stored();
        self.entries.push(e);
        self.model = Ghost(self.model@.insert(p, st));
        assert(self.model@ =~= old(self).contents().insert(p, st));
        assert forall|k: int| 0 <= k < self.entries@.len() implies #[trigger] self.model@.contains_key(
            self.entries@[k].path@,
        ) && self.model@[self.entries@[k].path@] == self.entries@[k].stored() by {
            if k < before.len() {
                assert(self.entries@[k] == before[k]);
                assert(before[k].path@ != p);
            }
        }
        assert forall|q: Seq<Seq<char>>| #[trigger] self.model@.contains_key(q) implies exists|k: int|
            0 <= k < self.entries@.len() && #[trigger] self.entries@[k].path@ == q by {
            if q == p {
                assert(self.entries@[before.len() as int].path@ == q);
            } else {
                let k = choose|k: int| 0 <= k < before.len() && #[trigger] before[k].path@ == q;
                assert(self.entries@[k] == before[k]);
            }
        }
        assert forall|a: int, b: int| 0 <= a < b < self.entries@.len() implies #[trigger] self.entries@[a].path@
            != #[trigger] self.entries@[b].path@ by {
            assert(self.entries@[a] == before[a]);
            if b < before.len() {
                assert(self.entries@[b] == before[b]);
            } else {
                assert(before[a].path@ != p);
            }
        }
    }

    /// The metadata of the object at `p`; fails with `NotFound` if there is none.
    pub fn get_object(&self, p: &ObjectPath) -> (r: Result<Object, StorageError>)
        requires
            self.wf(),
        ensures
            match r {
                Ok(o) => self.contents().contains_key(p@) && o.path_view() == p@
                    && o.len_view() == self.contents()[p@].data.len()
                    && o.type_view() == ObjectType::File
                    && o.modified_view() == self.contents()[p@].modified,
                Err(e) => !self.contents().contains_key(p@) && e@ == ErrorView::NotFound(p@),
            },
    {
        match self.find(p) {
            Some(i) => {
                let e = &self.entries[i];
                let o = FileObject::new(p.duplicate(), e.data.len() as u64, ObjectType::File, e.modified);
                Ok(Object::File(o))
            },
            None => Err(StorageError::NotFound(p.duplicate())),
        }
    }

    /// A stream of the content at `p`, in chunks of the store's chunk size;
    /// fails with `NotFound` if nothing is there.
    pub fn get_content_stream(&self, p: &ObjectPath) -> (r: Result<DataStream, StorageError>)
        requires
            self.wf(),
        ensures
            match r {
                Ok(s) => self.contents().contains_key(p@) && s.pending().flatten() == self.contents()[p@].data
                    && s.failure() is None
                    && forall|i: int| 0 <= i < s.pending().len() ==> 0 < (#[trigger] s.pending()[i]).len() <= self.chunk_len(),
                Err(e) => !self.contents().contains_key(p@) && e@ == ErrorView::NotFound(p@),
            },
    {
        let i = match self.find(p) {
            Some(i) => i,
            None => {
                return Err(StorageError::NotFound(p.duplicate()));
            },
        };
        let data = &self.entries[i].data;
        let n = data.len();
        let size = self.chunk_size;
        let mut chunks: Vec<Vec<u8>> = Vec::new();
        let mut pos: usize = 0;
        while pos < n
            invariant
                n == data@.len(),
                size > 0,
                size == self.chunk_len(),
                pos <= n,
                chunks@.map_values(|c: Vec<u8>| c@).flatten() == data@.subrange(0, pos as int),
                forall|k: int| 0 <= k < chunks@.len() ==> 0 < (#[trigger] chunks@[k])@.len() <= size,
            decreases n - pos,
        {
            let end = if n - pos < size {
                n
            } else {
                pos + size
            };
            let piece = copy_range(data, pos, end);
            let ghost before = chunks@.map_values(|c: Vec<u8>| c@);
            let ghost pv = piece@;
            chunks.push(piece);
            proof {
                assert(chunks@.map_values(|c: Vec<u8>| c@) =~= before.push(pv));
                before.lemma_flatten_push(pv);
                assert(data@.subrange(0, end as int) =~= data@.subrange(0, pos as int) + pv);
            }
            pos = end;
        }
        assert(data@.subrange(0, n as int) =~= data@);
        let ghost views = chunks@.map_values(|c: Vec<u8>| c@);
        let s = DataStream::from_chunks(chunks);
        assert forall|k: int| 0 <= k < s.pending().len() implies 0 < (#[trigger] s.pending()[k]).len() <= size by {
            assert(s.pending()[k] == views[k]);
        }
        Ok(s)
    }

    /// Opens a sink that writes to the upload's path; fails with
    /// `PermissionDenied` where the store refuses writes there.
    pub fn open_write_sink(&self, info: UploadInfo) -> (r: Result<WriteSink, StorageError>)
        ensures
            match r {
                Ok(s) => self.writable(info.path@) && s.target() == info.path@ && s.written().len() == 0
                    && s.modified_view() == info.modified,
                Err(e) => !self.writable(info.path@) && e@ == ErrorView::PermissionDenied(info.path@),
            },
    {
        if !self.is_writable(&info.path) {
            return Err(StorageError::PermissionDenied(info.path));
        }
        Ok(WriteSink { path: info.path, modified: info.modified, data: Vec::new() })
    }

    /// Stores what the sink received at its path, replacing what was there.
    pub fn finalize(&mut self, sink: WriteSink)
        requires
            old(self).wf(),
        ensures
            final(self).wf(),
            final(self).contents() == old(self).contents().insert(
                sink.target(),
                Stored { data: sink.written(), modified: sink.modified_view() },
            ),
            final(self).chunk_len() == old(self).chunk_len(),
            forall|q: Seq<Seq<char>>| #[trigger] final(self).writable(q) == old(self).writable(q),
    {
        self.put(sink.path, sink.data, sink.modified);
    }

    /// The objects at `prefix` and below it, each once.
    pub fn list_objects(&self, prefix: &ObjectPath) -> (r: Vec<Object>)
        requires
            self.wf(),
        ensures
            forall|i: int|
                0 <= i < r@.len() ==> is_prefix(prefix@, #[trigger] r@[i].path_view())
                    && self.contents().contains_key(r@[i].path_view())
                    && r@[i].len_view() == self.contents()[r@[i].path_view()].data.len()
                    && r@[i].type_view() == ObjectType::File
                    && r@[i].modified_view() == self.contents()[r@[i].path_view()].modified,
            forall|q: Seq<Seq<char>>|
                #[trigger] self.contents().contains_key(q) && is_prefix(prefix@, q) ==> exists|i: int|
                    0 <= i < r@.len() && #[trigger] r@[i].path_view() == q,
            forall|i: int, j: int|
                0 <= i < j < r@.len() ==> #[trigger] r@[i].path_view() != #[trigger] r@[j].path_view(),
    {
        let mut out: Vec<Object> = Vec::new();
        let ghost mut from: Seq<int> = Seq::empty();
        let mut k: usize = 0;
        while k < self.entries.len()
            invariant
                self.wf(),
                k <= self.entries@.len(),
                from.len() == out@.len(),
                forall|i: int|
                    0 <= i < out@.len() ==> 0 <= #[trigger] from[i] < k && out@[i].path_view()
                        == self.entries@[from[i]].path@ && is_prefix(prefix@, out@[i].path_view())
                        && out@[i].len_view() == self.entries@[from[i]].data@.len()
                        && out@[i].type_view() == ObjectType::File
                        && out@[i].modified_view() == self.entries@[from[i]].modified,
                forall|i: int, j: int| 0 <= i < j < out@.len() ==> #[trigger] from[i] < #[trigger] from[j],
                forall|m: int|
                    0 <= m < k && is_prefix(prefix@, #[trigger] self.entries@[m].path@) ==> exists|i: int|
                        0 <= i < out@.len() && #[trigger] from[i] == m,
            decreases self.entries@.len() - k,
        {
            let e = &self.entries[k];
            if e.path.starts_with(prefix) {
                let o = FileObject::new(e.path.duplicate(), e.data.len() as u64, ObjectType::File, e.modified);
                let ghost before = from;
                out.push(Object::File(o));
                proof {
                    from = from.push(k as int);
                    assert(from[before.len() as int] == k);
                    assert forall|m: int|
                        0 <= m < k + 1 && is_prefix(prefix@, #[trigger] self.entries@[m].path@) implies exists|i: int|
                        0 <= i < out@.len() && #[trigger] from[i] == m by {
                        if m < k {
                            let i = choose|i: int| 0 <= i < before.len() && #[trigger] before[i] == m;
                            assert(from[i] == m);
                        } else {
                            assert(from[before.len() as int] == m);
                        }
                    }
                }
            }
            k = k + 1;
        }
        proof {
            assert forall|i: int| 0 <= i < out@.len() implies self.contents().contains_key(
                #[trigger] out@[i].path_view(),
            ) && out@[i].len_view() == self.contents()[out@[i].path_view()].data.len()
                && out@[i].modified_view() == self.contents()[out@[i].path_view()].modified
                && is_prefix(prefix@, out@[i].path_view()) && out@[i].type_view() == ObjectType::File by {
                assert(0 <= from[i] < self.entries@.len());
                assert(self.model@.contains_key(self.entries@[from[i]].path@));
                assert(self.model@[self.entries@[from[i]].path@] == self.entries@[from[i]].stored());
            }
            assert forall|q: Seq<Seq<char>>|
                #[trigger] self.contents().contains_key(q) && is_prefix(prefix@, q) implies exists|i: int|
                0 <= i < out@.len() && #[trigger] out@[i].path_view() == q by {
                let m = choose|m: int| 0 <= m < self.entries@.len() && #[trigger] self.entries@[m].path@ == q;
                let i = choose|i: int| 0 <= i < out@.len() && #[trigger] from[i] == m;
                assert(out@[i].path_view() == q);
            }
            assert forall|i: int, j: int| 0 <= i < j < out@.len() implies #[trigger] out@[i].path_view()
                != #[trigger] out@[j].path_view() by {
                assert(from[i] < from[j]);
            }
        }
        out
    }

    /// Deletes the object at `p`; fails with `NotFound` if there is none.
    pub fn delete_object(&mut self, p: &ObjectPath) -> (r: Result<(), StorageError>)
        requires
            old(self).wf(),
        ensures
            final(self).wf(),
            final(self).chunk_len() == old(self).chunk_len(),
            forall|q: Seq<Seq<char>>| #[trigger] final(self).writable(q) == old(self).writable(q),
            match r {
                Ok(()) => old(self).contents().contains_key(p@)
                    && final(self).contents() == old(self).contents().remove(p@),
                Err(e) => !old(self).contents().contains_key(p@) && e@ == ErrorView::NotFound(p@)
                    && final(self).contents() == old(self).contents(),
            },
    {
        match self.find(p) {
            Some(i) => {
                self.take_entry(i);
                Ok(())
            },
            None => Err(StorageError::NotFound(p.duplicate())),
        }
    }
}

} // verus!
