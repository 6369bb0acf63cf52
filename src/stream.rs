//! The chunked data stream that carries object content, and the blocking
//! reader that hands its bytes to pull-based consumers.

use vstd::prelude::*;

use crate::error::{ErrorView, StorageError};

verus! {

/// One element of a data stream.
#[derive(Debug)]
pub enum StreamItem {
    /// The next piece of content.
    Chunk(Vec<u8>),
    /// The content is complete.
    End,
    /// The stream failed; nothing follows.
    Failed(StorageError),
}

/// The byte views of `v`, last element first.
pub open spec fn reversed_views(v: Seq<Vec<u8>>) -> Seq<Seq<u8>> {
    Seq::new(v.len(), |i: int| v[v.len() - 1 - i]@)
}

/// An ordered, finite, single-pass sequence of byte chunks, ended either by an
/// end marker or by a failure. Chunk sizes are whatever the producer chose.
#[derive(Debug)]
pub struct DataStream {
    /// The chunks still to come, the next one last.
    upcoming: Vec<Vec<u8>>,
    /// The failure that follows the last chunk, if any.
    failure: Option<StorageError>,
}

impl DataStream {
    /// The chunks still to come, in order.
    pub closed spec fn pending(&self) -> Seq<Seq<u8>> {
        reversed_views(self.upcoming@)
    }

    /// The failure that follows the pending chunks, if the stream still holds one.
    pub closed spec fn failure(&self) -> Option<ErrorView> {
        match self.failure {
            Some(e) => Some(e@),
            None => None,
        }
    }

    /// A stream of `chunks` followed by the end marker, or by `failure` where
    /// one is given.
    pub fn new(chunks: Vec<Vec<u8>>, failure: Option<StorageError>) -> (r: DataStream)
        ensures
            r.pending() =~= chunks@.map_values(|c: Vec<u8>| c@),
            r.failure() == (match failure {
                Some(e) => Some(e@),
                None => None::<ErrorView>,
            }),
    {
        let mut rest = chunks;
        let mut upcoming: Vec<Vec<u8>> = Vec::new();
        let ghost all = chunks@.map_values(|c: Vec<u8>| c@);
        while rest.len() > 0
            invariant
                all == chunks@.map_values(|c: Vec<u8>| c@),
                rest@.len() + upcoming@.len() == all.len(),
                forall|i: int| 0 <= i < rest@.len() ==> #[trigger] rest@[i]@ == all[i],
                forall|i: int| 0 <= i < upcoming@.len() ==> #[trigger] upcoming@[i]@ == all[all.len() - 1 - i],
            decreases rest@.len(),
        {
            let c = rest.pop().unwrap();
            upcoming.push(c);
        }
        let r = DataStream { upcoming, failure };
        assert(r.pending() =~= all);
        r
    }

    /// A stream of `chunks` followed by the end marker.
    pub fn from_chunks(chunks: Vec<Vec<u8>>) -> (r: DataStream)
        ensures
            r.pending() =~= chunks@.map_values(|c: Vec<u8>| c@),
            r.failure() is None,
    {
        DataStream::new(chunks, None)
    }

    /// Takes the next element: the next chunk while any is left, then the
    /// failure if there is one, and the end marker from then on.
    pub fn next_item(&mut self) -> (r: StreamItem)
        ensures
            old(self).pending().len() > 0 ==> (r matches StreamItem::Chunk(c) && c@ == old(self).pending()[0]
                && final(self).pending() == old(self).pending().drop_first()
                && final(self).failure() == old(self).failure()),
            old(self).pending().len() == 0 ==> final(self).pending().len() == 0 && final(self).failure() is None
                && match old(self).failure() {
                    Some(e) => r matches StreamItem::Failed(x) && x@ == e,
                    None => r is End,
                },
    {
        match self.upcoming.pop() {
            Some(c) => {
                assert(final(self).pending() =~= old(self).pending().drop_first());
                StreamItem::Chunk(c)
            },
            None => match self.failure.take() {
                Some(e) => StreamItem::Failed(e),
                None => StreamItem::End,
            },
        }
    }
}

/// Hands the bytes of a data stream to a consumer that pulls them into
/// buffers of its own size. It holds at most one chunk and a cursor into it,
/// and pulls the next chunk only once that one is used up.
#[derive(Debug)]
pub struct BlockingStreamReader {
    stream: DataStream,
    chunk: Vec<u8>,
    cursor: usize,
}

impl BlockingStreamReader {
    /// The reader is well formed: its cursor lies within its chunk.
    pub closed spec fn wf(&self) -> bool {
        self.cursor <= self.chunk@.len()
    }

    /// The bytes not yet delivered, in order.
    pub closed spec fn unread(&self) -> Seq<u8> {
        self.chunk@.subrange(self.cursor as int, self.chunk@.len() as int) + self.stream.pending().flatten()
    }

    /// The failure still to be reported once the bytes are delivered.
    pub closed spec fn failure(&self) -> Option<ErrorView> {
        self.stream.failure()
    }

    /// A reader over `stream`.
    pub fn from_stream(stream: DataStream) -> (r: BlockingStreamReader)
        ensures
            r.wf(),
            r.unread() == stream.pending().flatten(),
            r.failure() == stream.failure(),
    {
        let r = BlockingStreamReader { stream, chunk: Vec::new(), cursor: 0 };
        assert(r.unread() =~= stream.pending().flatten());
        r
    }

    /// Reads at most `max` bytes. While bytes remain, at least one is
    /// delivered (when `max` is not zero), in order and each exactly once.
    /// Once they are all delivered, a failure of the stream is reported, once;
    /// after that, and after the end, every read delivers nothing.
    pub fn read(&mut self, max: usize) -> (r: Result<Vec<u8>, StorageError>)
        requires
            old(self).wf(),
        ensures
            final(self).wf(),
            max == 0 ==> r is Ok && r->Ok_0@.len() == 0 && final(self).unread() == old(self).unread()
                && final(self).failure() == old(self).failure(),
            max > 0 && old(self).unread().len() > 0 ==> r is Ok && 0 < r->Ok_0@.len() <= max
                && r->Ok_0@.len() <= old(self).unread().len()
                && r->Ok_0@ == old(self).unread().take(r->Ok_0@.len() as int)
                && final(self).unread() == old(self).unread().skip(r->Ok_0@.len() as int)
                && final(self).failure() == old(self).failure(),
            max > 0 && old(self).unread().len() == 0 ==> final(self).unread().len() == 0
                && final(self).failure() is None
                && match old(self).failure() {
                    Some(e) => r matches Err(x) && x@ == e,
                    None => r is Ok && r->Ok_0@.len() == 0,
                },
    {
        if max == 0 {
            return Ok(Vec::new());
        }
        while self.cursor >= self.chunk.len()
            invariant
                max > 0,
                self.wf(),
                self.unread() == old(self).unread(),
                self.failure() == old(self).failure(),
            decreases self.stream.pending().len(),
        {
            let ghost before = self.stream.pending();
            assert(self.chunk@.subrange(self.cursor as int, self.chunk@.len() as int) =~= Seq::<u8>::empty());
            match self.stream.next_item() {
                StreamItem::Chunk(c) => {
                    self.chunk = c;
                    self.cursor = 0;
                    assert(self.chunk@.subrange(0, self.chunk@.len() as int) =~= self.chunk@);
                    assert(before.flatten() == before[0] + before.drop_first().flatten());
                },
                StreamItem::End => {
                    return Ok(Vec::new());
                },
                StreamItem::Failed(e) => {
                    return Err(e);
                },
            }
        }
        let start = self.cursor;
        let avail = self.chunk.len() - start;
        let count = if avail < max {
            avail
        } else {
            max
        };
        let mut out: Vec<u8> = Vec::new();
        let mut i: usize = 0;
        while i < count
            invariant
                self.wf(),
                start == self.cursor,
                start <= self.chunk@.len(),
                start + count <= self.chunk.len(),
                i <= count,
                out@ == self.chunk@.subrange(start as int, start + i),
            decreases count - i,
        {
            out.push(self.chunk[start + i]);
            assert(self.chunk@.subrange(start as int, start + i + 1) =~= self.chunk@.subrange(start as int, start + i).push(self.chunk@[start + i]));
            i = i + 1;
        }
        self.cursor = start + count;
        let ghost u = old(self).unread();
        let ghost rest = self.stream.pending().flatten();
        assert(u =~= self.chunk@.subrange(start as int, self.chunk@.len() as int) + rest);
        assert(out@ =~= u.take(count as int));
        assert(self.unread() =~= u.skip(count as int));
        Ok(out)
    }

    /// Reads every remaining byte. Fails with the stream's failure if it has one.
    pub fn read_to_end(&mut self) -> (r: Result<Vec<u8>, StorageError>)
        requires
            old(self).wf(),
        ensures
            final(self).wf(),
            final(self).unread().len() == 0,
            final(self).failure() is None,
            match old(self).failure() {
                Some(e) => r matches Err(x) && x@ == e,
                None => r matches Ok(v) && v@ == old(self).unread(),
            },
    {
        let mut all: Vec<u8> = Vec::new();
        loop
            invariant
                self.wf(),
                all@ + self.unread() == old(self).unread(),
                self.failure() == old(self).failure(),
            decreases self.unread().len(),
        {
            let ghost before = self.unread();
            match self.read(4096) {
                Ok(mut part) => {
                    if part.len() == 0 {
                        assert(all@ =~= old(self).unread());
                        return Ok(all);
                    }
                    let ghost p = part@;
                    all.append(&mut part);
                    assert(p =~= before.take(p.len() as int));
                    assert(all@ + self.unread() =~= old(self).unread()) by {
                        assert(before =~= before.take(p.len() as int) + before.skip(p.len() as int));
                    }
                },
                Err(e) => {
                    return Err(e);
                },
            }
        }
    }
}

} // verus!
