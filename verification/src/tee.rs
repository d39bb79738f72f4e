//! The tee pipeline: duplicates an origin byte stream onto the client and
//! a blob-file writer under a bounded back-pressure queue.
//!
//! The pipe is the pipeline's bookkeeping: callers feed it the origin
//! chunks as they arrive and forward what it returns to the client; a
//! writer task pops queued chunks and writes them to the destination file.
//! The pipe guarantees that the client is handed exactly the origin bytes,
//! queue overflow or writer failure notwithstanding, and that a blob may
//! be registered only when the writer has drained a cleanly finished
//! stream — in which case the bytes handed to the writer are exactly the
//! origin bytes. A partial file is never registered.

use vstd::prelude::*;

verus! {

/// The queued chunks, flattened to the byte sequence they carry.
pub open spec fn flat_bytes(q: Seq<Vec<u8>>) -> Seq<u8>
    decreases q.len(),
{
    if q.len() == 0 {
        Seq::empty()
    } else {
        q.first()@ + flat_bytes(q.drop_first())
    }
}

/// Appending a chunk appends its bytes.
pub proof fn lemma_flat_bytes_push(q: Seq<Vec<u8>>, c: Vec<u8>)
    ensures
        flat_bytes(q.push(c)) == flat_bytes(q) + c@,
    decreases q.len(),
{
    if q.len() == 0 {
        assert(q.push(c).first() == c);
        assert(q.push(c).drop_first() =~= Seq::<Vec<u8>>::empty());
        assert(flat_bytes(Seq::<Vec<u8>>::empty()) =~= Seq::<u8>::empty());
        assert(flat_bytes(q.push(c).drop_first()) =~= Seq::<u8>::empty());
        assert(flat_bytes(q) =~= Seq::<u8>::empty());
        assert(flat_bytes(q.push(c)) =~= c@ + Seq::<u8>::empty());
        assert(c@ + Seq::<u8>::empty() =~= Seq::<u8>::empty() + c@);
    } else {
        assert(q.push(c).first() == q.first());
        assert(q.push(c).drop_first() =~= q.drop_first().push(c));
        lemma_flat_bytes_push(q.drop_first(), c);
        assert(q.first()@ + (flat_bytes(q.drop_first()) + c@) =~= (q.first()@ + flat_bytes(
            q.drop_first(),
        )) + c@);
    }
}

fn clone_bytes(v: &Vec<u8>) -> (r: Vec<u8>)
    ensures
        r@ == v@,
{
    let n = v.len();
    let mut out: Vec<u8> = Vec::new();
    let mut i: usize = 0;
    while i < n
        invariant
            n == v@.len(),
            i <= n,
            out@.len() == i,
            forall|j: int| 0 <= j < i ==> out@[j] == v@[j],
        decreases n - i,
    {
        out.push(v[i]);
        i += 1;
    }
    proof {
        assert(out@ =~= v@);
    }
    out
}

/// One tee-streaming session.
pub struct TeePipe {
    /// Chunks awaiting the writer, oldest first.
    queue: Vec<Vec<u8>>,
    /// Back-pressure bound on the queue.
    capacity: usize,
    /// Cleared once a chunk could not be queued or the writer reported a
    /// write error: the blob must not be registered.
    writer_live: bool,
    /// Set when the origin stream finished cleanly.
    origin_done: bool,
    /// Bytes the origin has yielded.
    source: Ghost<Seq<u8>>,
    /// Bytes forwarded to the client.
    delivered: Ghost<Seq<u8>>,
    /// Bytes handed to the writer for the blob file.
    handed: Ghost<Seq<u8>>,
}

impl TeePipe {
    pub closed spec fn spec_queue(self) -> Seq<Vec<u8>> {
        self.queue@
    }

    pub closed spec fn spec_capacity(self) -> usize {
        self.capacity
    }

    pub closed spec fn spec_writer_live(self) -> bool {
        self.writer_live
    }

    pub closed spec fn spec_origin_done(self) -> bool {
        self.origin_done
    }

    pub closed spec fn spec_source(self) -> Seq<u8> {
        self.source@
    }

    pub closed spec fn spec_delivered(self) -> Seq<u8> {
        self.delivered@
    }

    pub closed spec fn spec_handed(self) -> Seq<u8> {
        self.handed@
    }

    /// The pipeline's accounting: every origin byte has been forwarded to
    /// the client, and while the writer is live, the bytes it was handed
    /// followed by the bytes still queued are exactly the origin bytes.
    pub open spec fn wf(self) -> bool {
        &&& self.spec_delivered() == self.spec_source()
        &&& self.spec_writer_live() ==> self.spec_handed() + flat_bytes(self.spec_queue())
            == self.spec_source()
        &&& self.spec_queue().len() <= self.spec_capacity()
    }

    /// A fresh pipe with the given back-pressure bound.
    pub fn new(capacity: usize) -> (r: Self)
        requires
            capacity >= 1,
        ensures
            r.wf(),
            r.spec_capacity() == capacity,
            r.spec_writer_live(),
            !r.spec_origin_done(),
            r.spec_source() == Seq::<u8>::empty(),
            r.spec_handed() == Seq::<u8>::empty(),
            r.spec_queue().len() == 0,
    {
        let r = TeePipe {
            queue: Vec::new(),
            capacity,
            writer_live: true,
            origin_done: false,
            source: Ghost(Seq::empty()),
            delivered: Ghost(Seq::empty()),
            handed: Ghost(Seq::empty()),
        };
        proof {
            assert(flat_bytes(r.spec_queue()) =~= Seq::<u8>::empty());
            assert(r.spec_handed() + flat_bytes(r.spec_queue()) =~= r.spec_source());
        }
        r
    }

    /// Accepts one origin chunk: the chunk itself is returned for the
    /// client, and a copy is queued for the writer. When the queue is full
    /// or the writer already gave up, the copy is dropped and the writer is
    /// marked dead — client delivery is never disturbed.
    pub fn on_chunk(&mut self, chunk: Vec<u8>) -> (forward: Vec<u8>)
        requires
            old(self).wf(),
            !old(self).spec_origin_done(),
        ensures
            final(self).wf(),
            forward@ == chunk@,
            final(self).spec_capacity() == old(self).spec_capacity(),
            !final(self).spec_origin_done(),
            final(self).spec_source() == old(self).spec_source() + chunk@,
            final(self).spec_delivered() == old(self).spec_delivered() + chunk@,
            final(self).spec_handed() == old(self).spec_handed(),
            old(self).spec_writer_live() && old(self).spec_queue().len() < old(self).spec_capacity() ==> final(self).spec_writer_live() && final(self).spec_queue().drop_last() == old(self).spec_queue() && final(self).spec_queue().len()
                == old(self).spec_queue().len() + 1 && final(self).spec_queue().last()@ == chunk@,
            !(old(self).spec_writer_live() && old(self).spec_queue().len() < old(self).spec_capacity()) ==> !final(self).spec_writer_live() && final(self).spec_queue()
                == old(self).spec_queue(),
    {
        proof {
            self.source@ = self.source@ + chunk@;
            self.delivered@ = self.delivered@ + chunk@;
        }
        if self.writer_live && self.queue.len() < self.capacity {
            let copy = clone_bytes(&chunk);
            proof {
                lemma_flat_bytes_push(self.queue@, copy);
            }
            self.queue.push(copy);
            proof {
                assert(self.handed@ + flat_bytes(self.queue@) =~= self.source@);
            }
        } else {
            self.writer_live = false;
        }
        chunk
    }

    /// Hands the writer its next chunk, oldest first; absent when the
    /// queue is drained.
    pub fn writer_pop(&mut self) -> (r: Option<Vec<u8>>)
        requires
            old(self).wf(),
        ensures
            final(self).wf(),
            final(self).spec_capacity() == old(self).spec_capacity(),
            final(self).spec_writer_live() == old(self).spec_writer_live(),
            final(self).spec_origin_done() == old(self).spec_origin_done(),
            final(self).spec_source() == old(self).spec_source(),
            final(self).spec_delivered() == old(self).spec_delivered(),
            old(self).spec_queue().len() == 0 ==> r is None && *final(self) == *old(self),
            old(self).spec_queue().len() > 0 ==> (r matches Some(c) && c
                == old(self).spec_queue().first() && final(self).spec_queue() == old(self).spec_queue().drop_first() && final(self).spec_handed() == old(self).spec_handed()
                + c@),
    {
        if self.queue.len() == 0 {
            return None;
        }
        let ghost q0 = self.queue@;
        let c = self.queue.remove(0);
        proof {
            assert(self.queue@ =~= q0.drop_first());
            self.handed@ = self.handed@ + c@;
            if self.writer_live {
                assert(self.handed@ + flat_bytes(self.queue@) =~= self.source@);
            }
        }
        Some(c)
    }

    /// Records a write error in the writer: the blob will not be
    /// registered.
    pub fn writer_fail(&mut self)
        requires
            old(self).wf(),
        ensures
            final(self).wf(),
            !final(self).spec_writer_live(),
            final(self).spec_capacity() == old(self).spec_capacity(),
            final(self).spec_origin_done() == old(self).spec_origin_done(),
            final(self).spec_source() == old(self).spec_source(),
            final(self).spec_delivered() == old(self).spec_delivered(),
            final(self).spec_handed() == old(self).spec_handed(),
            final(self).spec_queue() == old(self).spec_queue(),
    {
        self.writer_live = false;
    }

    /// Marks the origin stream as finished cleanly.
    pub fn origin_end(&mut self)
        requires
            old(self).wf(),
        ensures
            final(self).wf(),
            final(self).spec_origin_done(),
            final(self).spec_writer_live() == old(self).spec_writer_live(),
            final(self).spec_capacity() == old(self).spec_capacity(),
            final(self).spec_source() == old(self).spec_source(),
            final(self).spec_delivered() == old(self).spec_delivered(),
            final(self).spec_handed() == old(self).spec_handed(),
            final(self).spec_queue() == old(self).spec_queue(),
    {
        self.origin_done = true;
    }

    /// Whether the origin stream has finished cleanly.
    pub fn is_origin_done(&self) -> (r: bool)
        ensures
            r == self.spec_origin_done(),
    {
        self.origin_done
    }

    /// Whether the writer may still commit the blob.
    pub fn is_writer_live(&self) -> (r: bool)
        ensures
            r == self.spec_writer_live(),
    {
        self.writer_live
    }

    /// How many chunks await the writer.
    pub fn queue_len(&self) -> (r: usize)
        ensures
            r == self.spec_queue().len(),
    {
        self.queue.len()
    }

    /// Whether the blob may be registered: the origin finished cleanly and
    /// the writer drained everything without failing. When it may, the
    /// bytes handed to the writer are exactly the origin bytes.
    pub fn commit_ready(&self) -> (r: bool)
        requires
            self.wf(),
        ensures
            r == (self.spec_origin_done() && self.spec_writer_live() && self.spec_queue().len()
                == 0),
            r ==> self.spec_handed() == self.spec_source(),
    {
        proof {
            if self.writer_live && self.queue@.len() == 0 {
                assert(flat_bytes(self.queue@) =~= Seq::<u8>::empty());
                assert(self.handed@ + flat_bytes(self.queue@) =~= self.handed@);
            }
        }
        self.origin_done && self.writer_live && self.queue.len() == 0
    }
}

/// Tee fidelity: the client is handed exactly the origin bytes, always;
/// and when the writer has drained a clean stream without failing, the
/// bytes handed to the blob file are exactly the origin bytes as well.
pub proof fn lemma_tee_fidelity(t: TeePipe)
    requires
        t.wf(),
    ensures
        t.spec_delivered() == t.spec_source(),
        t.spec_writer_live() && t.spec_queue().len() == 0 ==> t.spec_handed() == t.spec_source(),
{
    if t.spec_writer_live() && t.spec_queue().len() == 0 {
        assert(flat_bytes(t.spec_queue()) =~= Seq::<u8>::empty());
        assert(t.spec_handed() + flat_bytes(t.spec_queue()) =~= t.spec_handed());
    }
}

} // verus!
