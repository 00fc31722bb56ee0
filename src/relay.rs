use vstd::prelude::*;
use vstd::slice::slice_subrange;

verus! {

/// One direction of a stream relay: bytes read from one end wait here,
/// in order and up to a fixed bound, until they are written to the other.
pub struct RelayBuffer {
    pending: Vec<u8>,
    capacity: usize,
    source_ended: bool,
    written: Ghost<Seq<u8>>,
    delivered: Ghost<Seq<u8>>,
}

impl RelayBuffer {
    /// Every byte accepted so far, in order.
    pub closed spec fn written(&self) -> Seq<u8> {
        self.written@
    }

    /// Every byte handed on so far, in order.
    pub closed spec fn delivered(&self) -> Seq<u8> {
        self.delivered@
    }

    /// The bytes accepted and not yet handed on.
    pub closed spec fn pending(&self) -> Seq<u8> {
        self.pending@
    }

    pub closed spec fn spec_capacity(&self) -> nat {
        self.capacity as nat
    }

    pub closed spec fn ended(&self) -> bool {
        self.source_ended
    }

    pub closed spec fn wf(&self) -> bool {
        &&& self.delivered@ + self.pending@ == self.written@
        &&& self.pending@.len() <= self.capacity
        &&& self.capacity > 0
    }

    /// An empty buffer that holds at most `capacity` bytes.
    pub fn new(capacity: usize) -> (r: RelayBuffer)
        requires
            capacity > 0,
        ensures
            r.wf(),
            r.written() == Seq::<u8>::empty(),
            r.delivered() == Seq::<u8>::empty(),
            r.pending() == Seq::<u8>::empty(),
            r.spec_capacity() == capacity,
            !r.ended(),
    {
        RelayBuffer {
            pending: Vec::new(),
            capacity,
            source_ended: false,
            written: Ghost(Seq::empty()),
            delivered: Ghost(Seq::empty()),
        }
    }

    /// The number of bytes waiting.
    pub fn pending_len(&self) -> (r: usize)
        ensures
            r == self.pending().len(),
    {
        self.pending.len()
    }

    /// The room left for more bytes.
    pub fn room(&self) -> (r: usize)
        requires
            self.wf(),
        ensures
            r == self.spec_capacity() - self.pending().len(),
    {
        self.capacity - self.pending.len()
    }

    /// Accepts as much of `chunk` as there is room for, from its start,
    /// and returns how many bytes that was. Nothing is taken once the
    /// source has ended.
    pub fn accept(&mut self, chunk: &[u8]) -> (n: usize)
        requires
            old(self).wf(),
        ensures
            final(self).wf(),
            n == if old(self).ended() {
                0
            } else {
                vstd::math::min(chunk@.len() as int, old(self).spec_capacity() - old(self).pending().len())
            },
            final(self).written() == old(self).written() + chunk@.subrange(0, n as int),
            final(self).pending() == old(self).pending() + chunk@.subrange(0, n as int),
            final(self).delivered() == old(self).delivered(),
            final(self).spec_capacity() == old(self).spec_capacity(),
            final(self).ended() == old(self).ended(),
    {
        if self.source_ended {
            assert(chunk@.subrange(0, 0) =~= Seq::<u8>::empty());
            assert(self.written@ + Seq::<u8>::empty() =~= self.written@);
            assert(self.pending@ + Seq::<u8>::empty() =~= self.pending@);
            return 0;
        }
        let room = self.capacity - self.pending.len();
        let n = if chunk.len() < room { chunk.len() } else { room };
        let mut i: usize = 0;
        while i < n
            invariant
                n <= chunk@.len(),
                i <= n,
                old(self).pending@.len() + n <= self.capacity,
                self.capacity == old(self).capacity,
                self.source_ended == old(self).source_ended,
                self.delivered == old(self).delivered,
                self.written == old(self).written,
                self.pending@ == old(self).pending@ + chunk@.subrange(0, i as int),
            decreases n - i,
        {
            self.pending.push(chunk[i]);
            assert(chunk@.subrange(0, i + 1) =~= chunk@.subrange(0, i as int).push(chunk@[i as int]));
            i = i + 1;
        }
        self.written = Ghost(self.written@ + chunk@.subrange(0, n as int));
        assert(self.delivered@ + self.pending@ =~= self.written@);
        n
    }

    /// Hands on up to `max` of the waiting bytes, oldest first.
    pub fn take(&mut self, max: usize) -> (r: Vec<u8>)
        requires
            old(self).wf(),
        ensures
            final(self).wf(),
            r@ == old(self).pending().subrange(0, vstd::math::min(max as int, old(self).pending().len() as int)),
            final(self).delivered() == old(self).delivered() + r@,
            final(self).pending() == old(self).pending().subrange(r@.len() as int, old(self).pending().len() as int),
            final(self).written() == old(self).written(),
            final(self).spec_capacity() == old(self).spec_capacity(),
            final(self).ended() == old(self).ended(),
    {
        let len = self.pending.len();
        let n = if max < len { max } else { len };
        let mut out: Vec<u8> = Vec::new();
        let mut rest: Vec<u8> = Vec::new();
        let mut i: usize = 0;
        while i < len
            invariant
                len == self.pending@.len(),
                n <= len,
                i <= len,
                self == old(self),
                out@ == self.pending@.subrange(0, vstd::math::min(i as int, n as int)),
                i <= n ==> rest@.len() == 0,
                i > n ==> rest@ == self.pending@.subrange(n as int, i as int),
            decreases len - i,
        {
            if i < n {
                out.push(self.pending[i]);
                assert(self.pending@.subrange(0, i + 1) =~= self.pending@.subrange(0, i as int).push(self.pending@[i as int]));
            } else {
                rest.push(self.pending[i]);
                if i == n {
                    assert(rest@ =~= self.pending@.subrange(n as int, i + 1));
                } else {
                    assert(self.pending@.subrange(n as int, i + 1) =~= self.pending@.subrange(n as int, i as int).push(self.pending@[i as int]));
                }
            }
            i = i + 1;
        }
        if len <= n {
            assert(rest@ =~= self.pending@.subrange(n as int, len as int));
        }
        let ghost old_pending = self.pending@;
        self.pending = rest;
        self.delivered = Ghost(self.delivered@ + out@);
        assert(old_pending =~= out@ + self.pending@);
        assert(self.delivered@ + self.pending@ =~= self.written@);
        out
    }

    /// Passes a whole chunk through the buffer: it is accepted in pieces
    /// that fit and each piece is handed on at once, so the bytes returned
    /// are exactly `chunk` and nothing is left waiting.
    pub fn pass_through(&mut self, chunk: &[u8]) -> (r: Vec<u8>)
        requires
            old(self).wf(),
            old(self).pending().len() == 0,
            !old(self).ended(),
        ensures
            final(self).wf(),
            r@ == chunk@,
            final(self).pending().len() == 0,
            final(self).written() == old(self).written() + chunk@,
            final(self).delivered() == old(self).delivered() + chunk@,
            final(self).spec_capacity() == old(self).spec_capacity(),
            !final(self).ended(),
    {
        let mut out: Vec<u8> = Vec::new();
        let mut off: usize = 0;
        while off < chunk.len()
            invariant
                self.wf(),
                off <= chunk@.len(),
                self.pending@.len() == 0,
                !self.source_ended,
                self.capacity == old(self).capacity,
                out@ == chunk@.subrange(0, off as int),
                self.written@ == old(self).written@ + chunk@.subrange(0, off as int),
                self.delivered@ == old(self).delivered@ + chunk@.subrange(0, off as int),
            decreases chunk@.len() - off,
        {
            let rest = slice_subrange(chunk, off, chunk.len());
            let n = self.accept(rest);
            let piece = self.take(self.capacity);
            assert(piece@ == rest@.subrange(0, n as int));
            assert(rest@.subrange(0, n as int) =~= chunk@.subrange(off as int, off + n));
            let mut i: usize = 0;
            let ghost before = out@;
            while i < piece.len()
                invariant
                    i <= piece@.len(),
                    out@ == before + piece@.subrange(0, i as int),
                decreases piece@.len() - i,
            {
                out.push(piece[i]);
                assert(piece@.subrange(0, i + 1) =~= piece@.subrange(0, i as int).push(piece@[i as int]));
                i = i + 1;
            }
            assert(piece@.subrange(0, piece@.len() as int) =~= piece@);
            assert(chunk@.subrange(0, off + n) =~= chunk@.subrange(0, off as int) + chunk@.subrange(off as int, off + n));
            assert(self.written@ =~= old(self).written@ + chunk@.subrange(0, off + n));
            assert(self.delivered@ =~= old(self).delivered@ + chunk@.subrange(0, off + n));
            off = off + n;
        }
        assert(chunk@.subrange(0, chunk@.len() as int) =~= chunk@);
        out
    }

    /// Records that the source end has reached end of stream.
    pub fn end_source(&mut self)
        requires
            old(self).wf(),
        ensures
            final(self).wf(),
            final(self).ended(),
            final(self).written() == old(self).written(),
            final(self).delivered() == old(self).delivered(),
            final(self).pending() == old(self).pending(),
            final(self).spec_capacity() == old(self).spec_capacity(),
    {
        self.source_ended = true;
    }

    /// Whether the source has ended and every byte has been handed on:
    /// the moment to shut the write side of the other end.
    pub fn is_drained(&self) -> (r: bool)
        ensures
            r == (self.ended() && self.pending().len() == 0),
    {
        self.source_ended && self.pending.len() == 0
    }
}

/// Bytes leave a relay direction in the order they entered it: whatever
/// the sizes and interleaving of the chunks accepted and taken, what has
/// been handed on is a prefix of what was accepted, and the rest is waiting.
pub proof fn lemma_relay_order(b: RelayBuffer)
    requires
        b.wf(),
    ensures
        b.delivered() == b.written().subrange(0, b.delivered().len() as int),
        b.pending() == b.written().subrange(b.delivered().len() as int, b.written().len() as int),
{
    assert(b.delivered() =~= b.written().subrange(0, b.delivered().len() as int));
    assert(b.pending() =~= b.written().subrange(b.delivered().len() as int, b.written().len() as int));
}

/// Once a relay direction is empty, the bytes handed on are exactly the
/// bytes accepted.
pub proof fn lemma_relay_exact_when_empty(b: RelayBuffer)
    requires
        b.wf(),
        b.pending().len() == 0,
    ensures
        b.delivered() == b.written(),
{
    assert(b.delivered() =~= b.written());
}

/// How the bytes were cut into chunks, and how accepting and handing on
/// interleaved, does not matter: two directions that accepted the same
/// bytes and hold none back have handed on the same bytes.
pub proof fn lemma_relay_chunking_irrelevant(a: RelayBuffer, b: RelayBuffer)
    requires
        a.wf(),
        b.wf(),
        a.pending().len() == 0,
        b.pending().len() == 0,
        a.written() == b.written(),
    ensures
        a.delivered() == b.delivered(),
{
    lemma_relay_exact_when_empty(a);
    lemma_relay_exact_when_empty(b);
}

} // verus!
