//! One direction of the copy engine: a pooled buffer filled by one read and
//! written out in full, in as many pieces as the destination takes.
use vstd::prelude::*;

use crate::cipher::Encryptor;
use crate::stream::{apply_range, transformed_range, Mode};

verus! {

/// What the driver of a `CopyBuffer` does next.
#[derive(Debug, Clone, Copy, PartialEq, Eq, Structural)]
pub enum CopyStep {
    /// Call `begin_read`, read from the source into the buffer, then call `on_read`.
    Read,
    /// Write `pending()` to the destination, then call `on_written`.
    Write,
    /// The source reached its end and everything read was written.
    Done,
}

/// The destination took no byte of a non-empty write.
#[derive(Debug, Clone, Copy, PartialEq, Eq, Structural)]
pub struct WriteZero;

/// The state of one copy direction over a buffer that the caller holds and
/// hands in to each step (a pooled buffer, returned when the copy ends).
pub struct CopyBuffer {
    read_done: bool,
    pos: usize,
    cap: usize,
    amt: u64,
    len: usize,
    sent: Ghost<Seq<u8>>,
}

impl CopyBuffer {
    /// Bytes of the current fill already written.
    pub closed spec fn pos(&self) -> nat {
        self.pos as nat
    }

    /// Bytes of the current fill.
    pub closed spec fn cap(&self) -> nat {
        self.cap as nat
    }

    /// The length of the buffer this engine runs over.
    pub closed spec fn len(&self) -> nat {
        self.len as nat
    }

    /// Whether the source has reached its end.
    pub closed spec fn read_done(&self) -> bool {
        self.read_done
    }

    /// Total bytes written, saturating at `u64::MAX`.
    pub closed spec fn amt(&self) -> u64 {
        self.amt
    }

    /// The bytes handed to the destination since the current fill.
    pub closed spec fn sent(&self) -> Seq<u8> {
        self.sent@
    }

    /// `buf` is this engine's buffer, positions stay within it, and what was
    /// sent of the current fill is exactly its first `pos` bytes.
    pub closed spec fn wf(&self, buf: Seq<u8>) -> bool {
        &&& buf.len() == self.len
        &&& self.pos <= self.cap <= self.len
        &&& self.sent@.len() == self.pos
        &&& forall|i: int| 0 <= i < self.pos ==> self.sent@[i] == buf[i]
    }

    /// The bytes of `buf` still to be written.
    pub open spec fn spec_pending(&self, buf: Seq<u8>) -> Seq<u8> {
        buf.subrange(self.pos() as int, self.cap() as int)
    }

    /// The position and sent bytes after the destination took `n` more bytes of `buf`.
    pub open spec fn written(&self, buf: Seq<u8>, n: nat) -> (nat, Seq<u8>) {
        take(buf, self.pos(), self.sent(), n)
    }

    /// A fresh engine over `buf`: nothing read and nothing written.
    pub fn new(buf: &[u8]) -> (r: Self)
        ensures
            r.wf(buf@),
            r.len() == buf@.len(),
            r.pos() == 0,
            r.cap() == 0,
            !r.read_done(),
            r.amt() == 0,
            r.sent() == Seq::<u8>::empty(),
    {
        CopyBuffer { read_done: false, pos: 0, cap: 0, amt: 0, len: buf.len(), sent: Ghost(Seq::empty()) }
    }

    /// What to do next: write while bytes are pending, read when all was
    /// written and the source is open, finish once the source has ended.
    pub fn step(&self) -> (r: CopyStep)
        ensures
            (r == CopyStep::Write) == (self.pos() < self.cap()),
            (r == CopyStep::Read) == (self.pos() >= self.cap() && !self.read_done()),
            (r == CopyStep::Done) == (self.pos() >= self.cap() && self.read_done()),
    {
        if self.pos < self.cap {
            CopyStep::Write
        } else if !self.read_done {
            CopyStep::Read
        } else {
            CopyStep::Done
        }
    }

    /// Empties the buffer for the next read, which fills it from the start.
    pub fn begin_read(&mut self)
        requires
            old(self).pos() == old(self).cap(),
            !old(self).read_done(),
        ensures
            final(self).pos() == 0,
            final(self).cap() == 0,
            final(self).len() == old(self).len(),
            !final(self).read_done(),
            final(self).amt() == old(self).amt(),
            forall|b: Seq<u8>| b.len() == final(self).len() ==> #[trigger] final(self).wf(b),
    {
        self.pos = 0;
        self.cap = 0;
        self.sent = Ghost(Seq::empty());
    }

    /// Records a read that filled the first `n` bytes of `buf`; a read of no
    /// byte means the source has ended.
    pub fn on_read(&mut self, buf: &[u8], n: usize)
        requires
            old(self).wf(buf@),
            old(self).pos() == 0,
            old(self).cap() == 0,
            n <= buf@.len(),
        ensures
            final(self).wf(buf@),
            final(self).len() == old(self).len(),
            final(self).pos() == 0,
            final(self).cap() == n,
            final(self).read_done() == (n == 0),
            final(self).amt() == old(self).amt(),
            final(self).sent() == Seq::<u8>::empty(),
            final(self).pos() <= final(self).cap() <= final(self).len(),
    {
        self.read_done = n == 0;
        self.cap = n;
    }

    /// Transforms the bytes of the current fill, before any of them is written.
    pub fn transform<U: Encryptor>(&self, c: &U, mode: Mode, buf: &mut [u8])
        requires
            self.wf(old(buf)@),
            self.pos() == 0,
        ensures
            self.wf(final(buf)@),
            final(buf)@ == transformed_range(c, mode, old(buf)@, 0, self.cap() as int),
    {
        apply_range(c, mode, buf, 0, self.cap);
    }

    /// The bytes of `buf` read and not yet written.
    pub fn pending<'a>(&self, buf: &'a [u8]) -> (r: &'a [u8])
        requires
            self.wf(buf@),
        ensures
            r@ == self.spec_pending(buf@),
    {
        vstd::slice::slice_subrange(buf, self.pos, self.cap)
    }

    /// Records that the destination took the next `n` pending bytes of `buf`;
    /// taking none of a non-empty write is an error that ends the copy.
    pub fn on_written(&mut self, buf: &[u8], n: usize) -> (r: Result<(), WriteZero>)
        requires
            old(self).wf(buf@),
            old(self).pos() < old(self).cap(),
            n <= old(self).cap() - old(self).pos(),
        ensures
            final(self).wf(buf@),
            final(self).len() == old(self).len(),
            final(self).cap() == old(self).cap(),
            final(self).read_done() == old(self).read_done(),
            r is Err <==> n == 0,
            n == 0 ==> final(self).pos() == old(self).pos() && final(self).sent() == old(self).sent()
                && final(self).amt() == old(self).amt(),
            n > 0 ==> (final(self).pos(), final(self).sent()) == old(self).written(buf@, n as nat),
            n > 0 ==> final(self).amt() == add_sat(old(self).amt(), n as nat),
            final(self).pos() <= final(self).cap() <= final(self).len(),
    {
        if n == 0 {
            return Err(WriteZero);
        }
        let ghost old_pos = self.pos as int;
        self.sent = Ghost(self.sent@ + buf@.subrange(old_pos, old_pos + n));
        self.pos = self.pos + n;
        self.amt = if self.amt <= u64::MAX - (n as u64) {
            self.amt + (n as u64)
        } else {
            u64::MAX
        };
        Ok(())
    }

    /// How many bytes are still to be written.
    pub fn remaining(&self) -> (r: usize)
        requires
            self.pos() <= self.cap(),
        ensures
            r == self.cap() - self.pos(),
    {
        self.cap - self.pos
    }

    /// Total bytes written so far.
    pub fn amount(&self) -> (r: u64)
        ensures
            r == self.amt(),
    {
        self.amt
    }
}

/// A well-formed engine's positions lie within its buffer.
pub proof fn lemma_wf_bounds(cb: CopyBuffer, buf: Seq<u8>)
    requires
        cb.wf(buf),
    ensures
        cb.pos() <= cb.cap() <= cb.len(),
        cb.len() == buf.len(),
        cb.sent() == buf.subrange(0, cb.pos() as int),
{
    assert(cb.sent() =~= buf.subrange(0, cb.pos() as int));
}

/// `a + n`, saturating at `u64::MAX`.
pub open spec fn add_sat(a: u64, n: nat) -> u64 {
    if a + n <= u64::MAX {
        (a + n) as u64
    } else {
        u64::MAX
    }
}

/// From position `pos` with `sent` already sent, the destination takes the
/// next `n` bytes of `buf`: the new position and sent bytes.
pub open spec fn take(buf: Seq<u8>, pos: nat, sent: Seq<u8>, n: nat) -> (nat, Seq<u8>) {
    (pos + n, sent + buf.subrange(pos as int, (pos + n) as int))
}

/// The position and sent bytes after the destination takes pieces of sizes
/// `sizes`, in order, starting from position `pos` with `sent` already sent.
pub open spec fn run_writes(buf: Seq<u8>, pos: nat, sent: Seq<u8>, sizes: Seq<nat>) -> (nat, Seq<u8>)
    decreases sizes.len(),
{
    if sizes.len() == 0 {
        (pos, sent)
    } else {
        let (next, now_sent) = take(buf, pos, sent, sizes[0]);
        run_writes(buf, next, now_sent, sizes.drop_first())
    }
}

/// The sum of `sizes`.
pub open spec fn total(sizes: Seq<nat>) -> nat
    decreases sizes.len(),
{
    if sizes.len() == 0 {
        0
    } else {
        sizes[0] + total(sizes.drop_first())
    }
}

/// Write-all: however the destination splits what it takes, once it has taken
/// all pending bytes it has received the whole fill, byte for byte and in order.
pub proof fn lemma_write_all_delivers(cb: CopyBuffer, buf: Seq<u8>, sizes: Seq<nat>)
    requires
        cb.wf(buf),
        forall|i: int| 0 <= i < sizes.len() ==> sizes[i] > 0,
        cb.pos() + total(sizes) == cb.cap(),
    ensures
        run_writes(buf, cb.pos(), cb.sent(), sizes) == (cb.cap(), buf.subrange(0, cb.cap() as int)),
{
    assert(cb.sent() =~= buf.subrange(0, cb.pos() as int));
    lemma_run_writes(buf, cb.pos(), cb.sent(), sizes, cb.cap());
}

proof fn lemma_run_writes(buf: Seq<u8>, pos: nat, sent: Seq<u8>, sizes: Seq<nat>, cap: nat)
    requires
        cap <= buf.len(),
        sent == buf.subrange(0, pos as int),
        pos + total(sizes) == cap,
    ensures
        run_writes(buf, pos, sent, sizes) == (cap, buf.subrange(0, cap as int)),
    decreases sizes.len(),
{
    if sizes.len() > 0 {
        let next = pos + sizes[0];
        assert(buf.subrange(0, next as int) =~= sent + buf.subrange(pos as int, next as int));
        lemma_run_writes(buf, next, sent + buf.subrange(pos as int, next as int), sizes.drop_first(), cap);
    }
}

/// The byte count after pieces of sizes `sizes` were written, from `amt`.
pub open spec fn count_writes(amt: u64, sizes: Seq<nat>) -> u64
    decreases sizes.len(),
{
    if sizes.len() == 0 {
        amt
    } else {
        count_writes(add_sat(amt, sizes[0]), sizes.drop_first())
    }
}

/// The fills `chunks`, one after another.
pub open spec fn concat_all(chunks: Seq<Seq<u8>>) -> Seq<u8>
    decreases chunks.len(),
{
    if chunks.len() == 0 {
        Seq::empty()
    } else {
        chunks[0] + concat_all(chunks.drop_first())
    }
}

/// The total length of `chunks`.
pub open spec fn total_len(chunks: Seq<Seq<u8>>) -> nat
    decreases chunks.len(),
{
    if chunks.len() == 0 {
        0
    } else {
        chunks[0].len() + total_len(chunks.drop_first())
    }
}

/// The bytes a destination receives, and the byte count, when the source
/// yields the fills `chunks` in turn and the `k`-th is written in pieces of
/// sizes `sizes[k]` (each fill starting from position 0 with nothing sent, as
/// `on_read` leaves it), the count starting at `amt`.
pub open spec fn run_copy(chunks: Seq<Seq<u8>>, sizes: Seq<Seq<nat>>, amt: u64) -> (Seq<u8>, u64)
    decreases chunks.len(),
{
    if chunks.len() == 0 || sizes.len() == 0 {
        (Seq::empty(), amt)
    } else {
        let fill = run_writes(chunks[0], 0, Seq::empty(), sizes[0]).1;
        let rest = run_copy(chunks.drop_first(), sizes.drop_first(), count_writes(amt, sizes[0]));
        (fill + rest.0, rest.1)
    }
}

proof fn lemma_count_writes(amt: u64, sizes: Seq<nat>)
    requires
        amt + total(sizes) <= u64::MAX,
    ensures
        count_writes(amt, sizes) == amt + total(sizes),
    decreases sizes.len(),
{
    if sizes.len() > 0 {
        lemma_count_writes(add_sat(amt, sizes[0]), sizes.drop_first());
    }
}

/// Copying a whole stream: when the source yields the fills `chunks` and then
/// ends, and the destination takes each fill in pieces of any positive sizes,
/// the destination receives every fill, byte for byte and in order, with no
/// loss or repetition, and the count grows by the total length.
pub proof fn lemma_copy_stream(chunks: Seq<Seq<u8>>, sizes: Seq<Seq<nat>>, amt: u64)
    requires
        chunks.len() == sizes.len(),
        forall|k: int, i: int| 0 <= k < sizes.len() && 0 <= i < sizes[k].len() ==> sizes[k][i] > 0,
        forall|k: int| 0 <= k < chunks.len() ==> total(#[trigger] sizes[k]) == chunks[k].len(),
        amt + total_len(chunks) <= u64::MAX,
    ensures
        run_copy(chunks, sizes, amt) == (concat_all(chunks), (amt + total_len(chunks)) as u64),
    decreases chunks.len(),
{
    if chunks.len() > 0 {
        let c = chunks[0];
        assert(total(sizes[0]) == c.len());
        assert(Seq::<u8>::empty() =~= c.subrange(0, 0));
        lemma_run_writes(c, 0, Seq::empty(), sizes[0], c.len());
        assert(c.subrange(0, c.len() as int) =~= c);
        lemma_count_writes(amt, sizes[0]);
        let next = count_writes(amt, sizes[0]);
        assert forall|k: int, i: int|
            0 <= k < sizes.drop_first().len() && 0 <= i < sizes.drop_first()[k].len() implies
            sizes.drop_first()[k][i] > 0 by {
            assert(sizes.drop_first()[k] == sizes[k + 1]);
        }
        assert forall|k: int| 0 <= k < chunks.drop_first().len() implies total(
            #[trigger] sizes.drop_first()[k],
        ) == chunks.drop_first()[k].len() by {
            assert(sizes.drop_first()[k] == sizes[k + 1]);
        }
        lemma_copy_stream(chunks.drop_first(), sizes.drop_first(), next);
    }
}

} // verus!
