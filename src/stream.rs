//! A duplex stream wrapper that transforms what is read through it.
use vstd::prelude::*;

use std::sync::Arc;

use crate::cipher::{lemma_round_trip, Cipher, Encryptor};

verus! {

/// Which transform a wrapper applies to the bytes it reads.
#[derive(Debug, Clone, Copy, PartialEq, Eq, Structural)]
pub enum Mode {
    Encrypt,
    Decrypt,
}

/// The bytes that `c` in mode `mode` makes of `b`.
pub open spec fn transformed<U: Encryptor>(c: &U, mode: Mode, b: Seq<u8>) -> Seq<u8> {
    match mode {
        Mode::Encrypt => c.encrypted(b),
        Mode::Decrypt => c.decrypted(b),
    }
}

/// `b` with its part `[from, to)` replaced by what `c` in mode `mode` makes of it.
pub open spec fn transformed_range<U: Encryptor>(
    c: &U,
    mode: Mode,
    b: Seq<u8>,
    from: int,
    to: int,
) -> Seq<u8> {
    b.subrange(0, from) + transformed(c, mode, b.subrange(from, to)) + b.subrange(to, b.len() as int)
}

/// Applies `c` in mode `mode` to the whole of `buf`.
pub fn apply_mode<U: Encryptor>(c: &U, mode: Mode, buf: &mut [u8])
    ensures
        final(buf)@ == transformed(c, mode, old(buf)@),
        final(buf)@.len() == old(buf)@.len(),
{
    match mode {
        Mode::Encrypt => c.encrypt(buf),
        Mode::Decrypt => c.decrypt(buf),
    }
}

/// Applies `c` in mode `mode` to `buf[from..to]` and to nothing else; the key
/// positions count from `from`.
pub fn apply_range<U: Encryptor>(c: &U, mode: Mode, buf: &mut [u8], from: usize, to: usize)
    requires
        from <= to <= old(buf)@.len(),
    ensures
        final(buf)@ == transformed_range(c, mode, old(buf)@, from as int, to as int),
        final(buf)@.len() == old(buf)@.len(),
{
    let ghost orig = buf@;
    let (head, rest) = buf.split_at_mut(from);
    let (region, tail) = rest.split_at_mut(to - from);
    apply_mode(c, mode, region);
    proof {
        assert(orig.subrange(from as int, orig.len() as int).subrange(0, (to - from) as int)
            =~= orig.subrange(from as int, to as int));
        assert(orig.subrange(from as int, orig.len() as int).subrange(
            (to - from) as int,
            (orig.len() - from) as int,
        ) =~= orig.subrange(to as int, orig.len() as int));
    }
}

/// A duplex stream `io` whose reads pass through the shared transform
/// `encryption` in mode `mode`; writes pass through unchanged.
pub struct EncryptStream<T, U: Encryptor> {
    io: T,
    encryption: Arc<U>,
    mode: Mode,
}

impl<T, U: Encryptor> EncryptStream<T, U> {
    /// The wrapped stream.
    pub closed spec fn inner(&self) -> T {
        self.io
    }

    /// The shared transform.
    pub closed spec fn cipher(&self) -> U {
        *self.encryption
    }

    /// The direction tag.
    pub closed spec fn spec_mode(&self) -> Mode {
        self.mode
    }

    pub fn new(io: T, encryption: Arc<U>, mode: Mode) -> (r: Self)
        ensures
            r.inner() == io,
            r.cipher() == *encryption,
            r.spec_mode() == mode,
    {
        EncryptStream { io, encryption, mode }
    }

    pub fn mode(&self) -> (r: Mode)
        ensures
            r == self.spec_mode(),
    {
        self.mode
    }

    /// The wrapped stream, for reads and writes.
    pub fn io_mut(&mut self) -> (r: &mut T)
        ensures
            *r == old(self).inner(),
            final(self).inner() == *final(r),
            final(self).cipher() == old(self).cipher(),
            final(self).spec_mode() == old(self).spec_mode(),
    {
        &mut self.io
    }

    /// Gives back the wrapped stream.
    pub fn into_inner(self) -> (r: T)
        ensures
            r == self.inner(),
    {
        self.io
    }

    /// After one read of the wrapped stream filled `buf[start..end]`,
    /// transforms exactly those bytes; the rest of `buf` is left as it was.
    pub fn transform_filled(&self, buf: &mut [u8], start: usize, end: usize)
        requires
            start <= end <= old(buf)@.len(),
        ensures
            final(buf)@ == transformed_range(
                &self.cipher(),
                self.spec_mode(),
                old(buf)@,
                start as int,
                end as int,
            ),
            final(buf)@.len() == old(buf)@.len(),
    {
        let c: &U = &*self.encryption;
        apply_range(c, self.mode, buf, start, end);
    }
}

/// The wrapper's transform of the bytes a read filled, `[start, end)`, keeps
/// the buffer's length and every byte outside that range.
pub proof fn lemma_transform_confined(c: Cipher, mode: Mode, b: Seq<u8>, start: int, end: int)
    requires
        0 <= start <= end <= b.len(),
    ensures
        ({
            let t = transformed_range(&c, mode, b, start, end);
            &&& t.len() == b.len()
            &&& forall|i: int| 0 <= i < b.len() && !(start <= i < end) ==> t[i] == b[i]
        }),
{
    lemma_round_trip(c, b.subrange(start, end));
}

} // verus!
