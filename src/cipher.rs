//! The symmetric in-place stream cipher.
use vstd::prelude::*;
use vstd::string::StringSliceAdditionalSpecFns;

use crate::bytes::{bytes_eq, copy_range, find_byte, index_of};

verus! {

/// A transform applied in place to a byte buffer, one for each direction.
pub trait Encryptor {
    /// The bytes that `encrypt` leaves in a buffer that held `b`.
    spec fn encrypted(&self, b: Seq<u8>) -> Seq<u8>;

    /// The bytes that `decrypt` leaves in a buffer that held `b`.
    spec fn decrypted(&self, b: Seq<u8>) -> Seq<u8>;

    fn encrypt(&self, buf: &mut [u8])
        ensures
            final(buf)@ == self.encrypted(old(buf)@),
            final(buf)@.len() == old(buf)@.len(),
    ;

    fn decrypt(&self, buf: &mut [u8])
        ensures
            final(buf)@ == self.decrypted(old(buf)@),
            final(buf)@.len() == old(buf)@.len(),
    ;
}

/// What went wrong in a configuration value.
#[derive(Debug, PartialEq, Eq)]
pub enum ConfigError {
    /// The cipher value has no `method:data` separator.
    MissingSeparator,
    /// The cipher method (its bytes are held) is not one this library knows.
    UnsupportedMethod(Vec<u8>),
    /// The xor method was given an empty key.
    EmptyKey,
    /// The handshake value does not name both a request and a response file.
    MissingPath,
}

/// The cipher shared by all connections.
#[derive(Debug, PartialEq, Eq)]
pub enum Cipher {
    /// No transform.
    Plain,
    /// Each byte is xored with the key byte at its position, the key repeating.
    Xor(Vec<u8>),
}

impl Default for Cipher {
    fn default() -> (r: Self)
        ensures
            r is Plain,
    {
        Cipher::Plain
    }
}

/// `b` with byte `i` xored with `key[i mod key.len()]`; an empty key changes nothing.
pub open spec fn xor_cycle(b: Seq<u8>, key: Seq<u8>) -> Seq<u8> {
    if key.len() == 0 {
        b
    } else {
        Seq::new(b.len(), |i: int| b[i] ^ key[i % (key.len() as int)])
    }
}

/// The name of the xor method.
pub open spec fn xor_name() -> Seq<u8> {
    seq![0x78u8, 0x6fu8, 0x72u8]
}

/// The method part of a `method:data` value.
pub open spec fn method_of(s: Seq<u8>) -> Seq<u8> {
    s.subrange(0, index_of(s, 0x3a))
}

/// The data part of a `method:data` value.
pub open spec fn data_of(s: Seq<u8>) -> Seq<u8> {
    s.subrange(index_of(s, 0x3a) + 1, s.len() as int)
}

/// `r` is what parsing the cipher value `s` gives: `s` must be
/// `method:data`, split at its first `:`, with method `xor` and a non-empty
/// key `data`; a value without `:`, the empty one included, is refused.
pub open spec fn parse_outcome(s: Seq<u8>, r: Result<Cipher, ConfigError>) -> bool {
    match r {
        Ok(Cipher::Plain) => false,
        Ok(Cipher::Xor(key)) => {
            &&& index_of(s, 0x3a) < s.len()
            &&& method_of(s) == xor_name()
            &&& key@ == data_of(s)
            &&& key@.len() > 0
        },
        Err(ConfigError::MissingSeparator) => index_of(s, 0x3a) == s.len(),
        Err(ConfigError::EmptyKey) => {
            &&& index_of(s, 0x3a) < s.len()
            &&& method_of(s) == xor_name()
            &&& data_of(s).len() == 0
        },
        Err(ConfigError::UnsupportedMethod(m)) => {
            &&& index_of(s, 0x3a) < s.len()
            &&& method_of(s) != xor_name()
            &&& m@ == method_of(s)
        },
        Err(ConfigError::MissingPath) => false,
    }
}

impl Cipher {
    /// The transform on a byte sequence; it is its own inverse.
    pub open spec fn apply(&self, b: Seq<u8>) -> Seq<u8> {
        match self {
            Cipher::Plain => b,
            Cipher::Xor(key) => xor_cycle(b, key@),
        }
    }

    /// Parses `method:data`: `xor:<key>` gives a xor cipher keyed by the bytes
    /// after the first `:`; anything else is refused.
    pub fn try_from(input: &str) -> (r: Result<Cipher, ConfigError>)
        ensures
            parse_outcome(input.spec_bytes(), r),
    {
        let s = input.as_bytes();
        let sep = find_byte(s, 0x3a);
        if sep == s.len() {
            return Err(ConfigError::MissingSeparator);
        }
        let method = copy_range(s, 0, sep);
        let name: [u8; 3] = [0x78, 0x6f, 0x72];
        let name_slice = name.as_slice();
        assert(name_slice@ == xor_name());
        if bytes_eq(method.as_slice(), name_slice) {
            let key = copy_range(s, sep + 1, s.len());
            if key.len() == 0 {
                Err(ConfigError::EmptyKey)
            } else {
                Ok(Cipher::Xor(key))
            }
        } else {
            Err(ConfigError::UnsupportedMethod(method))
        }
    }
}

/// Xors `buf[i]` with `key[i mod key.len()]` for every `i`.
fn xor_in_place(buf: &mut [u8], key: &[u8])
    ensures
        final(buf)@ == xor_cycle(old(buf)@, key@),
        final(buf)@.len() == old(buf)@.len(),
{
    let ghost orig = buf@;
    let n = buf.len();
    let klen = key.len();
    if klen == 0 {
        return;
    }
    let mut i: usize = 0;
    while i < n
        invariant
            n == buf@.len(),
            orig.len() == n,
            klen == key@.len(),
            klen > 0,
            i <= n,
            forall|j: int| 0 <= j < i ==> buf@[j] == orig[j] ^ key@[j % (klen as int)],
            forall|j: int| i <= j < n ==> buf@[j] == orig[j],
        decreases n - i,
    {
        let b = buf[i] ^ key[i % klen];
        buf[i] = b;
        i = i + 1;
    }
    assert(buf@ =~= xor_cycle(orig, key@));
}

impl Encryptor for Cipher {
    open spec fn encrypted(&self, b: Seq<u8>) -> Seq<u8> {
        self.apply(b)
    }

    open spec fn decrypted(&self, b: Seq<u8>) -> Seq<u8> {
        self.apply(b)
    }

    fn encrypt(&self, buf: &mut [u8]) {
        match self {
            Cipher::Plain => {},
            Cipher::Xor(key) => xor_in_place(buf, key.as_slice()),
        }
    }

    fn decrypt(&self, buf: &mut [u8]) {
        match self {
            Cipher::Plain => {},
            Cipher::Xor(key) => xor_in_place(buf, key.as_slice()),
        }
    }
}

/// Decrypting what was encrypted under the same cipher gives the original bytes.
pub proof fn lemma_round_trip(c: Cipher, b: Seq<u8>)
    ensures
        c.decrypted(c.encrypted(b)) == b,
        c.encrypted(b).len() == b.len(),
{
    match c {
        Cipher::Plain => {},
        Cipher::Xor(key) => {
            if key@.len() > 0 {
                let e = xor_cycle(b, key@);
                let d = xor_cycle(e, key@);
                assert forall|i: int| 0 <= i < b.len() implies d[i] == b[i] by {
                    let k = key@[i % (key@.len() as int)];
                    let x = b[i];
                    assert((x ^ k) ^ k == x) by (bit_vector);
                }
                assert(d =~= b);
            }
        },
    }
}

} // verus!
