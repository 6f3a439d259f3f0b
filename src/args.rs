//! The parts of the configuration that are parsed from text.
use vstd::prelude::*;
use vstd::string::StringSliceAdditionalSpecFns;

use std::sync::Arc;

use crate::bytes::{copy_range, find_byte, index_of};
use crate::cipher::{parse_outcome, Cipher, ConfigError};

verus! {

/// The role of this end of the tunnel.
#[derive(Debug, Clone, Copy, PartialEq, Eq, Structural)]
pub enum Commands {
    Client,
    Server,
}

/// The fixed request and response exchanged before relaying.
#[derive(Debug)]
pub struct CustomHandshake {
    pub request: Box<[u8]>,
    pub response: Box<[u8]>,
}

/// Parses a cipher value for the configuration, as `Cipher::try_from` does.
pub fn parse_encryption(value: &str) -> (r: Result<Arc<Cipher>, ConfigError>)
    ensures
        parse_outcome(
            value.spec_bytes(),
            match r {
                Ok(c) => Ok(*c),
                Err(e) => Err(e),
            },
        ),
{
    match Cipher::try_from(value) {
        Ok(c) => Ok(Arc::new(c)),
        Err(e) => Err(e),
    }
}

/// The first `,`-separated field of `s`.
pub open spec fn first_field(s: Seq<u8>) -> Seq<u8> {
    s.subrange(0, index_of(s, 0x2c))
}

/// What follows the first `,` of `s`.
pub open spec fn after_first(s: Seq<u8>) -> Seq<u8> {
    s.subrange(index_of(s, 0x2c) + 1, s.len() as int)
}

/// The second `,`-separated field of `s`.
pub open spec fn second_field(s: Seq<u8>) -> Seq<u8> {
    first_field(after_first(s))
}

/// Splits a handshake value `<request-file-path>,<response-file-path>` into the
/// bytes of its two paths; fields after the second are ignored. Without a `,`
/// it fails with `MissingPath`.
pub fn handshake_paths(value: &str) -> (r: Result<(Vec<u8>, Vec<u8>), ConfigError>)
    ensures
        ({
            let s = value.spec_bytes();
            match r {
                Ok((request, response)) => {
                    &&& index_of(s, 0x2c) < s.len()
                    &&& request@ == first_field(s)
                    &&& response@ == second_field(s)
                },
                Err(e) => index_of(s, 0x2c) == s.len() && e is MissingPath,
            }
        }),
{
    let s = value.as_bytes();
    let comma = find_byte(s, 0x2c);
    if comma == s.len() {
        return Err(ConfigError::MissingPath);
    }
    let request = copy_range(s, 0, comma);
    let rest = vstd::slice::slice_subrange(s, comma + 1, s.len());
    let end = find_byte(rest, 0x2c);
    let response = copy_range(rest, 0, end);
    Ok((request, response))
}

} // verus!
