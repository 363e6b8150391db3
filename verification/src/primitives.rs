//! The calls that leave this library: the Argon2id computation, unpadded
//! base64, the operating system's random source, and the conversion of bytes
//! to a `String`. The contracts in this file are believed, not proved.

use crate::params::valid_costs;
use crate::phc::all_base64;
use base64ct::Encoding;
use rand_core::RngCore;
use vstd::prelude::*;
use vstd::utf8::{encode_utf8, valid_utf8};

verus! {

/// `argon2::Error`, carried through as an opaque value.
#[verifier::external_type_specification]
#[verifier::external_body]
pub struct ExArgon2Error(argon2::Error);

/// `rand_core::Error`, carried through as an opaque value.
#[verifier::external_type_specification]
#[verifier::external_body]
pub struct ExRandomError(rand_core::Error);

/// The Argon2id digest, version 19, of a password under a salt and the given
/// costs, without secret key or associated data.
pub uninterp spec fn argon2id_digest(
    password: Seq<u8>,
    salt: Seq<u8>,
    memory_cost: u32,
    time_cost: u32,
    parallelism: u32,
    length: usize,
) -> Seq<u8>;

/// The unpadded standard base64 text of a byte sequence.
pub uninterp spec fn base64_text(bytes: Seq<u8>) -> Seq<u8>;

/// The bytes that an unpadded standard base64 text stands for, if it is one.
pub uninterp spec fn base64_bytes(text: Seq<u8>) -> Option<Seq<u8>>;

/// Calls `argon2::Params::new`, `argon2::Argon2::new` with `Argon2id` and
/// version `0x13`, and `hash_password_into` on a fresh buffer of `length`
/// bytes. Claimed: where the call succeeds, the buffer returned has `length`
/// bytes and holds the digest, which depends on the six arguments alone. It
/// succeeds where the costs and the length are in this library's ranges, the
/// salt has 8 to 2^32 - 1 bytes and the password at most 2^32 - 1: these pass
/// every range test of `Params::new` and `hash_password_into`, and nothing
/// after them returns an error for a digest of 64 bytes or fewer. It fails
/// on a longer password. The bound on `parallelism` keeps
/// the multiplication in `Params::new` from overflowing, the bound on
/// `length` is that of the digests this library writes. The call allocates
/// `memory_cost` KiB; where the machine cannot give them, the process ends.
#[verifier::external_body]
pub(crate) fn argon2id(
    password: &[u8],
    salt: &[u8],
    memory_cost: u32,
    time_cost: u32,
    parallelism: u32,
    length: usize,
) -> (r: Result<Vec<u8>, argon2::Error>)
    requires
        parallelism <= 0xFF_FFFF,
        length <= 64,
    ensures
        r matches Ok(d) ==> d@.len() == length && d@ == argon2id_digest(
            password@,
            salt@,
            memory_cost,
            time_cost,
            parallelism,
            length,
        ),
        valid_costs(memory_cost, time_cost, parallelism, length) && 8 <= salt@.len()
            <= 0xFFFF_FFFF && password@.len() <= 0xFFFF_FFFF ==> r is Ok,
        password@.len() > 0xFFFF_FFFF ==> r is Err,
{
    let params = argon2::Params::new(memory_cost, time_cost, parallelism, Some(length))?;
    let hasher = argon2::Argon2::new(argon2::Algorithm::Argon2id, argon2::Version::V0x13, params);
    let mut out = vec![0u8; length];
    hasher.hash_password_into(password, salt, &mut out)?;
    Ok(out)
}

/// Calls `base64ct::Base64Unpadded::encode_string`. Claimed: the text
/// returned depends on the bytes alone, holds only bytes of the base64
/// alphabet, has four bytes for every three of the input, rounded up, and
/// decodes to the bytes it was made from. The bound on the
/// length keeps the call from its documented panic.
#[verifier::external_body]
pub(crate) fn base64_encode(bytes: &[u8]) -> (r: Vec<u8>)
    requires
        bytes@.len() <= 0x3FFF_FFFF,
    ensures
        r@ == base64_text(bytes@),
        r@.len() == (4 * bytes@.len() + 2) / 3,
        all_base64(r@),
        base64_bytes(r@) == Some(bytes@),
{
    base64ct::Base64Unpadded::encode_string(bytes).into_bytes()
}

/// Calls `base64ct::Base64Unpadded::decode` on a buffer as long as the text.
/// Claimed: whether the text decodes, and to which bytes, depends on the text
/// alone.
#[verifier::external_body]
pub(crate) fn base64_decode(text: &[u8]) -> (r: Option<Vec<u8>>)
    ensures
        match r {
            Some(b) => base64_bytes(text@) == Some(b@),
            None => base64_bytes(text@) is None,
        },
{
    let mut buffer = vec![0u8; text.len()];
    match base64ct::Base64Unpadded::decode(text, &mut buffer) {
        Ok(bytes) => Some(bytes.to_vec()),
        Err(_) => None,
    }
}

/// Calls `try_fill_bytes` of `rand_core::OsRng` on a buffer of `count` bytes.
/// Claimed: where the call succeeds, `count` bytes come back. Nothing is
/// claimed of their values.
#[verifier::external_body]
pub(crate) fn random_bytes(count: usize) -> (r: Result<Vec<u8>, rand_core::Error>)
    ensures
        r matches Ok(b) ==> b@.len() == count,
{
    let mut buffer = vec![0u8; count];
    rand_core::OsRng.try_fill_bytes(&mut buffer)?;
    Ok(buffer)
}

/// Calls `String::from_utf8`. Claimed: the string returned has exactly the
/// given bytes as its UTF-8 encoding, and the call fails only on bytes that
/// are not valid UTF-8.
#[verifier::external_body]
pub(crate) fn text_from_bytes(bytes: Vec<u8>) -> (r: Option<String>)
    ensures
        match r {
            Some(s) => encode_utf8(s@) == bytes@,
            None => !valid_utf8(bytes@),
        },
{
    String::from_utf8(bytes).ok()
}

} // verus!
