//! Creating a hash from a password and verifying a password against one.

use crate::params::{
    costs_in_range, resolve_parameters, resolved, valid_costs, valid_salt_length, Parameters,
    DEFAULT_SALT_LENGTH, MAX_OUTPUT_LENGTH, MAX_PASSWORD_LENGTH, MAX_SALT_LENGTH, MIN_SALT_LENGTH,
};
use crate::decimal::decimal;
use crate::phc::{
    decode_hash, encode_hash, encode_spec, head, lemma_encode_ascii, lemma_encode_length,
    lemma_encode_parse, lemma_parse_encode, parse_spec, PhcFields, PhcText,
};
use crate::primitives::{
    argon2id, argon2id_digest, base64_bytes, base64_decode, base64_encode, base64_text,
    random_bytes, text_from_bytes,
};
use vstd::pervasive::unreached;
use vstd::prelude::*;
use vstd::slice::slice_to_vec;
use vstd::string::StringSliceAdditionalSpecFns;
use vstd::utf8::{
    encode_utf8, is_leading_byte_width_1, pop_first_scalar, valid_first_scalar, valid_utf8,
};

verus! {

/// Why no hash was created.
#[derive(Clone, Copy, Debug, PartialEq, Eq)]
pub enum HashError {
    /// A cost parameter or the salt's length is out of range.
    Parameter,
    /// The random source or the Argon2id computation failed.
    Crypto,
}

/// Why a password was not accepted.
#[derive(Clone, Copy, Debug, PartialEq, Eq)]
pub enum VerifyError {
    /// A cost parameter of the override is out of range.
    Parameter,
    /// The stored string is not a hash in its text form.
    Malformed,
    /// The password does not give the stored digest.
    Mismatch,
    /// The Argon2id computation failed.
    Crypto,
}

/// What a stored string holds: the costs, the salt and the digest, as bytes.
pub struct StoredHash {
    pub params: Parameters,
    pub salt: Seq<u8>,
    pub digest: Seq<u8>,
}

/// A stored hash, decoded: the costs, the salt and the digest.
#[derive(Clone, Debug, PartialEq, Eq)]
pub struct PasswordHash {
    pub params: Parameters,
    pub salt: Vec<u8>,
    pub digest: Vec<u8>,
}

impl View for PasswordHash {
    type V = StoredHash;

    open spec fn view(&self) -> StoredHash {
        StoredHash { params: self.params, salt: self.salt@, digest: self.digest@ }
    }
}

impl StoredHash {
    /// The costs and the salt's length are in range, and the digest has the
    /// length that the costs name.
    pub open spec fn well_formed(self) -> bool {
        &&& self.params.valid()
        &&& valid_salt_length(self.salt.len())
        &&& self.digest.len() == self.params.output_length
    }
}

/// The digest of `password` under `salt` and the costs `p`.
pub open spec fn digest_for(password: Seq<u8>, salt: Seq<u8>, p: Parameters) -> Seq<u8> {
    argon2id_digest(password, salt, p.memory_cost, p.time_cost, p.parallelism, p.output_length)
}

/// The fields of the text form for a salt and a digest, both in bytes.
pub open spec fn text_fields(p: Parameters, salt: Seq<u8>, digest: Seq<u8>) -> PhcText {
    PhcText {
        memory_cost: p.memory_cost,
        time_cost: p.time_cost,
        parallelism: p.parallelism,
        salt: base64_text(salt),
        digest: base64_text(digest),
    }
}

/// The hash string of `password` under `salt` and the costs `p`.
pub open spec fn hash_text(password: Seq<u8>, salt: Seq<u8>, p: Parameters) -> Seq<u8> {
    encode_spec(text_fields(p, salt, digest_for(password, salt, p)))
}

/// Reads a stored string: its text form, then salt and digest from base64,
/// then the ranges of the costs, of the salt's length and of the digest's.
pub open spec fn stored_hash(encoded: Seq<u8>) -> Option<StoredHash> {
    match parse_spec(encoded) {
        None => None,
        Some(f) => match (base64_bytes(f.salt), base64_bytes(f.digest)) {
            (Some(salt), Some(digest)) => if valid_salt_length(salt.len()) && digest.len()
                <= MAX_OUTPUT_LENGTH && valid_costs(
                f.memory_cost,
                f.time_cost,
                f.parallelism,
                digest.len() as usize,
            ) {
                Some(
                    StoredHash {
                        params: Parameters {
                            memory_cost: f.memory_cost,
                            time_cost: f.time_cost,
                            parallelism: f.parallelism,
                            output_length: digest.len() as usize,
                        },
                        salt,
                        digest,
                    },
                )
            } else {
                None
            },
            _ => None,
        },
    }
}

/// What verifying `password` against `encoded` comes to: `Malformed` for a
/// string that is no stored hash; `Crypto` for a password too long for the
/// algorithm; and otherwise success exactly if the password's digest, under
/// the stored salt and costs, is the stored digest.
pub open spec fn verdict(password: Seq<u8>, encoded: Seq<u8>) -> Result<(), VerifyError> {
    match stored_hash(encoded) {
        None => Err(VerifyError::Malformed),
        Some(h) => if password.len() > MAX_PASSWORD_LENGTH {
            Err(VerifyError::Crypto)
        } else if digest_for(password, h.salt, h.params) == h.digest {
            Ok(())
        } else {
            Err(VerifyError::Mismatch)
        },
    }
}

/// The length of the base64 text of `n` bytes: four for every three,
/// rounded up.
pub open spec fn base64_length(n: nat) -> nat {
    ((4 * n + 2) / 3) as nat
}

/// `text` is the hash string of the hash `h`: the text form of its costs and
/// of the base64 text of its salt and digest, each of the length that base64
/// gives it; it reads back as these fields, and as `h`.
pub open spec fn written(h: StoredHash, text: Seq<u8>) -> bool {
    &&& text == encode_spec(text_fields(h.params, h.salt, h.digest))
    &&& parse_spec(text) == Some(text_fields(h.params, h.salt, h.digest))
    &&& base64_text(h.salt).len() == base64_length(h.salt.len())
    &&& base64_text(h.digest).len() == base64_length(h.digest.len())
    &&& stored_hash(text) == Some(h)
}

/// `text` is the hash string of `password` under `salt` and `p`: the
/// password is one the algorithm accepts, and `text` is the string written
/// for the costs, the salt and the password's digest.
pub open spec fn created(password: Seq<u8>, salt: Seq<u8>, p: Parameters, text: Seq<u8>) -> bool {
    &&& password.len() <= MAX_PASSWORD_LENGTH
    &&& written(StoredHash { params: p, salt, digest: digest_for(password, salt, p) }, text)
}

/// A created hash verifies against the password it was created from.
pub proof fn lemma_created_verifies(
    password: Seq<u8>,
    salt: Seq<u8>,
    p: Parameters,
    text: Seq<u8>,
)
    requires
        created(password, salt, p, text),
    ensures
        text == hash_text(password, salt, p),
        verdict(password, text) == Ok::<(), VerifyError>(()),
{
}

/// A created hash rejects, as a mismatch, every password that the algorithm
/// accepts and whose digest differs from that of the password it was created
/// from.
pub proof fn lemma_created_rejects(
    password: Seq<u8>,
    other: Seq<u8>,
    salt: Seq<u8>,
    p: Parameters,
    text: Seq<u8>,
)
    requires
        created(password, salt, p, text),
        other.len() <= MAX_PASSWORD_LENGTH,
        digest_for(other, salt, p) != digest_for(password, salt, p),
    ensures
        verdict(other, text) == Err::<(), VerifyError>(VerifyError::Mismatch),
{
}

/// The salt and digest fields of a created hash are not empty, and their
/// lengths, like that of the whole string, depend on the costs and on the
/// salt's length alone.
pub proof fn lemma_created_shape(password: Seq<u8>, salt: Seq<u8>, p: Parameters, text: Seq<u8>)
    requires
        created(password, salt, p, text),
    ensures
        parse_spec(text) matches Some(f) && f.well_formed() && f.salt.len() == base64_length(
            salt.len(),
        ) && f.digest.len() == base64_length(p.output_length as nat) && f.salt.len() > 0
            && f.digest.len() > 0,
        text.len() == 25 + decimal(p.memory_cost as nat).len() + decimal(
            p.time_cost as nat,
        ).len() + decimal(p.parallelism as nat).len() + base64_length(salt.len())
            + base64_length(p.output_length as nat),
{
    lemma_encode_parse(text);
    lemma_stored_hash_well_formed(text);
    lemma_encode_length(text_fields(p, salt, digest_for(password, salt, p)));
}

/// Two hashes created with the same costs under salts of one length are
/// strings of one length, whatever the passwords.
pub proof fn lemma_created_same_length(
    password1: Seq<u8>,
    password2: Seq<u8>,
    salt1: Seq<u8>,
    salt2: Seq<u8>,
    p: Parameters,
    text1: Seq<u8>,
    text2: Seq<u8>,
)
    requires
        created(password1, salt1, p, text1),
        created(password2, salt2, p, text2),
        salt1.len() == salt2.len(),
    ensures
        text1.len() == text2.len(),
{
    lemma_created_shape(password1, salt1, p, text1);
    lemma_created_shape(password2, salt2, p, text2);
}

/// A created hash carries the costs it was created with.
pub proof fn lemma_created_costs(password: Seq<u8>, salt: Seq<u8>, p: Parameters, text: Seq<u8>)
    requires
        created(password, salt, p, text),
    ensures
        parse_spec(text) matches Some(f) && f.memory_cost == p.memory_cost && f.time_cost
            == p.time_cost && f.parallelism == p.parallelism,
        stored_hash(text) matches Some(h) && h.params == p,
{
}

/// Hashes created under different salts are different strings.
pub proof fn lemma_created_distinct(
    password: Seq<u8>,
    salt1: Seq<u8>,
    salt2: Seq<u8>,
    p: Parameters,
    text1: Seq<u8>,
    text2: Seq<u8>,
)
    requires
        created(password, salt1, p, text1),
        created(password, salt2, p, text2),
        salt1 != salt2,
    ensures
        text1 != text2,
{
}

/// Whatever reads as a stored hash is well formed, and its string is the
/// text form of its costs and of the base64 text of its salt and digest.
pub proof fn lemma_stored_hash_well_formed(encoded: Seq<u8>)
    requires
        stored_hash(encoded) is Some,
    ensures
        stored_hash(encoded)->Some_0.well_formed(),
        encoded == encode_spec(parse_spec(encoded)->Some_0),
        base64_bytes(parse_spec(encoded)->Some_0.salt) == Some(stored_hash(encoded)->Some_0.salt),
        base64_bytes(parse_spec(encoded)->Some_0.digest) == Some(
            stored_hash(encoded)->Some_0.digest,
        ),
{
    lemma_encode_parse(encoded);
}

/// A string that does not start with `$` is malformed, whatever the
/// password: it is never reported as a mismatch.
pub proof fn lemma_without_dollar_malformed(password: Seq<u8>, encoded: Seq<u8>)
    requires
        encoded.len() == 0 || encoded[0] != 36,
    ensures
        verdict(password, encoded) == Err::<(), VerifyError>(VerifyError::Malformed),
{
    if encoded.len() >= head().len() {
        assert(encoded.take(head().len() as int)[0] == encoded[0]);
        assert(head()[0] == 36);
    }
}

/// Bytes below 128 are valid UTF-8.
proof fn lemma_ascii_is_utf8(bytes: Seq<u8>)
    requires
        forall|i: int| 0 <= i < bytes.len() ==> #[trigger] bytes[i] <= 127,
    ensures
        valid_utf8(bytes),
    decreases bytes.len(),
{
    if bytes.len() != 0 {
        let b = bytes[0];
        let rest = pop_first_scalar(bytes);
        assert(is_leading_byte_width_1(b));
        assert((b & 0x7F) as u32 <= 0x7F) by (bit_vector);
        assert(valid_first_scalar(bytes));
        assert forall|i: int| 0 <= i < rest.len() implies #[trigger] rest[i] <= 127 by {
            assert(rest[i] == bytes[i + 1]);
        }
        lemma_ascii_is_utf8(rest);
    }
}

/// Compares two byte strings of one length without stopping at the first
/// difference; strings of different lengths are unequal at once.
pub fn constant_time_eq(a: &[u8], b: &[u8]) -> (r: bool)
    ensures
        r == (a@ == b@),
{
    if a.len() != b.len() {
        return false;
    }
    let mut diff: u8 = 0;
    let mut i: usize = 0;
    proof {
        assert(a@.take(0) =~= b@.take(0));
    }
    while i < a.len()
        invariant
            i <= a@.len(),
            a@.len() == b@.len(),
            (diff == 0) == (a@.take(i as int) == b@.take(i as int)),
        decreases a@.len() - i,
    {
        let x: u8 = a[i];
        let y: u8 = b[i];
        proof {
            let d = diff;
            assert(((d | (x ^ y)) == 0) == (d == 0 && x == y)) by (bit_vector);
            let ta = a@.take(i + 1);
            let tb = b@.take(i + 1);
            assert(ta.drop_last() =~= a@.take(i as int));
            assert(tb.drop_last() =~= b@.take(i as int));
            assert(ta.last() == x && tb.last() == y);
            if d == 0 && x == y {
                assert(ta =~= tb);
            }
        }
        diff = diff | (x ^ y);
        i += 1;
    }
    proof {
        assert(a@.take(i as int) =~= a@);
        assert(b@.take(i as int) =~= b@);
    }
    diff == 0
}

impl PasswordHash {
    /// Tests whether the costs, the salt's length and the digest's length
    /// fit together.
    pub fn is_well_formed(&self) -> (r: bool)
        ensures
            r == self@.well_formed(),
    {
        self.params.is_valid() && self.salt.len() >= MIN_SALT_LENGTH && self.salt.len()
            <= MAX_SALT_LENGTH && self.digest.len() == self.params.output_length
    }

    /// Writes the hash string. It reads back as this very hash.
    pub fn encode(&self) -> (s: String)
        requires
            self@.well_formed(),
        ensures
            written(self@, encode_utf8(s@)),
    {
        let fields = PhcFields {
            memory_cost: self.params.memory_cost,
            time_cost: self.params.time_cost,
            parallelism: self.params.parallelism,
            salt: base64_encode(self.salt.as_slice()),
            digest: base64_encode(self.digest.as_slice()),
        };
        let bytes = encode_hash(&fields);
        proof {
            lemma_parse_encode(fields@);
            lemma_encode_ascii(fields@);
            lemma_ascii_is_utf8(bytes@);
        }
        match text_from_bytes(bytes) {
            Some(s) => s,
            None => unreached(),
        }
    }

    /// Reads a hash string: `None` where it is not the text form of a hash,
    /// where salt or digest is not base64, or where a cost or a length is out
    /// of range.
    pub fn decode(hash: &str) -> (r: Option<PasswordHash>)
        ensures
            match r {
                Some(h) => stored_hash(hash.spec_bytes()) == Some(h@) && h@.well_formed(),
                None => stored_hash(hash.spec_bytes()) is None,
            },
    {
        let Some(fields) = decode_hash(hash.as_bytes()) else {
            return None;
        };
        let Some(salt) = base64_decode(fields.salt.as_slice()) else {
            return None;
        };
        let Some(digest) = base64_decode(fields.digest.as_slice()) else {
            return None;
        };
        if salt.len() < MIN_SALT_LENGTH || salt.len() > MAX_SALT_LENGTH || digest.len()
            > MAX_OUTPUT_LENGTH || !costs_in_range(
            fields.memory_cost,
            fields.time_cost,
            fields.parallelism,
            digest.len(),
        ) {
            return None;
        }
        let params = Parameters {
            memory_cost: fields.memory_cost,
            time_cost: fields.time_cost,
            parallelism: fields.parallelism,
            output_length: digest.len(),
        };
        Some(PasswordHash { params, salt, digest })
    }
}

/// Completes the creation of a hash once the digest has been computed, or
/// not: where there is none, or one of another length than asked for, the
/// result is a `Crypto` error; otherwise it is the string written for the
/// costs, the salt and the digest.
pub fn finish_hash(params: &Parameters, salt: &[u8], digest: Option<Vec<u8>>) -> (r: Result<
    String,
    HashError,
>)
    requires
        params.valid(),
        valid_salt_length(salt@.len()),
    ensures
        match digest {
            Some(d) if d@.len() == params.output_length => r matches Ok(s) && written(
                StoredHash { params: *params, salt: salt@, digest: d@ },
                encode_utf8(s@),
            ),
            _ => r == Err::<String, HashError>(HashError::Crypto),
        },
{
    let d = match digest {
        Some(d) => d,
        None => {
            return Err(HashError::Crypto);
        },
    };
    if d.len() != params.output_length {
        return Err(HashError::Crypto);
    }
    let hash = PasswordHash { params: *params, salt: slice_to_vec(salt), digest: d };
    Ok(hash.encode())
}

/// The digest of a computation that succeeded, and nothing for one that
/// failed.
fn digest_of(outcome: Result<Vec<u8>, argon2::Error>) -> (r: Option<Vec<u8>>)
    ensures
        r == match outcome {
            Ok(d) => Some(d),
            Err(_) => None::<Vec<u8>>,
        },
{
    match outcome {
        Ok(d) => Some(d),
        Err(_) => None,
    }
}

/// Creates the hash string of `password` under the given salt.
///
/// An override of the costs that is out of range, or a salt shorter than 8
/// or longer than 48 bytes, is refused with `Parameter` before anything is
/// computed. A password of more than 2^32 - 1 bytes is refused with
/// `Crypto`. For every other input the result is the hash string, which
/// reads back as the costs, salt and digest it was made from.
pub fn create_password_argon2(password: &str, salt: &[u8], params: &Option<Parameters>) -> (r:
    Result<String, HashError>)
    ensures
        match resolved(*params) {
            Some(p) if valid_salt_length(salt@.len()) => if password.spec_bytes().len()
                > MAX_PASSWORD_LENGTH {
                r == Err::<String, HashError>(HashError::Crypto)
            } else {
                r matches Ok(s) && created(password.spec_bytes(), salt@, p, encode_utf8(s@))
            },
            _ => r == Err::<String, HashError>(HashError::Parameter),
        },
{
    let p = match resolve_parameters(params) {
        Ok(p) => p,
        Err(_) => {
            return Err(HashError::Parameter);
        },
    };
    if salt.len() < MIN_SALT_LENGTH || salt.len() > MAX_SALT_LENGTH {
        return Err(HashError::Parameter);
    }
    let outcome = argon2id(
        password.as_bytes(),
        salt,
        p.memory_cost,
        p.time_cost,
        p.parallelism,
        p.output_length,
    );
    finish_hash(&p, salt, digest_of(outcome))
}

/// Creates the hash string of `password` under a salt of 16 bytes drawn from
/// the operating system's random source.
///
/// An override of the costs that is out of range is refused with `Parameter`
/// before anything is drawn or computed. A password of more than 2^32 - 1
/// bytes is refused with `Crypto`. Otherwise the result is either `Crypto`,
/// where the random source failed, or the hash string of the password under
/// some salt of 16 bytes.
pub fn create(password: &str, params: &Option<Parameters>) -> (r: Result<String, HashError>)
    ensures
        match resolved(*params) {
            Some(p) => r == Err::<String, HashError>(HashError::Crypto) || (r matches Ok(s)
                && exists|salt: Seq<u8>|
                salt.len() == DEFAULT_SALT_LENGTH && #[trigger] created(
                    password.spec_bytes(),
                    salt,
                    p,
                    encode_utf8(s@),
                )),
            None => r == Err::<String, HashError>(HashError::Parameter),
        },
{
    if resolve_parameters(params).is_err() {
        return Err(HashError::Parameter);
    }
    finish_create(password, params, random_bytes(DEFAULT_SALT_LENGTH))
}

/// Completes the creation of a hash once the salt has been drawn, or not:
/// where the random source failed the result is a `Crypto` error, and
/// otherwise it is what creating the hash under the drawn salt gives.
fn finish_create(
    password: &str,
    params: &Option<Parameters>,
    drawn: Result<Vec<u8>, rand_core::Error>,
) -> (r: Result<String, HashError>)
    requires
        resolved(*params) is Some,
        drawn matches Ok(salt) ==> salt@.len() == DEFAULT_SALT_LENGTH,
    ensures
        match drawn {
            Ok(salt) => if password.spec_bytes().len() > MAX_PASSWORD_LENGTH {
                r == Err::<String, HashError>(HashError::Crypto)
            } else {
                r matches Ok(s) && created(
                    password.spec_bytes(),
                    salt@,
                    resolved(*params)->Some_0,
                    encode_utf8(s@),
                )
            },
            Err(_) => r == Err::<String, HashError>(HashError::Crypto),
        },
{
    match drawn {
        Ok(salt) => create_password_argon2(password, salt.as_slice(), params),
        Err(_) => Err(HashError::Crypto),
    }
}

/// Completes a verification once the digest has been recomputed, or not:
/// where there is none the result is a `Crypto` error, a digest equal to the
/// stored one is success, and any other digest is a `Mismatch`.
pub fn judge_digest(stored: &[u8], recomputed: Option<Vec<u8>>) -> (r: Result<(), VerifyError>)
    ensures
        r == match recomputed {
            Some(d) => if d@ == stored@ {
                Ok::<(), VerifyError>(())
            } else {
                Err::<(), VerifyError>(VerifyError::Mismatch)
            },
            None => Err::<(), VerifyError>(VerifyError::Crypto),
        },
{
    match recomputed {
        Some(d) => {
            if constant_time_eq(d.as_slice(), stored) {
                Ok(())
            } else {
                Err(VerifyError::Mismatch)
            }
        },
        None => Err(VerifyError::Crypto),
    }
}

/// Verifies `password` against the stored hash string `hash`.
///
/// An override of the costs that is out of range is refused with
/// `Parameter`; a valid one changes nothing, since the digest is recomputed
/// under the costs and salt that the string holds. Otherwise the result is
/// the verdict on the password: `Malformed`, `Crypto` for a password of more
/// than 2^32 - 1 bytes, success or `Mismatch`.
pub fn verify_password_argon2(password: &str, hash: &str, params: &Option<Parameters>) -> (r:
    Result<(), VerifyError>)
    ensures
        r == match resolved(*params) {
            Some(_) => verdict(password.spec_bytes(), hash.spec_bytes()),
            None => Err::<(), VerifyError>(VerifyError::Parameter),
        },
{
    if resolve_parameters(params).is_err() {
        return Err(VerifyError::Parameter);
    }
    let Some(stored) = PasswordHash::decode(hash) else {
        return Err(VerifyError::Malformed);
    };
    let outcome = argon2id(
        password.as_bytes(),
        stored.salt.as_slice(),
        stored.params.memory_cost,
        stored.params.time_cost,
        stored.params.parallelism,
        stored.params.output_length,
    );
    judge_digest(stored.digest.as_slice(), digest_of(outcome))
}

} // verus!
