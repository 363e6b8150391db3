//! The text form of an Argon2id hash,
//! `$argon2id$v=19$m=<memory>,t=<passes>,p=<lanes>$<salt>$<digest>`,
//! with salt and digest in unpadded base64: writing it, reading it, and the
//! proof that the two are inverse to each other.

use crate::decimal::{
    decimal, is_digit, lemma_decimal_value, lemma_take_number_decimal, lemma_take_number_text, push_decimal,
    read_number, take_number,
};
use vstd::prelude::*;

verus! {

/// Whether a byte belongs to the standard base64 alphabet.
pub open spec fn is_base64_byte(b: u8) -> bool {
    (65 <= b <= 90) || (97 <= b <= 122) || (48 <= b <= 57) || b == 43 || b == 47
}

/// Whether every byte of `s` belongs to the base64 alphabet.
pub open spec fn all_base64(s: Seq<u8>) -> bool {
    forall|i: int| 0 <= i < s.len() ==> is_base64_byte(#[trigger] s[i])
}

/// The fields of a hash in its text form, as mathematical values.
pub struct PhcText {
    pub memory_cost: u32,
    pub time_cost: u32,
    pub parallelism: u32,
    pub salt: Seq<u8>,
    pub digest: Seq<u8>,
}

/// The fields of a hash in its text form. Salt and digest are held as the
/// base64 text that stands in the string.
#[derive(Clone, Debug, PartialEq, Eq)]
pub struct PhcFields {
    pub memory_cost: u32,
    pub time_cost: u32,
    pub parallelism: u32,
    pub salt: Vec<u8>,
    pub digest: Vec<u8>,
}

impl View for PhcFields {
    type V = PhcText;

    open spec fn view(&self) -> PhcText {
        PhcText {
            memory_cost: self.memory_cost,
            time_cost: self.time_cost,
            parallelism: self.parallelism,
            salt: self.salt@,
            digest: self.digest@,
        }
    }
}

impl PhcText {
    /// Salt and digest are base64 text.
    pub open spec fn well_formed(self) -> bool {
        all_base64(self.salt) && all_base64(self.digest)
    }
}

/// The bytes of `$argon2id$v=19$m=`.
pub open spec fn head() -> Seq<u8> {
    seq![36u8, 97, 114, 103, 111, 110, 50, 105, 100, 36, 118, 61, 49, 57, 36, 109, 61]
}

/// The bytes of `,t=`.
pub open spec fn time_mark() -> Seq<u8> {
    seq![44u8, 116, 61]
}

/// The bytes of `,p=`.
pub open spec fn lanes_mark() -> Seq<u8> {
    seq![44u8, 112, 61]
}

/// The byte `$`.
pub open spec fn dollar() -> Seq<u8> {
    seq![36u8]
}

/// The string up to the parameters' end, in front of `rest`.
pub open spec fn costs_part(m: u32, t: u32, p: u32, rest: Seq<u8>) -> Seq<u8> {
    head() + (decimal(m as nat) + (time_mark() + (decimal(t as nat) + (lanes_mark() + (decimal(
        p as nat,
    ) + rest)))))
}

/// The string from the `$` before the salt to its end.
pub open spec fn texts_part(salt: Seq<u8>, digest: Seq<u8>) -> Seq<u8> {
    dollar() + (salt + (dollar() + digest))
}

/// The text form of the fields `f`.
pub open spec fn encode_spec(f: PhcText) -> Seq<u8> {
    costs_part(f.memory_cost, f.time_cost, f.parallelism, texts_part(f.salt, f.digest))
}

/// Takes `p` off the head of `s`, if it stands there.
pub open spec fn strip(s: Seq<u8>, p: Seq<u8>) -> Option<Seq<u8>> {
    if p.len() <= s.len() && s.take(p.len() as int) == p {
        Some(s.skip(p.len() as int))
    } else {
        None
    }
}

/// The number of base64 bytes at the head of `s`.
pub open spec fn text_count(s: Seq<u8>) -> nat
    decreases s.len(),
{
    if s.len() > 0 && is_base64_byte(s[0]) {
        1 + text_count(s.skip(1))
    } else {
        0
    }
}

/// Reads the three cost parameters at the head of `s`, and gives what
/// follows them.
pub open spec fn parse_costs(s: Seq<u8>) -> Option<((u32, u32, u32), Seq<u8>)> {
    match strip(s, head()) {
        None => None,
        Some(s1) => match take_number(s1) {
            None => None,
            Some((m, s2)) => match strip(s2, time_mark()) {
                None => None,
                Some(s3) => match take_number(s3) {
                    None => None,
                    Some((t, s4)) => match strip(s4, lanes_mark()) {
                        None => None,
                        Some(s5) => match take_number(s5) {
                            None => None,
                            Some((p, s6)) => Some(((m, t, p), s6)),
                        },
                    },
                },
            },
        },
    }
}

/// Reads `$<salt>$<digest>`, which must be all of `s`.
pub open spec fn parse_texts(s: Seq<u8>) -> Option<(Seq<u8>, Seq<u8>)> {
    match strip(s, dollar()) {
        None => None,
        Some(s1) => {
            let k = text_count(s1) as int;
            match strip(s1.skip(k), dollar()) {
                None => None,
                Some(s2) => {
                    let n = text_count(s2) as int;
                    if n == s2.len() {
                        Some((s1.take(k), s2))
                    } else {
                        None
                    }
                },
            }
        },
    }
}

/// Reads a hash in its text form; `None` where `s` is not one.
pub open spec fn parse_spec(s: Seq<u8>) -> Option<PhcText> {
    match parse_costs(s) {
        None => None,
        Some(((m, t, p), rest)) => match parse_texts(rest) {
            None => None,
            Some((salt, digest)) => Some(
                PhcText { memory_cost: m, time_cost: t, parallelism: p, salt, digest },
            ),
        },
    }
}

/// A prefix is taken off what it was put in front of.
proof fn lemma_strip_join(p: Seq<u8>, rest: Seq<u8>)
    ensures
        strip(p + rest, p) == Some(rest),
{
    assert((p + rest).take(p.len() as int) =~= p);
    assert((p + rest).skip(p.len() as int) =~= rest);
}

/// Whatever a prefix was taken off started with that prefix.
proof fn lemma_strip_text(s: Seq<u8>, p: Seq<u8>)
    requires
        strip(s, p) is Some,
    ensures
        s == p + strip(s, p)->Some_0,
{
    assert(s =~= s.take(p.len() as int) + s.skip(p.len() as int));
}

/// A run of base64 bytes followed by something else is counted whole.
proof fn lemma_text_count_run(run: Seq<u8>, rest: Seq<u8>)
    requires
        all_base64(run),
        rest.len() == 0 || !is_base64_byte(rest[0]),
    ensures
        text_count(run + rest) == run.len(),
    decreases run.len(),
{
    let s = run + rest;
    if run.len() == 0 {
        assert(s =~= rest);
    } else {
        assert(s[0] == run[0]);
        assert(is_base64_byte(run[0]));
        let tail = run.skip(1);
        assert forall|i: int| 0 <= i < tail.len() implies is_base64_byte(#[trigger] tail[i]) by {
            assert(tail[i] == run[i + 1]);
        }
        assert(s.skip(1) =~= tail + rest);
        lemma_text_count_run(tail, rest);
    }
}

/// The bytes counted at the head of `s` are there, and are base64 bytes.
proof fn lemma_text_count_bound(s: Seq<u8>)
    ensures
        text_count(s) <= s.len(),
        all_base64(s.take(text_count(s) as int)),
    decreases s.len(),
{
    if s.len() > 0 && is_base64_byte(s[0]) {
        lemma_text_count_bound(s.skip(1));
        let k = text_count(s) as int;
        let run = s.take(k);
        let inner = s.skip(1).take(k - 1);
        assert forall|i: int| 0 <= i < run.len() implies is_base64_byte(#[trigger] run[i]) by {
            if i > 0 {
                assert(run[i] == inner[i - 1]);
            }
        }
    }
}

/// Reading the written costs gives them back, with what follows them.
proof fn lemma_parse_costs_written(m: u32, t: u32, p: u32, rest: Seq<u8>)
    requires
        rest.len() == 0 || !is_digit(rest[0]),
    ensures
        parse_costs(costs_part(m, t, p, rest)) == Some(((m, t, p), rest)),
{
    let s6 = rest;
    let s5 = decimal(p as nat) + s6;
    let s4 = lanes_mark() + s5;
    let s3 = decimal(t as nat) + s4;
    let s2 = time_mark() + s3;
    let s1 = decimal(m as nat) + s2;
    lemma_strip_join(head(), s1);
    assert(s2[0] == 44);
    lemma_take_number_decimal(m, s2);
    lemma_strip_join(time_mark(), s3);
    assert(s4[0] == 44);
    lemma_take_number_decimal(t, s4);
    lemma_strip_join(lanes_mark(), s5);
    lemma_take_number_decimal(p, s6);
}

/// Reading the written salt and digest gives them back.
proof fn lemma_parse_texts_written(salt: Seq<u8>, digest: Seq<u8>)
    requires
        all_base64(salt),
        all_base64(digest),
    ensures
        parse_texts(texts_part(salt, digest)) == Some((salt, digest)),
{
    let s2 = digest;
    let tail = dollar() + s2;
    let s1 = salt + tail;
    lemma_strip_join(dollar(), s1);
    assert(tail[0] == 36);
    lemma_text_count_run(salt, tail);
    assert(s1.take(salt.len() as int) =~= salt);
    assert(s1.skip(salt.len() as int) =~= tail);
    lemma_strip_join(dollar(), s2);
    lemma_text_count_run(digest, Seq::<u8>::empty());
    assert(digest + Seq::<u8>::empty() =~= digest);
}

/// Reading what was written gives the fields back.
pub proof fn lemma_parse_encode(f: PhcText)
    requires
        f.well_formed(),
    ensures
        parse_spec(encode_spec(f)) == Some(f),
{
    let rest = texts_part(f.salt, f.digest);
    assert(rest[0] == 36);
    lemma_parse_costs_written(f.memory_cost, f.time_cost, f.parallelism, rest);
    lemma_parse_texts_written(f.salt, f.digest);
}

/// Whatever is read as a hash is the text form of the fields read from it:
/// no string but the canonical one is accepted.
pub proof fn lemma_encode_parse(s: Seq<u8>)
    requires
        parse_spec(s) is Some,
    ensures
        parse_spec(s)->Some_0.well_formed(),
        encode_spec(parse_spec(s)->Some_0) == s,
{
    let s1 = strip(s, head())->Some_0;
    lemma_strip_text(s, head());
    let s2 = take_number(s1)->Some_0.1;
    lemma_take_number_text(s1);
    let s3 = strip(s2, time_mark())->Some_0;
    lemma_strip_text(s2, time_mark());
    let s4 = take_number(s3)->Some_0.1;
    lemma_take_number_text(s3);
    let s5 = strip(s4, lanes_mark())->Some_0;
    lemma_strip_text(s4, lanes_mark());
    let s6 = take_number(s5)->Some_0.1;
    lemma_take_number_text(s5);
    let t1 = strip(s6, dollar())->Some_0;
    lemma_strip_text(s6, dollar());
    let k = text_count(t1) as int;
    lemma_text_count_bound(t1);
    assert(t1 =~= t1.take(k) + t1.skip(k));
    let t2 = strip(t1.skip(k), dollar())->Some_0;
    lemma_strip_text(t1.skip(k), dollar());
    lemma_text_count_bound(t2);
    assert(t2.take(t2.len() as int) =~= t2);
}

/// The length of the text form: 25 bytes of fixed text, the three numerals,
/// the salt and the digest.
pub proof fn lemma_encode_length(f: PhcText)
    ensures
        encode_spec(f).len() == 25 + decimal(f.memory_cost as nat).len() + decimal(
            f.time_cost as nat,
        ).len() + decimal(f.parallelism as nat).len() + f.salt.len() + f.digest.len(),
{
}

/// The text form of well-formed fields is ASCII throughout.
pub proof fn lemma_encode_ascii(f: PhcText)
    requires
        f.well_formed(),
    ensures
        forall|i: int| 0 <= i < encode_spec(f).len() ==> #[trigger] encode_spec(f)[i] <= 127,
{
    lemma_decimal_value(f.memory_cost as nat);
    lemma_decimal_value(f.time_cost as nat);
    lemma_decimal_value(f.parallelism as nat);
}

/// Two sets of fields with the same text form are the same fields.
pub proof fn lemma_encode_injective(f: PhcText, g: PhcText)
    requires
        f.well_formed(),
        g.well_formed(),
        encode_spec(f) == encode_spec(g),
    ensures
        f == g,
{
    lemma_parse_encode(f);
    lemma_parse_encode(g);
}

/// Appends `bytes` to `out`.
fn append_bytes(out: &mut Vec<u8>, bytes: &[u8])
    ensures
        final(out)@ == old(out)@ + bytes@,
{
    let mut i: usize = 0;
    while i < bytes.len()
        invariant
            i <= bytes@.len(),
            out@ == old(out)@ + bytes@.take(i as int),
        decreases bytes@.len() - i,
    {
        out.push(bytes[i]);
        proof {
            assert(out@ =~= old(out)@ + bytes@.take(i + 1));
        }
        i += 1;
    }
    proof {
        assert(bytes@.take(i as int) =~= bytes@);
    }
}

/// The bytes of `$argon2id$v=19$m=`.
fn head_bytes() -> (r: Vec<u8>)
    ensures
        r@ == head(),
{
    let r: Vec<u8> = vec![36u8, 97, 114, 103, 111, 110, 50, 105, 100, 36, 118, 61, 49, 57, 36, 109, 61];
    proof {
        assert(r@ =~= head());
    }
    r
}

/// The bytes of `,t=`.
fn time_mark_bytes() -> (r: Vec<u8>)
    ensures
        r@ == time_mark(),
{
    let r: Vec<u8> = vec![44u8, 116, 61];
    proof {
        assert(r@ =~= time_mark());
    }
    r
}

/// The bytes of `,p=`.
fn lanes_mark_bytes() -> (r: Vec<u8>)
    ensures
        r@ == lanes_mark(),
{
    let r: Vec<u8> = vec![44u8, 112, 61];
    proof {
        assert(r@ =~= lanes_mark());
    }
    r
}

/// The byte `$`.
fn dollar_bytes() -> (r: Vec<u8>)
    ensures
        r@ == dollar(),
{
    let r: Vec<u8> = vec![36u8];
    proof {
        assert(r@ =~= dollar());
    }
    r
}

/// Writes the text form of `fields`.
pub fn encode_hash(fields: &PhcFields) -> (r: Vec<u8>)
    ensures
        r@ == encode_spec(fields@),
{
    let mut out = head_bytes();
    push_decimal(&mut out, fields.memory_cost);
    append_bytes(&mut out, time_mark_bytes().as_slice());
    push_decimal(&mut out, fields.time_cost);
    append_bytes(&mut out, lanes_mark_bytes().as_slice());
    push_decimal(&mut out, fields.parallelism);
    append_bytes(&mut out, dollar_bytes().as_slice());
    append_bytes(&mut out, fields.salt.as_slice());
    append_bytes(&mut out, dollar_bytes().as_slice());
    append_bytes(&mut out, fields.digest.as_slice());
    proof {
        assert(out@ =~= encode_spec(fields@));
    }
    out
}

/// Tests whether `p` stands in `s` at `start`, and gives the position after it.
fn expect(s: &[u8], start: usize, p: &[u8]) -> (r: Option<usize>)
    requires
        start <= s@.len(),
    ensures
        match r {
            Some(end) => start <= end <= s@.len() && strip(s@.skip(start as int), p@) == Some(
                s@.skip(end as int),
            ),
            None => strip(s@.skip(start as int), p@) is None,
        },
{
    if p.len() > s.len() - start {
        return None;
    }
    let ghost tail = s@.skip(start as int);
    let n: usize = s.len();
    let mut i: usize = 0;
    while i < p.len()
        invariant
            i <= p@.len(),
            n == s@.len(),
            start <= n,
            p@.len() <= s@.len() - start,
            tail == s@.skip(start as int),
            forall|k: int| 0 <= k < i ==> s@[start + k] == p@[k],
        decreases p@.len() - i,
    {
        if s[start + i] != p[i] {
            proof {
                assert(tail.take(p@.len() as int)[i as int] == s@[start + i]);
            }
            return None;
        }
        i += 1;
    }
    proof {
        assert(tail.take(p@.len() as int) =~= p@);
        assert(tail.skip(p@.len() as int) =~= s@.skip(start + p@.len()));
    }
    Some(start + p.len())
}

/// Copies the run of base64 bytes that starts at `start`, and gives the
/// position after it.
fn read_text(s: &[u8], start: usize) -> (r: (Vec<u8>, usize))
    requires
        start <= s@.len(),
    ensures
        start <= r.1 <= s@.len(),
        r.1 - start == text_count(s@.skip(start as int)),
        r.0@ == s@.skip(start as int).take(r.1 - start),
        s@.skip(r.1 as int) == s@.skip(start as int).skip(r.1 - start),
{
    let mut text: Vec<u8> = Vec::new();
    let mut j: usize = start;
    while j < s.len() && is_base64(s[j])
        invariant
            start <= j <= s@.len(),
            text_count(s@.skip(start as int)) == (j - start) + text_count(s@.skip(j as int)),
            text@ == s@.subrange(start as int, j as int),
        decreases s@.len() - j,
    {
        proof {
            assert(s@.skip(j as int)[0] == s@[j as int]);
            assert(s@.skip(j as int).skip(1) =~= s@.skip(j + 1));
        }
        text.push(s[j]);
        proof {
            assert(text@ =~= s@.subrange(start as int, j + 1));
        }
        j += 1;
    }
    proof {
        let tail = s@.skip(start as int);
        if j < s@.len() {
            assert(s@.skip(j as int)[0] == s@[j as int]);
        }
        assert(text_count(s@.skip(j as int)) == 0);
        assert(tail.take(j - start) =~= s@.subrange(start as int, j as int));
        assert(tail.skip(j - start) =~= s@.skip(j as int));
    }
    (text, j)
}

/// Tests whether a byte belongs to the base64 alphabet.
pub fn is_base64(b: u8) -> (r: bool)
    ensures
        r == is_base64_byte(b),
{
    (65 <= b && b <= 90) || (97 <= b && b <= 122) || (48 <= b && b <= 57) || b == 43 || b == 47
}

/// Reads a hash in its text form. The string must be exactly what
/// `encode_hash` writes for some fields: the fixed head, three canonical
/// decimal numbers that fit in 32 bits, and two runs of base64 text.
pub fn decode_hash(text: &[u8]) -> (r: Option<PhcFields>)
    ensures
        match r {
            Some(f) => parse_spec(text@) == Some(f@),
            None => parse_spec(text@) is None,
        },
{
    proof {
        assert(text@.skip(0) =~= text@);
    }
    let Some(i1) = expect(text, 0, head_bytes().as_slice()) else {
        return None;
    };
    let Some((m, i2)) = read_number(text, i1) else {
        return None;
    };
    let Some(i3) = expect(text, i2, time_mark_bytes().as_slice()) else {
        return None;
    };
    let Some((t, i4)) = read_number(text, i3) else {
        return None;
    };
    let Some(i5) = expect(text, i4, lanes_mark_bytes().as_slice()) else {
        return None;
    };
    let Some((p, i6)) = read_number(text, i5) else {
        return None;
    };
    let Some(i7) = expect(text, i6, dollar_bytes().as_slice()) else {
        return None;
    };
    let (salt, i8) = read_text(text, i7);
    let Some(i9) = expect(text, i8, dollar_bytes().as_slice()) else {
        return None;
    };
    let (digest, i10) = read_text(text, i9);
    if i10 != text.len() {
        return None;
    }
    proof {
        let s2 = text@.skip(i9 as int);
        assert(s2.take(s2.len() as int) =~= s2);
    }
    Some(PhcFields { memory_cost: m, time_cost: t, parallelism: p, salt, digest })
}

} // verus!
