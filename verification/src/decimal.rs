//! Unsigned decimal numerals as ASCII bytes: writing them, reading them, and
//! the facts that make the two inverse to each other.

use vstd::prelude::*;

verus! {

/// Whether a byte is one of the ASCII digits `0` to `9`.
pub open spec fn is_digit(b: u8) -> bool {
    48 <= b <= 57
}

/// The decimal numeral of `n`, without leading zeros.
pub open spec fn decimal(n: nat) -> Seq<u8>
    decreases n,
{
    if n < 10 {
        seq![(48 + n) as u8]
    } else {
        decimal(n / 10).push((48 + n % 10) as u8)
    }
}

/// The number that a sequence of digits denotes; 0 for the empty sequence.
pub open spec fn digits_value(s: Seq<u8>) -> nat
    decreases s.len(),
{
    if s.len() == 0 {
        0
    } else {
        10 * digits_value(s.drop_last()) + (s.last() - 48) as nat
    }
}

/// Whether every byte of `s` is a digit.
pub open spec fn all_digits(s: Seq<u8>) -> bool {
    forall|i: int| 0 <= i < s.len() ==> is_digit(#[trigger] s[i])
}

/// Whether `s` is a numeral as `decimal` writes it: one digit at least, and
/// no leading zero before another digit.
pub open spec fn canonical(s: Seq<u8>) -> bool {
    &&& s.len() >= 1
    &&& all_digits(s)
    &&& (s.len() == 1 || s[0] != 48)
}

/// The number of digits at the head of `s`.
pub open spec fn digit_count(s: Seq<u8>) -> nat
    decreases s.len(),
{
    if s.len() > 0 && is_digit(s[0]) {
        1 + digit_count(s.skip(1))
    } else {
        0
    }
}

/// Reads the numeral at the head of `s`: the longest run of digits there, if
/// it is canonical and fits in 32 bits, together with what follows it.
pub open spec fn take_number(s: Seq<u8>) -> Option<(u32, Seq<u8>)> {
    let k = digit_count(s) as int;
    let run = s.take(k);
    if canonical(run) && digits_value(run) <= u32::MAX {
        Some((digits_value(run) as u32, s.skip(k)))
    } else {
        None
    }
}

/// The numeral of any number is canonical and denotes that number.
pub proof fn lemma_decimal_value(n: nat)
    ensures
        canonical(decimal(n)),
        digits_value(decimal(n)) == n,
        n >= 1 ==> decimal(n)[0] != 48,
    decreases n,
{
    let s = decimal(n);
    if n < 10 {
        assert(s.drop_last().len() == 0);
        assert(digits_value(s.drop_last()) == 0);
    } else {
        lemma_decimal_value(n / 10);
        let init = decimal(n / 10);
        assert(s.drop_last() =~= init);
        assert(s[0] == init[0]);
        assert forall|i: int| 0 <= i < s.len() implies is_digit(#[trigger] s[i]) by {
            if i < init.len() {
                assert(s[i] == init[i]);
            }
        }
    }
}

/// A run of digits that starts with a digit other than zero denotes a
/// positive number.
pub proof fn lemma_value_positive(s: Seq<u8>)
    requires
        all_digits(s),
        s.len() >= 1,
        s[0] != 48,
    ensures
        digits_value(s) >= 1,
    decreases s.len(),
{
    let init = s.drop_last();
    if s.len() == 1 {
        assert(s.last() == s[0]);
    } else {
        assert(init[0] == s[0]);
        assert forall|i: int| 0 <= i < init.len() implies is_digit(#[trigger] init[i]) by {
            assert(init[i] == s[i]);
        }
        lemma_value_positive(init);
    }
}

/// A canonical numeral is the numeral of the number it denotes.
pub proof fn lemma_canonical_decimal(s: Seq<u8>)
    requires
        canonical(s),
    ensures
        decimal(digits_value(s)) == s,
    decreases s.len(),
{
    let init = s.drop_last();
    let d = (s.last() - 48) as nat;
    assert(is_digit(s[s.len() - 1]));
    if s.len() == 1 {
        assert(digits_value(init) == 0);
        assert(decimal(d) =~= s);
    } else {
        assert(init[0] == s[0]);
        assert forall|i: int| 0 <= i < init.len() implies is_digit(#[trigger] init[i]) by {
            assert(init[i] == s[i]);
        }
        lemma_value_positive(init);
        lemma_canonical_decimal(init);
        let v = digits_value(s);
        assert(v == 10 * digits_value(init) + d);
        assert(v / 10 == digits_value(init));
        assert(v % 10 == d);
        assert(init.push(s.last()) =~= s);
    }
}

/// A run of digits followed by something that is no digit is counted whole.
pub proof fn lemma_digit_count_run(run: Seq<u8>, rest: Seq<u8>)
    requires
        all_digits(run),
        rest.len() == 0 || !is_digit(rest[0]),
    ensures
        digit_count(run + rest) == run.len(),
    decreases run.len(),
{
    let s = run + rest;
    if run.len() == 0 {
        assert(s =~= rest);
    } else {
        assert(s[0] == run[0]);
        assert(is_digit(run[0]));
        let tail = run.skip(1);
        assert forall|i: int| 0 <= i < tail.len() implies is_digit(#[trigger] tail[i]) by {
            assert(tail[i] == run[i + 1]);
        }
        assert(s.skip(1) =~= tail + rest);
        lemma_digit_count_run(tail, rest);
    }
}

/// The digits counted at the head of `s` are there, and are digits.
pub proof fn lemma_digit_count_bound(s: Seq<u8>)
    ensures
        digit_count(s) <= s.len(),
        all_digits(s.take(digit_count(s) as int)),
    decreases s.len(),
{
    if s.len() > 0 && is_digit(s[0]) {
        lemma_digit_count_bound(s.skip(1));
        let k = digit_count(s) as int;
        let run = s.take(k);
        let inner = s.skip(1).take(k - 1);
        assert forall|i: int| 0 <= i < run.len() implies is_digit(#[trigger] run[i]) by {
            if i > 0 {
                assert(run[i] == inner[i - 1]);
            }
        }
    }
}

/// Reading the numeral of `n` in front of something that is no digit gives
/// `n` and leaves what follows.
pub proof fn lemma_take_number_decimal(n: u32, rest: Seq<u8>)
    requires
        rest.len() == 0 || !is_digit(rest[0]),
    ensures
        take_number(decimal(n as nat) + rest) == Some((n, rest)),
{
    let run = decimal(n as nat);
    let s = run + rest;
    lemma_decimal_value(n as nat);
    lemma_digit_count_run(run, rest);
    assert(s.take(run.len() as int) =~= run);
    assert(s.skip(run.len() as int) =~= rest);
}

/// Whatever is read as a number stood there as that number's numeral.
pub proof fn lemma_take_number_text(s: Seq<u8>)
    requires
        take_number(s) is Some,
    ensures
        s == decimal(take_number(s)->Some_0.0 as nat) + take_number(s)->Some_0.1,
{
    lemma_digit_count_bound(s);
    let k = digit_count(s) as int;
    lemma_canonical_decimal(s.take(k));
    assert(s =~= s.take(k) + s.skip(k));
}

/// Appends the decimal numeral of `n` to `out`.
pub fn push_decimal(out: &mut Vec<u8>, n: u32)
    ensures
        final(out)@ == old(out)@ + decimal(n as nat),
    decreases n,
{
    if n >= 10 {
        push_decimal(out, n / 10);
    }
    let d: u8 = (n % 10) as u8;
    out.push(48 + d);
    proof {
        let x: u8 = (48 + d) as u8;
        if n >= 10 {
            assert(final(out)@ =~= old(out)@ + decimal((n / 10) as nat).push(x));
        } else {
            assert(final(out)@ =~= old(out)@ + seq![x]);
        }
    }
}

/// Reads the numeral that starts at `start`: its value and the position
/// after its last digit.
pub fn read_number(s: &[u8], start: usize) -> (r: Option<(u32, usize)>)
    requires
        start <= s@.len(),
    ensures
        match r {
            Some((n, end)) => start <= end <= s@.len() && take_number(s@.skip(start as int))
                == Some((n, s@.skip(end as int))),
            None => take_number(s@.skip(start as int)) is None,
        },
{
    let mut j: usize = start;
    let mut acc: u64 = 0;
    let mut over: bool = false;
    while j < s.len() && s[j] >= 48 && s[j] <= 57
        invariant
            start <= j <= s@.len(),
            digit_count(s@.skip(start as int)) == (j - start) + digit_count(s@.skip(j as int)),
            !over ==> acc == digits_value(s@.subrange(start as int, j as int)) && acc
                <= 0xFFFF_FFFF,
            over ==> digits_value(s@.subrange(start as int, j as int)) > 0xFFFF_FFFF,
        decreases s@.len() - j,
    {
        proof {
            let next = s@.subrange(start as int, j + 1);
            assert(s@.skip(j as int)[0] == s@[j as int]);
            assert(s@.skip(j as int).skip(1) =~= s@.skip(j + 1));
            assert(next.drop_last() =~= s@.subrange(start as int, j as int));
            assert(next.last() == s@[j as int]);
        }
        if !over {
            acc = acc * 10 + (s[j] - 48) as u64;
            if acc > 0xFFFF_FFFF {
                over = true;
            }
        }
        j += 1;
    }
    proof {
        let tail = s@.skip(start as int);
        if j < s@.len() {
            assert(s@.skip(j as int)[0] == s@[j as int]);
        }
        assert(digit_count(s@.skip(j as int)) == 0);
        assert(tail.take(j - start) =~= s@.subrange(start as int, j as int));
        assert(tail.skip(j - start) =~= s@.skip(j as int));
        lemma_digit_count_bound(tail);
        if j > start {
            assert(tail.take(j - start)[0] == s@[start as int]);
        }
    }
    if over || j == start || (j - start > 1 && s[start] == 48) {
        None
    } else {
        Some((acc as u32, j))
    }
}

} // verus!
