//! Rate-limit strings: a decimal number with an optional binary-magnitude
//! suffix (k, M, G, T, either case), worth `number * 1024^n` bytes per second.
//!
//! Parsing is total and failure is non-fatal for callers: a malformed rate is
//! reported as the absence of a value, never as a panic.

use vstd::prelude::*;
use vstd::arithmetic::div_mod::{
    lemma_div_is_ordered, lemma_div_multiples_vanish, lemma_div_nonincreasing,
    lemma_div_pos_is_pos, lemma_hoist_over_denominator,
};
use vstd::arithmetic::mul::{
    lemma_mul_inequality, lemma_mul_is_associative, lemma_mul_is_commutative,
    lemma_mul_is_distributive_add_other_way, lemma_mul_upper_bound,
};
use crate::digits::{
    all_digits, digit_val, digits_val, is_digit, is_digit_char, lemma_digits_val_concat,
    lemma_digits_val_lower, lemma_digits_val_zeros, lemma_pow10_increases, lemma_pow10_pos,
    parse_digits, pow10, pow10_u64,
};

verus! {

/// Recognized magnitude suffixes (kilo/mega/giga/tera, either case).
pub open spec fn is_rate_suffix(c: char) -> bool {
    c == 'k' || c == 'K' || c == 'm' || c == 'M' || c == 'g' || c == 'G' || c == 't' || c == 'T'
}

/// Multiplier carried by a magnitude suffix: 1024 to the power 1 through 4.
pub open spec fn suffix_factor(c: char) -> nat {
    if c == 'k' || c == 'K' {
        1024
    } else if c == 'm' || c == 'M' {
        1048576
    } else if c == 'g' || c == 'G' {
        1073741824
    } else if c == 't' || c == 'T' {
        1099511627776
    } else {
        1
    }
}

/// The number before the optional suffix.
pub open spec fn number_part(s: Seq<char>) -> Seq<char> {
    if s.len() > 0 && is_rate_suffix(s.last()) {
        s.drop_last()
    } else {
        s
    }
}

/// Multiplier of the whole rate string (1 when no suffix is given).
pub open spec fn rate_factor(s: Seq<char>) -> nat {
    if s.len() > 0 && is_rate_suffix(s.last()) {
        suffix_factor(s.last())
    } else {
        1
    }
}

/// Index of the first `.` in `s`, or `s.len()` when there is none.
pub open spec fn first_dot(s: Seq<char>) -> int
    decreases s.len(),
{
    if s.len() == 0 {
        0
    } else if s[0] == '.' {
        0
    } else {
        1 + first_dot(s.skip(1))
    }
}

/// Digits before the decimal point (the whole number when there is no point).
pub open spec fn int_digits(n: Seq<char>) -> Seq<char> {
    n.take(first_dot(n))
}

/// Digits after the decimal point (empty when there is no point).
pub open spec fn frac_digits(n: Seq<char>) -> Seq<char> {
    if first_dot(n) < n.len() {
        n.skip(first_dot(n) + 1)
    } else {
        Seq::<char>::empty()
    }
}

/// A well-formed number: digits around at most one decimal point, at least one
/// digit in all, and at most 15 fractional digits (finer fractions of a byte
/// per second carry no information for any caller).
pub open spec fn number_wf(n: Seq<char>) -> bool {
    &&& all_digits(int_digits(n))
    &&& all_digits(frac_digits(n))
    &&& int_digits(n).len() + frac_digits(n).len() >= 1
    &&& frac_digits(n).len() <= 15
}

/// A well-formed rate string: a well-formed number, optionally suffixed.
pub open spec fn rate_wf(s: Seq<char>) -> bool {
    number_part(s).len() > 0 && number_wf(number_part(s))
}

/// Bytes per second denoted by a well-formed rate string, rounded down.
pub open spec fn rate_value(s: Seq<char>) -> nat {
    (digits_val(int_digits(number_part(s)) + frac_digits(number_part(s))) * rate_factor(s))
        / pow10(frac_digits(number_part(s)).len())
}

proof fn lemma_first_dot_bounds(s: Seq<char>)
    ensures
        0 <= first_dot(s) <= s.len(),
        first_dot(s) < s.len() ==> s[first_dot(s)] == '.',
    decreases s.len(),
{
    if s.len() > 0 && s[0] != '.' {
        lemma_first_dot_bounds(s.skip(1));
        if first_dot(s) < s.len() {
            assert(s[first_dot(s)] == s.skip(1)[first_dot(s.skip(1))]);
        }
    }
}

proof fn lemma_first_dot_is(s: Seq<char>, i: int)
    requires
        0 <= i <= s.len(),
        forall|j: int| 0 <= j < i ==> s[j] != '.',
        i < s.len() ==> s[i] == '.',
    ensures
        first_dot(s) == i,
    decreases s.len(),
{
    if s.len() == 0 {
    } else if s[0] == '.' {
        assert(i == 0);
    } else {
        let t = s.skip(1);
        assert forall|j: int| 0 <= j < i - 1 implies t[j] != '.' by {
            assert(t[j] == s[j + 1]);
        }
        if i - 1 < t.len() {
            assert(t[i - 1] == s[i]);
        }
        lemma_first_dot_is(t, i - 1);
    }
}

proof fn lemma_first_dot_lower(s: Seq<char>, k: int)
    requires
        0 <= k <= s.len(),
        forall|j: int| 0 <= j < k ==> s[j] != '.',
    ensures
        first_dot(s) >= k,
    decreases s.len(),
{
    lemma_first_dot_bounds(s);
    if s.len() > 0 && s[0] != '.' && k > 0 {
        let t = s.skip(1);
        assert forall|j: int| 0 <= j < k - 1 implies t[j] != '.' by {
            assert(t[j] == s[j + 1]);
        }
        lemma_first_dot_lower(t, k - 1);
    }
}

/// The value of a suffixed decimal splits into an integer-part contribution
/// and a fractional-part contribution, and is at least the integer part.
proof fn lemma_rate_decompose(id: Seq<char>, fr: Seq<char>, f: nat)
    requires
        f >= 1,
    ensures
        (digits_val(id + fr) * f) / pow10(fr.len()) == digits_val(id) * f + (digits_val(fr) * f)
            / pow10(fr.len()),
        (digits_val(id + fr) * f) / pow10(fr.len()) >= digits_val(id),
{
    let x = digits_val(id) as int;
    let y = digits_val(fr) as int;
    let den = pow10(fr.len());
    lemma_pow10_pos(fr.len());
    lemma_digits_val_concat(id, fr);
    let fi = f as int;
    assert((x * den + y) * fi == (x * den) * fi + y * fi) by {
        lemma_mul_is_distributive_add_other_way(fi, x * den, y);
    }
    assert((x * den) * fi == (x * fi) * den) by {
        lemma_mul_is_associative(x, den as int, fi);
        lemma_mul_is_commutative(den as int, fi);
        lemma_mul_is_associative(x, fi, den as int);
    }
    lemma_hoist_over_denominator(y * fi, x * fi, den);
    assert((y * fi + (x * fi) * den) / (den as int) == (y * fi) / (den as int) + x * fi);
    assert((digits_val(id + fr) * f) as int == y * fi + (x * fi) * den);
    lemma_div_pos_is_pos(y * fi, den as int);
    assert(x * fi >= x * 1) by {
        lemma_mul_inequality(1, fi, x);
        lemma_mul_is_commutative(x, fi);
    }
}

/// Multiplier of a suffix character, when it is one.
fn rate_suffix_of(c: char) -> (r: Option<u64>)
    ensures
        match r {
            Some(f) => is_rate_suffix(c) && f == suffix_factor(c),
            None => !is_rate_suffix(c),
        },
{
    if c == 'k' || c == 'K' {
        Some(1024)
    } else if c == 'm' || c == 'M' {
        Some(1048576)
    } else if c == 'g' || c == 'G' {
        Some(1073741824)
    } else if c == 't' || c == 'T' {
        Some(1099511627776)
    } else {
        None
    }
}

/// Finds the decimal point in the number part `s[0..numlen]` and checks that
/// every other character is a digit.
fn scan_number(s: &str, numlen: usize) -> (r: Option<usize>)
    requires
        numlen <= s@.len(),
    ensures
        ({
            let np = s@.subrange(0, numlen as int);
            match r {
                Some(dot) => {
                    &&& dot <= numlen
                    &&& first_dot(np) == dot as int
                    &&& all_digits(int_digits(np))
                    &&& all_digits(frac_digits(np))
                    &&& int_digits(np).len() == dot as int
                    &&& frac_digits(np).len() == if dot < numlen {
                        numlen - dot - 1
                    } else {
                        0
                    }
                },
                None => !number_wf(np),
            }
        }),
{
    let ghost np = s@.subrange(0, numlen as int);
    let mut i: usize = 0;
    let mut dot: usize = numlen;
    while i < numlen
        invariant
            i <= numlen <= s@.len(),
            np == s@.subrange(0, numlen as int),
            dot == numlen || (dot < i && np[dot as int] == '.'),
            forall|j: int| 0 <= j < i && j != dot ==> is_digit(#[trigger] np[j]),
            forall|j: int| 0 <= j < i && j != dot ==> np[j] != '.',
        decreases numlen - i,
    {
        let c = s.get_char(i);
        proof {
            assert(np[i as int] == c);
        }
        if c == '.' {
            if dot < numlen {
                // A second decimal point: the fractional part is not all digits.
                proof {
                    lemma_first_dot_is(np, dot as int);
                    let fr = frac_digits(np);
                    assert(fr[i - dot - 1] == np[i as int]);
                    assert(!is_digit('.'));
                    assert(!all_digits(fr));
                }
                return None;
            }
            dot = i;
        } else if !is_digit_char(c) {
            proof {
                if dot < numlen {
                    lemma_first_dot_is(np, dot as int);
                    let fr = frac_digits(np);
                    assert(fr[i - dot - 1] == np[i as int]);
                    assert(!all_digits(fr));
                } else {
                    lemma_first_dot_lower(np, i + 1 as int);
                    lemma_first_dot_bounds(np);
                    let id = int_digits(np);
                    assert(id[i as int] == np[i as int]);
                    assert(!all_digits(id));
                }
            }
            return None;
        }
        i += 1;
    }
    proof {
        if dot < numlen {
            lemma_first_dot_is(np, dot as int);
        } else {
            lemma_first_dot_is(np, numlen as int);
        }
        let id = int_digits(np);
        assert forall|k: int| 0 <= k < id.len() implies is_digit(#[trigger] id[k]) by {
            assert(id[k] == np[k]);
        }
        let fr = frac_digits(np);
        assert forall|k: int| 0 <= k < fr.len() implies is_digit(#[trigger] fr[k]) by {
            assert(fr[k] == np[k + dot + 1]);
        }
    }
    Some(dot)
}

/// Index of the first non-zero character in `s[0..dot]`, or `dot`.
fn skip_zeros(s: &str, dot: usize) -> (z: usize)
    requires
        dot <= s@.len(),
    ensures
        z <= dot,
        forall|j: int| 0 <= j < z ==> (#[trigger] s@[j]) as u32 == 48,
        z < dot ==> (s@[z as int]) as u32 != 48,
{
    let mut z: usize = 0;
    while z < dot
        invariant
            z <= dot <= s@.len(),
            forall|j: int| 0 <= j < z ==> (#[trigger] s@[j]) as u32 == 48,
        decreases dot - z,
    {
        if (s.get_char(z) as u32) != 48 {
            return z;
        }
        z += 1;
    }
    z
}

/// Parses a rate string into bytes per second.
///
/// Returns the exact value `number * 1024^n` (rounded down for fractional
/// numbers) for well-formed input whose value fits in a `u64`, and no value
/// otherwise. Never panics: the caller logs a warning and applies no limit.
#[verifier::rlimit(80)]
pub fn parse_rate(s: &str) -> (r: Option<u64>)
    ensures
        rate_wf(s@) && rate_value(s@) <= u64::MAX ==> r == Some(rate_value(s@) as u64),
        !(rate_wf(s@) && rate_value(s@) <= u64::MAX) ==> r is None,
{
    let n = s.unicode_len();
    if n == 0 {
        return None;
    }
    let last = s.get_char(n - 1);
    let (numlen, factor): (usize, u64) = match rate_suffix_of(last) {
        Some(f) => ((n - 1) as usize, f),
        None => (n, 1u64),
    };
    let ghost np = number_part(s@);
    proof {
        assert(s@[n - 1 as int] == s@.last());
        assert(np =~= s@.subrange(0, numlen as int));
        assert(rate_factor(s@) == factor as nat);
    }
    if numlen == 0 {
        return None;
    }
    let dot = match scan_number(s, numlen) {
        Some(d) => d,
        None => {
            return None;
        },
    };
    let flen: usize = if dot < numlen {
        numlen - dot - 1
    } else {
        0
    };
    if dot == 0 && flen == 0 {
        // Just a decimal point: no digits at all.
        return None;
    }
    if flen > 15 {
        return None;
    }
    let ghost id = int_digits(np);
    let ghost fr = frac_digits(np);
    proof {
        assert(number_wf(np));
        assert(rate_wf(s@));
        assert(id =~= s@.subrange(0, dot as int));
    }
    // Skip leading zeros of the integer part so its magnitude is visible
    // from its length alone.
    let z = skip_zeros(s, dot);
    let ghost core = id.skip(z as int);
    proof {
        assert(id =~= id.take(z as int) + core);
        assert forall|j: int| 0 <= j < z implies digit_val(#[trigger] id.take(z as int)[j])
            == 0 by {
            assert(id[j] == s@[j]);
            assert(is_digit(id[j]));
            assert(id.take(z as int)[j] == s@[j]);
        }
        lemma_digits_val_zeros(id.take(z as int));
        lemma_digits_val_concat(id.take(z as int), core);
        assert(digits_val(id) == digits_val(id.take(z as int)) * pow10(core.len())
            + digits_val(core));
        assert(digits_val(id.take(z as int)) * pow10(core.len()) == 0);
        assert(digits_val(id) == digits_val(core));
        assert forall|j: int| 0 <= j < core.len() implies is_digit(#[trigger] core[j]) by {
            assert(core[j] == id[j + z]);
        }
        assert(core =~= s@.subrange(z as int, dot as int));
    }
    let ghost den = pow10(fr.len());
    let ghost value = rate_value(s@);
    proof {
        lemma_rate_decompose(id, fr, factor as nat);
        assert(value == digits_val(id) * (factor as nat) + (digits_val(fr) * (factor as nat))
            / den);
        assert(value >= digits_val(id));
    }
    if dot - z > 20 {
        // The integer part alone exceeds what fits in 64 bits.
        proof {
            reveal_with_fuel(pow10, 21);
            assert(core[0] == s@[z as int]);
            assert(digit_val(core[0]) >= 1);
            lemma_digits_val_lower(core);
            lemma_pow10_increases(20, (core.len() - 1) as nat);
            assert(digits_val(core) >= pow10(20));
            assert(value > u64::MAX);
        }
        return None;
    }
    let int_val = parse_digits(s, z, dot);
    let frac_from: usize = if dot < numlen {
        dot + 1
    } else {
        numlen
    };
    proof {
        assert(fr =~= s@.subrange(frac_from as int, numlen as int));
    }
    let frac_val = parse_digits(s, frac_from, numlen);
    let den_e = pow10_u64(flen);
    proof {
        reveal_with_fuel(pow10, 21);
        lemma_pow10_increases((dot - z) as nat, 20);
        lemma_pow10_increases(flen as nat, 15);
        lemma_pow10_pos(flen as nat);
        assert(int_val <= pow10(20) - 1);
        assert(frac_val <= pow10(15));
        lemma_mul_upper_bound(int_val as int, (pow10(20) - 1) as int, factor as int, 1099511627776);
        lemma_mul_upper_bound(frac_val as int, pow10(15) as int, factor as int, 1099511627776);
    }
    let whole: u128 = int_val * (factor as u128);
    let fracnum: u128 = frac_val * (factor as u128);
    proof {
        lemma_div_nonincreasing(fracnum as int, den_e as int);
    }
    let fracpart: u128 = fracnum / (den_e as u128);
    let total: u128 = whole + fracpart;
    proof {
        assert(digits_val(id) == int_val);
        assert(digits_val(fr) == frac_val);
        assert(den == den_e);
        assert(total == value);
    }
    if total > u64::MAX as u128 {
        return None;
    }
    Some(total as u64)
}

} // verus!
