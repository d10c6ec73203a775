//! Decimal digits and powers of ten, shared by the numeric option parsers.

use vstd::prelude::*;
use vstd::arithmetic::mul::{lemma_mul_is_associative, lemma_mul_is_commutative};

verus! {

/// Decimal digit as a character.
pub open spec fn is_digit(c: char) -> bool {
    48 <= c as u32 && c as u32 <= 57
}

/// Numeric value of a decimal digit character.
pub open spec fn digit_val(c: char) -> nat {
    ((c as u32) - 48) as nat
}

/// Every character of `s` is a decimal digit.
pub open spec fn all_digits(s: Seq<char>) -> bool {
    forall|i: int| 0 <= i < s.len() ==> is_digit(#[trigger] s[i])
}

/// Value of a digit string read in base 10 (empty reads as 0).
pub open spec fn digits_val(s: Seq<char>) -> nat
    decreases s.len(),
{
    if s.len() == 0 {
        0
    } else {
        digits_val(s.drop_last()) * 10 + digit_val(s.last())
    }
}

/// 10 to the power `n`.
pub open spec fn pow10(n: nat) -> nat
    decreases n,
{
    if n == 0 {
        1
    } else {
        10 * pow10((n - 1) as nat)
    }
}

pub proof fn lemma_pow10_pos(e: nat)
    ensures
        pow10(e) >= 1,
    decreases e,
{
    if e > 0 {
        lemma_pow10_pos((e - 1) as nat);
    }
}

pub proof fn lemma_pow10_increases(e1: nat, e2: nat)
    requires
        e1 <= e2,
    ensures
        pow10(e1) <= pow10(e2),
    decreases e2,
{
    lemma_pow10_pos(e1);
    if e1 < e2 {
        lemma_pow10_increases(e1, (e2 - 1) as nat);
        lemma_pow10_pos((e2 - 1) as nat);
    }
}

pub proof fn lemma_digits_val_concat(a: Seq<char>, b: Seq<char>)
    ensures
        digits_val(a + b) == digits_val(a) * pow10(b.len()) + digits_val(b),
    decreases b.len(),
{
    if b.len() == 0 {
        assert(a + b =~= a);
        assert(pow10(b.len()) == 1);
        assert(digits_val(b) == 0);
        assert(digits_val(a + b) == digits_val(a) * pow10(b.len()) + digits_val(b));
    } else {
        let bd = b.drop_last();
        assert((a + b).drop_last() =~= a + bd);
        lemma_digits_val_concat(a, bd);
        assert((a + b).last() == b.last());
        let x = digits_val(a) as int;
        let p = pow10(bd.len()) as int;
        let y = digits_val(bd) as int;
        let d = digit_val(b.last()) as int;
        assert(digits_val(a + b) == (x * p + y) * 10 + d);
        assert(pow10(b.len()) == 10 * pow10(bd.len()));
        assert(digits_val(b) == y * 10 + d);
        lemma_mul_is_associative(x, 10, p);
        lemma_mul_is_associative(10, x, p);
        assert((x * p + y) * 10 == (x * p) * 10 + y * 10);
        assert((x * p) * 10 == 10 * (x * p));
        assert((10 * x) * p == (x * 10) * p);
        assert(digits_val(a + b) == x * (10 * p) + (y * 10 + d));
        assert(digits_val(a + b) == digits_val(a) * pow10(b.len()) + digits_val(b));
    }
}

pub proof fn lemma_digits_val_lower(s: Seq<char>)
    requires
        all_digits(s),
        s.len() > 0,
        digit_val(s[0]) >= 1,
    ensures
        digits_val(s) >= pow10((s.len() - 1) as nat),
    decreases s.len(),
{
    if s.len() == 1 {
        assert(s.last() == s[0]);
        assert(s.drop_last().len() == 0);
    } else {
        let sd = s.drop_last();
        assert forall|i: int| 0 <= i < sd.len() implies is_digit(#[trigger] sd[i]) by {
            assert(sd[i] == s[i]);
        }
        assert(sd[0] == s[0]);
        lemma_digits_val_lower(sd);
        assert(digits_val(sd) * 10 >= pow10((sd.len() - 1) as nat) * 10) by (nonlinear_arith)
            requires
                digits_val(sd) >= pow10((sd.len() - 1) as nat),
        ;
        lemma_mul_is_commutative(pow10((sd.len() - 1) as nat) as int, 10);
        assert(pow10((s.len() - 1) as nat) == 10 * pow10((s.len() - 2) as nat));
    }
}

pub proof fn lemma_digits_val_zeros(s: Seq<char>)
    requires
        forall|i: int| 0 <= i < s.len() ==> digit_val(#[trigger] s[i]) == 0,
    ensures
        digits_val(s) == 0,
    decreases s.len(),
{
    if s.len() > 0 {
        let sd = s.drop_last();
        assert forall|i: int| 0 <= i < sd.len() implies digit_val(#[trigger] sd[i]) == 0 by {
            assert(sd[i] == s[i]);
        }
        lemma_digits_val_zeros(sd);
        assert(digit_val(s.last()) == 0);
    }
}

/// Decimal digit test on a character.
pub fn is_digit_char(c: char) -> (b: bool)
    ensures
        b == is_digit(c),
{
    let u = c as u32;
    48 <= u && u <= 57
}

/// Reads the digits of `s` in positions `[from, to)` as a base-10 number.
pub fn parse_digits(s: &str, from: usize, to: usize) -> (v: u128)
    requires
        from <= to <= s@.len(),
        to - from <= 20,
        all_digits(s@.subrange(from as int, to as int)),
    ensures
        v == digits_val(s@.subrange(from as int, to as int)),
        v < pow10((to - from) as nat),
{
    proof {
        reveal_with_fuel(pow10, 21);
    }
    let mut acc: u128 = 0;
    let mut i: usize = from;
    while i < to
        invariant
            from <= i <= to <= s@.len(),
            to - from <= 20,
            all_digits(s@.subrange(from as int, to as int)),
            acc == digits_val(s@.subrange(from as int, i as int)),
            acc < pow10((i - from) as nat),
            pow10(20) == 100000000000000000000,
        decreases to - i,
    {
        let c = s.get_char(i);
        proof {
            assert(s@.subrange(from as int, to as int)[i - from] == c);
            assert(is_digit(c));
            let pre = s@.subrange(from as int, i as int);
            let post = s@.subrange(from as int, i + 1 as int);
            assert(post.drop_last() =~= pre);
            assert(post.last() == c);
            lemma_pow10_increases((i - from) as nat, 19);
            assert(acc * 10 + digit_val(c) < pow10((i + 1 - from) as nat)) by (nonlinear_arith)
                requires
                    acc < pow10((i - from) as nat),
                    digit_val(c) <= 9,
                    pow10((i + 1 - from) as nat) == 10 * pow10((i - from) as nat),
            ;
            lemma_pow10_increases((i + 1 - from) as nat, 20);
        }
        let d = (c as u32) - 48;
        acc = acc * 10 + (d as u128);
        i += 1;
    }
    proof {
        lemma_pow10_increases((to - from) as nat, 20);
    }
    acc
}

/// 10 to the power `e`, for small `e`.
pub fn pow10_u64(e: usize) -> (p: u64)
    requires
        e <= 15,
    ensures
        p == pow10(e as nat),
{
    proof {
        reveal_with_fuel(pow10, 16);
    }
    let mut p: u64 = 1;
    let mut i: usize = 0;
    while i < e
        invariant
            i <= e <= 15,
            p == pow10(i as nat),
            pow10(15) == 1000000000000000,
        decreases e - i,
    {
        proof {
            lemma_pow10_increases((i + 1) as nat, 15);
        }
        p = p * 10;
        i += 1;
    }
    p
}


} // verus!

verus! {

/// Digit string of `v` in base 10: nonempty, all digits, no leading zero.
/// These three facts pin the string: only one such spelling of `v` exists.
pub fn u32_to_decimal(v: u32) -> (r: String)
    ensures
        all_digits(r@),
        digits_val(r@) == v,
        r@.len() >= 1,
        r@.len() > 1 ==> r@[0] != '0',
    decreases v,
{
    if v < 10 {
        let s = digit_str(v);
        proof {
            assert(s@.len() == 1);
            assert(s@.drop_last() =~= Seq::<char>::empty());
            assert(s@.last() == s@[0]);
            assert(digits_val(s@.drop_last()) == 0);
            assert(digits_val(s@) == digits_val(s@.drop_last()) * 10 + digit_val(s@.last()));
        }
        s.to_owned()
    } else {
        let mut r = u32_to_decimal(v / 10);
        let ghost pre = r@;
        let d = digit_str(v % 10);
        r.append(d);
        proof {
            assert(r@.drop_last() =~= pre);
            assert(r@.last() == d@[0]);
            assert(digits_val(r@) == digits_val(pre) * 10 + digit_val(d@[0]));
            assert(r@[0] == pre[0]);
            assert(digit_val(pre[0]) >= 1 ==> pre[0] != '0');
            assert(digits_val(pre) >= 1 ==> (pre.len() > 1 || digit_val(pre[0]) >= 1)) by {
                if pre.len() == 1 {
                    assert(pre.drop_last() =~= Seq::<char>::empty());
                    assert(digits_val(pre.drop_last()) == 0);
                    assert(pre.last() == pre[0]);
                    assert(digits_val(pre) == digits_val(pre.drop_last()) * 10 + digit_val(
                        pre.last(),
                    ));
                }
            }
            assert forall|j: int| 0 <= j < r@.len() implies is_digit(#[trigger] r@[j]) by {
                if j < r@.len() - 1 {
                    assert(r@[j] == pre[j]);
                }
            }
        }
        r
    }
}

/// The spelling of one digit.
fn digit_str(d: u32) -> (r: &'static str)
    requires
        d < 10,
    ensures
        r@.len() == 1,
        is_digit(r@[0]),
        digit_val(r@[0]) == d,
{
    let s: &'static str = if d == 0 {
        "0"
    } else if d == 1 {
        "1"
    } else if d == 2 {
        "2"
    } else if d == 3 {
        "3"
    } else if d == 4 {
        "4"
    } else if d == 5 {
        "5"
    } else if d == 6 {
        "6"
    } else if d == 7 {
        "7"
    } else if d == 8 {
        "8"
    } else {
        "9"
    };
    proof {
        reveal_strlit("0");
        reveal_strlit("1");
        reveal_strlit("2");
        reveal_strlit("3");
        reveal_strlit("4");
        reveal_strlit("5");
        reveal_strlit("6");
        reveal_strlit("7");
        reveal_strlit("8");
        reveal_strlit("9");
    }
    s
}

} // verus!

verus! {

/// Whether `s` spells an unsigned 64-bit decimal number.
pub open spec fn dec_u64_ok(s: Seq<char>) -> bool {
    s.len() > 0 && all_digits(s) && digits_val(s) <= u64::MAX
}

/// Parses a decimal string into a `u64`: digits only, value in range.
/// Total: anything else gives no value.
pub fn parse_decimal_u64(s: &str) -> (r: Option<u64>)
    ensures
        match r {
            Some(v) => dec_u64_ok(s@) && v == digits_val(s@),
            None => !dec_u64_ok(s@),
        },
{
    let n = s.unicode_len();
    if n == 0 {
        return None;
    }
    let mut i: usize = 0;
    while i < n
        invariant
            i <= n,
            n == s@.len(),
            forall|j: int| 0 <= j < i ==> is_digit(#[trigger] s@[j]),
        decreases n - i,
    {
        if !is_digit_char(s.get_char(i)) {
            return None;
        }
        i += 1;
    }
    // Skip leading zeros so the digit count bounds the magnitude.
    let mut z: usize = 0;
    while z < n && s.get_char(z) as u32 == 48
        invariant
            z <= n,
            n == s@.len(),
            forall|j: int| 0 <= j < z ==> digit_val(#[trigger] s@[j]) == 0,
        decreases n - z,
    {
        z += 1;
    }
    let ghost whole = s@;
    let ghost core = whole.skip(z as int);
    proof {
        assert(whole =~= whole.take(z as int) + core);
        assert forall|j: int| 0 <= j < z implies digit_val(#[trigger] whole.take(z as int)[j])
            == 0 by {
            assert(whole.take(z as int)[j] == whole[j]);
        }
        lemma_digits_val_zeros(whole.take(z as int));
        lemma_digits_val_concat(whole.take(z as int), core);
        assert(digits_val(whole) == digits_val(core));
        assert forall|j: int| 0 <= j < core.len() implies is_digit(#[trigger] core[j]) by {
            assert(core[j] == whole[j + z]);
        }
        assert(core =~= s@.subrange(z as int, n as int));
    }
    if n - z > 20 {
        proof {
            reveal_with_fuel(pow10, 21);
            assert(digit_val(core[0]) >= 1);
            lemma_digits_val_lower(core);
            lemma_pow10_increases(20, (core.len() - 1) as nat);
        }
        return None;
    }
    let v = parse_digits(s, z, n);
    proof {
        reveal_with_fuel(pow10, 21);
        lemma_pow10_increases((n - z) as nat, 20);
    }
    if v > u64::MAX as u128 {
        return None;
    }
    Some(v as u64)
}

} // verus!
