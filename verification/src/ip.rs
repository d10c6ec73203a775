//! Source-address validation: IPv4 dotted quads and IPv6 groups, with the
//! usual `::` compression and embedded-IPv4 tails.
//!
//! An invalid address is never fatal: the caller logs a warning and binds no
//! source address.

use vstd::prelude::*;
use crate::digits::{all_digits, digits_val, is_digit, is_digit_char, parse_digits};
use crate::pairs::is_hex_digit;
use crate::text::{first_index, lemma_first_index_bounds, split_chars, split_list, views_of};

verus! {

/// One decimal octet: one to three digits, no leading zero, value at most 255.
pub open spec fn octet_wf(p: Seq<char>) -> bool {
    &&& 1 <= p.len() <= 3
    &&& all_digits(p)
    &&& (p.len() > 1 ==> p[0] != '0')
    &&& digits_val(p) <= 255
}

/// A dotted quad: exactly four octets separated by dots.
pub open spec fn ipv4_wf(s: Seq<char>) -> bool {
    let ps = split_chars(s, '.');
    ps.len() == 4 && (forall|i: int| 0 <= i < 4 ==> octet_wf(#[trigger] ps[i]))
}

/// One IPv6 group: one to four hexadecimal digits.
pub open spec fn hex_group_wf(p: Seq<char>) -> bool {
    1 <= p.len() <= 4 && (forall|i: int| 0 <= i < p.len() ==> is_hex_digit(#[trigger] p[i]))
}

/// Pieces `[from, to)` are all nonempty.
pub open spec fn all_nonempty(ps: Seq<Seq<char>>, from: int, to: int) -> bool {
    forall|i: int| from <= i < to ==> (#[trigger] ps[i]).len() > 0
}

/// Pieces `[from, to)` are all hexadecimal groups.
pub open spec fn groups_wf(ps: Seq<Seq<char>>, from: int, to: int) -> bool {
    forall|i: int| from <= i < to ==> hex_group_wf(#[trigger] ps[i])
}

/// A tail of colon-separated pieces: hexadecimal groups, except that the last
/// piece may be an embedded IPv4 address.
pub open spec fn tail_wf(ps: Seq<Seq<char>>) -> bool {
    &&& groups_wf(ps, 0, ps.len() - 1)
    &&& ps.len() > 0 ==> (hex_group_wf(ps.last()) || ipv4_wf(ps.last()))
}

/// Number of 16-bit groups the tail stands for: an embedded IPv4 address
/// counts as two.
pub open spec fn tail_weight(ps: Seq<Seq<char>>) -> int {
    if ps.len() > 0 && ipv4_wf(ps.last()) {
        ps.len() + 1int
    } else {
        ps.len() as int
    }
}

/// Index of the first empty piece, or `ps.len()` when none is empty.
pub open spec fn first_empty(ps: Seq<Seq<char>>) -> int
    decreases ps.len(),
{
    if ps.len() == 0 {
        0
    } else if ps[0].len() == 0 {
        0
    } else {
        1 + first_empty(ps.skip(1))
    }
}

/// An IPv6 address over the pieces of the string between colons: eight groups,
/// or a single `::` compression standing for at least one zero group, with an
/// optional embedded IPv4 tail.
pub open spec fn ipv6_wf(s: Seq<char>) -> bool {
    let ps = split_chars(s, ':');
    let n = ps.len() as int;
    if all_nonempty(ps, 0, n) {
        ||| (n == 8 && groups_wf(ps, 0, 8))
        ||| (n == 7 && groups_wf(ps, 0, 6) && ipv4_wf(ps[6]))
    } else if n == 3 && ps[0].len() == 0 && ps[1].len() == 0 && ps[2].len() == 0 {
        true
    } else if ps[0].len() == 0 {
        &&& n >= 3
        &&& ps[1].len() == 0
        &&& all_nonempty(ps, 2, n)
        &&& tail_wf(ps.skip(2))
        &&& tail_weight(ps.skip(2)) <= 7
    } else if ps[n - 1].len() == 0 {
        &&& n >= 3
        &&& ps[n - 2].len() == 0
        &&& all_nonempty(ps, 0, n - 2)
        &&& groups_wf(ps, 0, n - 2)
        &&& n - 2 <= 7
    } else {
        let k = first_empty(ps);
        &&& 1 <= k <= n - 2
        &&& all_nonempty(ps, k + 1, n)
        &&& groups_wf(ps, 0, k)
        &&& tail_wf(ps.skip(k + 1))
        &&& k + tail_weight(ps.skip(k + 1)) <= 7
    }
}

/// Any valid source address: IPv4 or IPv6.
pub open spec fn ip_wf(s: Seq<char>) -> bool {
    ipv4_wf(s) || ipv6_wf(s)
}

pub proof fn lemma_first_empty_bounds(ps: Seq<Seq<char>>)
    ensures
        0 <= first_empty(ps) <= ps.len(),
        first_empty(ps) < ps.len() ==> ps[first_empty(ps)].len() == 0,
        all_nonempty(ps, 0, first_empty(ps)),
    decreases ps.len(),
{
    if ps.len() > 0 && ps[0].len() > 0 {
        let t = ps.skip(1);
        lemma_first_empty_bounds(t);
        if first_empty(ps) < ps.len() {
            assert(ps[first_empty(ps)] == t[first_empty(t)]);
        }
        assert forall|j: int| 0 <= j < first_empty(ps) implies (#[trigger] ps[j]).len() > 0 by {
            if j > 0 {
                assert(t[j - 1].len() > 0);
            }
        }
    }
}

pub proof fn lemma_first_empty_is(ps: Seq<Seq<char>>, i: int)
    requires
        0 <= i <= ps.len(),
        all_nonempty(ps, 0, i),
        i < ps.len() ==> ps[i].len() == 0,
    ensures
        first_empty(ps) == i,
    decreases ps.len(),
{
    if ps.len() == 0 {
    } else if ps[0].len() == 0 {
        assert(i == 0);
    } else {
        let t = ps.skip(1);
        assert forall|j: int| 0 <= j < i - 1 implies (#[trigger] t[j]).len() > 0 by {
            assert(t[j] == ps[j + 1]);
        }
        if i - 1 < t.len() {
            assert(t[i - 1] == ps[i]);
        }
        lemma_first_empty_is(t, i - 1);
    }
}

/// A hexadecimal group holds no dot, so it is never also an IPv4 address.
proof fn lemma_hex_group_not_ipv4(p: Seq<char>)
    requires
        hex_group_wf(p),
    ensures
        !ipv4_wf(p),
{
    if ipv4_wf(p) {
        lemma_first_index_bounds(p, '.');
        if first_index(p, '.') == p.len() {
            assert(split_chars(p, '.') == seq![p]);
            assert(false);
        } else {
            assert(is_hex_digit(p[first_index(p, '.')]));
            assert(false);
        }
    }
}

/// One piece is a valid decimal octet.
fn is_valid_octet(p: &str) -> (r: bool)
    ensures
        r == octet_wf(p@),
{
    let n = p.unicode_len();
    if n < 1 || n > 3 {
        return false;
    }
    let mut i: usize = 0;
    while i < n
        invariant
            i <= n,
            n == p@.len(),
            forall|j: int| 0 <= j < i ==> is_digit(#[trigger] p@[j]),
        decreases n - i,
    {
        if !is_digit_char(p.get_char(i)) {
            return false;
        }
        i += 1;
    }
    if n > 1 && p.get_char(0) == '0' {
        return false;
    }
    proof {
        assert(p@.subrange(0, n as int) =~= p@);
    }
    let v = parse_digits(p, 0, n);
    v <= 255
}

/// The string is a valid dotted-quad IPv4 address.
pub fn is_valid_ipv4(s: &str) -> (r: bool)
    ensures
        r == ipv4_wf(s@),
{
    let parts = split_list(s, '.');
    let ghost ps = split_chars(s@, '.');
    proof {
        assert(ps.len() == parts@.len());
    }
    if parts.len() != 4 {
        return false;
    }
    let mut i: usize = 0;
    while i < 4
        invariant
            i <= 4,
            parts@.len() == 4,
            views_of(parts@) == ps,
            ps == split_chars(s@, '.'),
            forall|j: int| 0 <= j < i ==> octet_wf(#[trigger] ps[j]),
        decreases 4 - i,
    {
        proof {
            assert(ps[i as int] == parts@[i as int]@);
        }
        if !is_valid_octet(parts[i].as_str()) {
            return false;
        }
        i += 1;
    }
    true
}

/// One piece is a valid hexadecimal group.
fn is_hex_group(p: &str) -> (r: bool)
    ensures
        r == hex_group_wf(p@),
{
    let n = p.unicode_len();
    if n < 1 || n > 4 {
        return false;
    }
    let mut i: usize = 0;
    while i < n
        invariant
            i <= n,
            n == p@.len(),
            forall|j: int| 0 <= j < i ==> is_hex_digit(#[trigger] p@[j]),
        decreases n - i,
    {
        let u = p.get_char(i) as u32;
        if !(48 <= u && u <= 57 || 65 <= u && u <= 70 || 97 <= u && u <= 102) {
            return false;
        }
        i += 1;
    }
    true
}

/// Pieces `[from, to)` of the list are all nonempty.
fn all_nonempty_range(parts: &Vec<String>, from: usize, to: usize) -> (r: bool)
    requires
        from <= to <= parts@.len(),
    ensures
        r == all_nonempty(views_of(parts@), from as int, to as int),
{
    let mut i: usize = from;
    while i < to
        invariant
            from <= i <= to <= parts@.len(),
            forall|j: int|
                from <= j < i ==> (#[trigger] views_of(parts@)[j]).len() > 0,
        decreases to - i,
    {
        proof {
            assert(views_of(parts@)[i as int] == parts@[i as int]@);
        }
        if parts[i].as_str().unicode_len() == 0 {
            return false;
        }
        i += 1;
    }
    true
}

/// Pieces `[from, to)` of the list are all hexadecimal groups.
fn groups_wf_range(parts: &Vec<String>, from: usize, to: usize) -> (r: bool)
    requires
        from <= to <= parts@.len(),
    ensures
        r == groups_wf(views_of(parts@), from as int, to as int),
{
    let mut i: usize = from;
    while i < to
        invariant
            from <= i <= to <= parts@.len(),
            forall|j: int| from <= j < i ==> hex_group_wf(#[trigger] views_of(parts@)[j]),
        decreases to - i,
    {
        proof {
            assert(views_of(parts@)[i as int] == parts@[i as int]@);
        }
        if !is_hex_group(parts[i].as_str()) {
            return false;
        }
        i += 1;
    }
    true
}

/// Index of the first empty piece of the list, or its length.
fn find_first_empty(parts: &Vec<String>) -> (r: usize)
    ensures
        r as int == first_empty(views_of(parts@)),
        r <= parts@.len(),
{
    let n = parts.len();
    let mut i: usize = 0;
    while i < n
        invariant
            i <= n,
            n == parts@.len(),
            all_nonempty(views_of(parts@), 0, i as int),
        decreases n - i,
    {
        proof {
            assert(views_of(parts@)[i as int] == parts@[i as int]@);
        }
        if parts[i].as_str().unicode_len() == 0 {
            proof {
                lemma_first_empty_is(views_of(parts@), i as int);
            }
            return i;
        }
        i += 1;
    }
    proof {
        lemma_first_empty_is(views_of(parts@), n as int);
    }
    n
}

/// Checks the pieces from `from` on as an IPv6 tail and gives the number of
/// 16-bit groups they stand for.
fn check_tail(parts: &Vec<String>, from: usize) -> (r: (bool, usize))
    requires
        1 <= from <= parts@.len(),
    ensures
        r.0 == tail_wf(views_of(parts@).skip(from as int)),
        r.0 ==> r.1 as int == tail_weight(views_of(parts@).skip(from as int)),
        r.1 <= parts@.len() + 1,
{
    let n = parts.len();
    let ghost tail = views_of(parts@).skip(from as int);
    if from == n {
        proof {
            assert(tail.len() == 0);
        }
        return (true, 0);
    }
    let ok = groups_wf_range(parts, from, n - 1);
    proof {
        assert forall|j: int| 0 <= j < tail.len() - 1 implies (#[trigger] tail[j])
            == views_of(parts@)[j + from] by {}
        assert(groups_wf(tail, 0, tail.len() - 1) == groups_wf(
            views_of(parts@),
            from as int,
            n - 1 as int,
        )) by {
            if groups_wf(views_of(parts@), from as int, n - 1 as int) {
                assert forall|j: int| 0 <= j < tail.len() - 1 implies hex_group_wf(
                    #[trigger] tail[j],
                ) by {
                    assert(tail[j] == views_of(parts@)[j + from]);
                }
            }
            if groups_wf(tail, 0, tail.len() - 1) {
                assert forall|j: int| from <= j < n - 1 implies hex_group_wf(
                    #[trigger] views_of(parts@)[j],
                ) by {
                    assert(tail[j - from] == views_of(parts@)[j]);
                }
            }
        }
        assert(tail.last() == views_of(parts@)[n - 1]);
        assert(views_of(parts@)[n - 1] == parts@[n - 1]@);
    }
    if !ok {
        return (false, 0);
    }
    let last = parts[n - 1].as_str();
    if is_hex_group(last) {
        proof {
            lemma_hex_group_not_ipv4(last@);
        }
        (true, n - from)
    } else if is_valid_ipv4(last) {
        (true, n - from + 1)
    } else {
        (false, 0)
    }
}

/// The string is a valid IPv6 address.
pub fn is_valid_ipv6(s: &str) -> (r: bool)
    ensures
        r == ipv6_wf(s@),
{
    let parts = split_list(s, ':');
    let ghost ps = split_chars(s@, ':');
    let n = parts.len();
    let fe = find_first_empty(&parts);
    proof {
        lemma_first_empty_bounds(ps);
        assert(views_of(parts@)[0] == parts@[0]@);
        if n > 1 {
            assert(views_of(parts@)[n - 1 as int] == parts@[n - 1 as int]@);
        }
    }
    if fe == n {
        // No empty piece: no "::" compression.
        if n == 8 {
            groups_wf_range(&parts, 0, 8)
        } else if n == 7 {
            proof {
                assert(views_of(parts@)[6] == parts@[6int]@);
            }
            groups_wf_range(&parts, 0, 6) && is_valid_ipv4(parts[6].as_str())
        } else {
            false
        }
    } else if n == 3 && parts[0].as_str().unicode_len() == 0 && parts[1].as_str().unicode_len()
        == 0 && parts[2].as_str().unicode_len() == 0 {
        proof {
            assert(views_of(parts@)[0] == parts@[0]@);
            assert(views_of(parts@)[1] == parts@[1int]@);
            assert(views_of(parts@)[2] == parts@[2int]@);
        }
        true
    } else if parts[0].as_str().unicode_len() == 0 {
        // Leading "::".
        if n < 3 {
            return false;
        }
        proof {
            assert(views_of(parts@)[1] == parts@[1int]@);
        }
        if parts[1].as_str().unicode_len() != 0 {
            return false;
        }
        if !all_nonempty_range(&parts, 2, n) {
            return false;
        }
        let (tok, tw) = check_tail(&parts, 2);
        tok && tw <= 7
    } else if parts[n - 1].as_str().unicode_len() == 0 {
        // Trailing "::".
        if n < 3 {
            return false;
        }
        proof {
            assert(views_of(parts@)[n - 2 as int] == parts@[n - 2 as int]@);
        }
        if parts[n - 2].as_str().unicode_len() != 0 {
            return false;
        }
        all_nonempty_range(&parts, 0, n - 2) && groups_wf_range(&parts, 0, n - 2) && n - 2 <= 7
    } else {
        // Internal "::".
        let k = fe;
        if !(1 <= k && k <= n - 2) {
            return false;
        }
        if !all_nonempty_range(&parts, k + 1, n) {
            return false;
        }
        if !groups_wf_range(&parts, 0, k) {
            return false;
        }
        let (tok, tw) = check_tail(&parts, k + 1);
        tok && k + tw <= 7
    }
}

/// The string is a valid source address: IPv4 or IPv6.
pub fn is_valid_ip(s: &str) -> (r: bool)
    ensures
        r == ip_wf(s@),
{
    if is_valid_ipv4(s) {
        true
    } else {
        is_valid_ipv6(s)
    }
}

} // verus!
