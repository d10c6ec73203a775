//! Character-level helpers shared by the option parsers: first-occurrence
//! search, substring containment, and delimiter splitting.

use vstd::prelude::*;

verus! {

/// True when no character of `s` in positions `[0, end)` equals `c`.
pub open spec fn no_char_before(s: Seq<char>, c: char, end: int) -> bool {
    forall|j: int| 0 <= j < end ==> s[j] != c
}

/// `s` holds at least one occurrence of `c`.
pub open spec fn has_char(s: Seq<char>, c: char) -> bool {
    exists|i: int| 0 <= i < s.len() && s[i] == c
}

/// Index of the first occurrence of `c` in `s`, or `s.len()` when absent.
pub open spec fn first_index(s: Seq<char>, c: char) -> int
    decreases s.len(),
{
    if s.len() == 0 {
        0
    } else if s[0] == c {
        0
    } else {
        1 + first_index(s.skip(1), c)
    }
}

pub proof fn lemma_first_index_bounds(s: Seq<char>, c: char)
    ensures
        0 <= first_index(s, c) <= s.len(),
        first_index(s, c) < s.len() ==> s[first_index(s, c)] == c,
        no_char_before(s, c, first_index(s, c)),
        (first_index(s, c) < s.len()) == has_char(s, c),
    decreases s.len(),
{
    if s.len() > 0 && s[0] != c {
        let t = s.skip(1);
        lemma_first_index_bounds(t, c);
        if first_index(s, c) < s.len() {
            assert(s[first_index(s, c)] == t[first_index(t, c)]);
        }
        assert forall|j: int| 0 <= j < first_index(s, c) implies s[j] != c by {
            if j > 0 {
                assert(t[j - 1] != c);
            }
        }
        if has_char(s, c) {
            let w = choose|i: int| 0 <= i < s.len() && s[i] == c;
            assert(w > 0);
            assert(t[w - 1] == c);
            assert(has_char(t, c));
        }
        if has_char(t, c) {
            let w = choose|i: int| 0 <= i < t.len() && t[i] == c;
            assert(s[w + 1] == c);
        }
    }
}

pub proof fn lemma_first_index_is(s: Seq<char>, c: char, i: int)
    requires
        0 <= i <= s.len(),
        no_char_before(s, c, i),
        i < s.len() ==> s[i] == c,
    ensures
        first_index(s, c) == i,
    decreases s.len(),
{
    if s.len() == 0 {
    } else if s[0] == c {
        assert(i == 0);
    } else {
        let t = s.skip(1);
        assert forall|j: int| 0 <= j < i - 1 implies t[j] != c by {
            assert(t[j] == s[j + 1]);
        }
        if i - 1 < t.len() {
            assert(t[i - 1] == s[i]);
        }
        lemma_first_index_is(t, c, i - 1);
    }
}

/// Position of the first occurrence of `c` in `s`, if any; earlier
/// positions hold no occurrence.
pub fn find_char(s: &str, c: char) -> (r: Option<usize>)
    ensures
        match r {
            Some(i) => i < s@.len() && s@[i as int] == c && no_char_before(s@, c, i as int),
            None => no_char_before(s@, c, s@.len() as int),
        },
        r is Some == has_char(s@, c),
        r is Some ==> first_index(s@, c) == r->Some_0,
        r is None ==> first_index(s@, c) == s@.len(),
{
    let n = s.unicode_len();
    let mut i: usize = 0;
    while i < n
        invariant
            i <= n,
            n == s@.len(),
            no_char_before(s@, c, i as int),
        decreases n - i,
    {
        if s.get_char(i) == c {
            proof {
                lemma_first_index_is(s@, c, i as int);
            }
            return Some(i);
        }
        i += 1;
    }
    proof {
        lemma_first_index_is(s@, c, n as int);
    }
    None
}

/// Pieces of `s` between occurrences of the separator `c`, in order.
/// A string without the separator is one piece; every separator ends a piece,
/// so a trailing separator yields a final empty piece.
pub open spec fn split_chars(s: Seq<char>, c: char) -> Seq<Seq<char>>
    decreases s.len(),
    via split_chars_decreases
{
    let i = first_index(s, c);
    if i == s.len() {
        seq![s]
    } else {
        seq![s.take(i)] + split_chars(s.skip(i + 1), c)
    }
}

#[via_fn]
proof fn split_chars_decreases(s: Seq<char>, c: char) {
    lemma_first_index_bounds(s, c);
}

/// Views of the strings in `v`.
pub open spec fn views_of(v: Seq<String>) -> Seq<Seq<char>> {
    v.map_values(|t: String| t@)
}

/// Splits `s` on the separator `c` into owned pieces.
pub fn split_list(s: &str, c: char) -> (r: Vec<String>)
    ensures
        views_of(r@) == split_chars(s@, c),
        r@.len() >= 1,
    decreases s@.len(),
{
    proof {
        lemma_first_index_bounds(s@, c);
    }
    match find_char(s, c) {
        None => {
            let mut out: Vec<String> = Vec::new();
            out.push(s.to_owned());
            proof {
                assert(views_of(out@) =~= seq![s@]);
            }
            out
        },
        Some(i) => {
            let n = s.unicode_len();
            let head = s.substring_char(0, i).to_owned();
            let tail = s.substring_char(i + 1, n);
            proof {
                assert(tail@ =~= s@.skip(i + 1));
                assert(head@ =~= s@.take(i as int));
            }
            let mut rest = split_list(tail, c);
            let ghost rest0 = rest@;
            let mut out: Vec<String> = Vec::new();
            out.push(head);
            out.append(&mut rest);
            proof {
                assert(out@ =~= seq![head] + rest0);
                assert(views_of(out@) =~= seq![s@.take(i as int)] + views_of(rest0));
                assert(views_of(out@) =~= split_chars(s@, c));
            }
            out
        },
    }
}

/// String-slice equality by view, character by character.
pub fn compare_str(a: &str, b: &str) -> (r: bool)
    ensures
        r == (a@ == b@),
{
    let na = a.unicode_len();
    let nb = b.unicode_len();
    if na != nb {
        proof {
            assert(a@ != b@);
        }
        return false;
    }
    let mut i: usize = 0;
    while i < na
        invariant
            i <= na,
            na == a@.len(),
            na == b@.len(),
            forall|j: int| 0 <= j < i ==> a@[j] == b@[j],
        decreases na - i,
    {
        if a.get_char(i) != b.get_char(i) {
            proof {
                assert(a@[i as int] != b@[i as int]);
            }
            return false;
        }
        i += 1;
    }
    proof {
        assert(a@ =~= b@);
    }
    true
}

} // verus!
