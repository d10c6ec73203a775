//! Colon-delimited option values: `NAME:VALUE` headers, `KID:KEY` decryption
//! keys, and `CONTAINER:ORDERING` muxer or concatenation preferences.
//!
//! Every parser splits at the first colon only, is total, and reports a
//! malformed value as the absence of a result: the caller logs a warning and
//! drops the single option, never the whole run.

use vstd::prelude::*;
use crate::text::{find_char, first_index, has_char, split_chars, split_list, views_of};

verus! {

/// The part of `s` before its first colon.
pub open spec fn pair_name(s: Seq<char>) -> Seq<char> {
    s.take(first_index(s, ':'))
}

/// The part of `s` after its first colon.
pub open spec fn pair_value(s: Seq<char>) -> Seq<char> {
    s.skip(first_index(s, ':') + 1)
}

/// `v` with one leading space removed, if it starts with one.
pub open spec fn trim_one_space(v: Seq<char>) -> Seq<char> {
    if v.len() > 0 && v[0] == ' ' {
        v.skip(1)
    } else {
        v
    }
}

/// Hexadecimal digit (either case).
pub open spec fn is_hex_digit(c: char) -> bool {
    (48 <= c as u32 && c as u32 <= 57) || (65 <= c as u32 && c as u32 <= 70) || (97 <= c as u32
        && c as u32 <= 102)
}

/// A usable content key: exactly 32 characters, all hexadecimal.
pub open spec fn valid_key_hex(k: Seq<char>) -> bool {
    k.len() == 32 && forall|i: int| 0 <= i < k.len() ==> is_hex_digit(#[trigger] k[i])
}

/// Splits `NAME:VALUE` at the first colon; the value is everything after it,
/// untouched. Input without a colon is rejected.
pub fn parse_header_pair(s: &str) -> (r: Option<(String, String)>)
    ensures
        match r {
            Some(p) => has_char(s@, ':') && p.0@ == pair_name(s@) && p.1@ == pair_value(s@),
            None => !has_char(s@, ':'),
        },
{
    match find_char(s, ':') {
        None => None,
        Some(i) => {
            let n = s.unicode_len();
            let name = s.substring_char(0, i).to_owned();
            let value = s.substring_char(i + 1, n).to_owned();
            proof {
                assert(name@ =~= pair_name(s@));
                assert(value@ =~= pair_value(s@));
            }
            Some((name, value))
        },
    }
}

/// Splits a cURL-style `NAME: VALUE` header at the first colon, removing at
/// most one space after the colon. Input without a colon is rejected.
pub fn parse_curl_header(s: &str) -> (r: Option<(String, String)>)
    ensures
        match r {
            Some(p) => has_char(s@, ':') && p.0@ == pair_name(s@) && p.1@ == trim_one_space(
                pair_value(s@),
            ),
            None => !has_char(s@, ':'),
        },
{
    match find_char(s, ':') {
        None => None,
        Some(i) => {
            let n = s.unicode_len();
            let name = s.substring_char(0, i).to_owned();
            let from: usize = if i + 1 < n && s.get_char(i + 1) == ' ' {
                i + 2
            } else {
                i + 1
            };
            let value = s.substring_char(from, n).to_owned();
            proof {
                assert(name@ =~= pair_name(s@));
                let v = pair_value(s@);
                if i + 1 < n && s@[i + 1 as int] == ' ' {
                    assert(v[0] == s@[i + 1 as int]);
                    assert(value@ =~= v.skip(1));
                } else {
                    if v.len() > 0 {
                        assert(v[0] == s@[i + 1 as int]);
                    }
                    assert(value@ =~= v);
                }
            }
            Some((name, value))
        },
    }
}

/// Splits `KID:KEY` at the first colon and accepts it only when the key is
/// exactly 32 hexadecimal characters.
pub fn parse_key_pair(s: &str) -> (r: Option<(String, String)>)
    ensures
        match r {
            Some(p) => has_char(s@, ':') && p.0@ == pair_name(s@) && p.1@ == pair_value(s@)
                && valid_key_hex(p.1@),
            None => !has_char(s@, ':') || !valid_key_hex(pair_value(s@)),
        },
{
    match parse_header_pair(s) {
        None => None,
        Some((kid, key)) => {
            let klen = key.as_str().unicode_len();
            if klen != 32 {
                return None;
            }
            let mut i: usize = 0;
            while i < 32
                invariant
                    i <= 32,
                    key@.len() == 32,
                    key@ == pair_value(s@),
                    forall|j: int| 0 <= j < i ==> is_hex_digit(#[trigger] key@[j]),
                decreases 32 - i,
            {
                let c = key.as_str().get_char(i);
                let u = c as u32;
                if !(48 <= u && u <= 57 || 65 <= u && u <= 70 || 97 <= u && u <= 102) {
                    return None;
                }
                i += 1;
            }
            Some((kid, key))
        },
    }
}

/// Splits `CONTAINER:ORDERING` at the first colon; the ordering is the
/// comma-separated priority list of helper applications for that container.
pub fn parse_container_preference(s: &str) -> (r: Option<(String, Vec<String>)>)
    ensures
        match r {
            Some(p) => has_char(s@, ':') && p.0@ == pair_name(s@) && views_of(p.1@) == split_chars(
                pair_value(s@),
                ',',
            ),
            None => !has_char(s@, ':'),
        },
{
    match find_char(s, ':') {
        None => None,
        Some(i) => {
            let n = s.unicode_len();
            let container = s.substring_char(0, i).to_owned();
            let ordering = split_list(s.substring_char(i + 1, n), ',');
            proof {
                assert(container@ =~= pair_name(s@));
                assert(s@.subrange(i + 1 as int, n as int) =~= pair_value(s@));
            }
            Some((container, ordering))
        },
    }
}

} // verus!
