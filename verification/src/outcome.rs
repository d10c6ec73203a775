//! Process outcome: the mapping from run results to exit codes, and the
//! inspection of engine error text for a recoverable live-stream hint.

use vstd::prelude::*;

verus! {

/// `p` occurs in `t` starting at position `i`.
pub open spec fn matches_at(t: Seq<char>, p: Seq<char>, i: int) -> bool {
    0 <= i && i + p.len() <= t.len() && t.subrange(i, i + p.len()) == p
}

/// `p` occurs somewhere in `t`.
pub open spec fn contains_seq(t: Seq<char>, p: Seq<char>) -> bool {
    exists|i: int| matches_at(t, p, i)
}

/// Whether `p` occurs in `t` at position `i`.
fn match_at(t: &str, p: &str, i: usize) -> (r: bool)
    requires
        i + p@.len() <= t@.len(),
        t@.len() <= usize::MAX,
    ensures
        r == matches_at(t@, p@, i as int),
{
    let pn = p.unicode_len();
    let mut j: usize = 0;
    while j < pn
        invariant
            i + pn <= t@.len(),
            t@.len() <= usize::MAX,
            pn == p@.len(),
            j <= pn,
            forall|m: int| 0 <= m < j ==> t@[i + m] == p@[m],
        decreases pn - j,
    {
        if t.get_char(i + j) != p.get_char(j) {
            proof {
                assert(t@.subrange(i as int, i + pn)[j as int] != p@[j as int]);
            }
            return false;
        }
        j += 1;
    }
    proof {
        assert(t@.subrange(i as int, i + pn) =~= p@);
    }
    true
}

/// Whether `p` occurs in `t`.
pub fn contains_str(t: &str, p: &str) -> (r: bool)
    ensures
        r == contains_seq(t@, p@),
{
    let tn = t.unicode_len();
    let pn = p.unicode_len();
    if pn > tn {
        proof {
            assert forall|i: int| !matches_at(t@, p@, i) by {}
        }
        return false;
    }
    if pn == 0 {
        proof {
            assert(t@.subrange(0, 0) =~= p@);
            assert(matches_at(t@, p@, 0));
        }
        return true;
    }
    let mut i: usize = 0;
    while i <= tn - pn
        invariant
            pn <= tn,
            tn == t@.len(),
            pn == p@.len(),
            1 <= pn <= tn,
            i <= tn - pn + 1,
            forall|k: int| 0 <= k < i ==> !matches_at(t@, p@, k),
        decreases tn + 1 - i,
    {
        if match_at(t, p, i) {
            return true;
        }
        i += 1;
    }
    proof {
        assert forall|k: int| !matches_at(t@, p@, k) by {
            if 0 <= k <= tn - pn {
                assert(!matches_at(t@, p@, k));
            }
        }
    }
    false
}

/// A condition that ends the run with a dedicated exit code.
#[derive(Clone, Copy, PartialEq, Eq, Structural, Debug)]
pub enum Fatal {
    /// The engine reported a download failure.
    DownloadFailed,
    /// A requested root certificate file could not be read.
    RootCertificateRead,
    /// A requested root certificate file is not valid PEM/X.509.
    RootCertificateDecode,
    /// The client identity file could not be read.
    ClientIdentityRead,
    /// The client identity file is not a valid PEM key and chain.
    ClientIdentityDecode,
    /// The base-URL override does not parse as an absolute URL.
    InvalidBaseUrl,
}

/// Exit code owed to each fatal condition.
pub open spec fn spec_exit_code(f: Fatal) -> int {
    match f {
        Fatal::DownloadFailed => 2,
        Fatal::RootCertificateRead => 5,
        Fatal::RootCertificateDecode => 6,
        Fatal::ClientIdentityRead => 7,
        Fatal::ClientIdentityDecode => 8,
        Fatal::InvalidBaseUrl => 9,
    }
}

/// Exit code of a fatal condition.
pub fn exit_code(f: Fatal) -> (r: u8)
    ensures
        r as int == spec_exit_code(f),
{
    match f {
        Fatal::DownloadFailed => 2,
        Fatal::RootCertificateRead => 5,
        Fatal::RootCertificateDecode => 6,
        Fatal::ClientIdentityRead => 7,
        Fatal::ClientIdentityDecode => 8,
        Fatal::InvalidBaseUrl => 9,
    }
}

/// How one whole run ends.
pub enum ProcessOutcome {
    /// The engine produced its output.
    Success,
    /// The run only listed cookie sources and then stopped.
    CookieSourcesListed,
    /// A fatal condition.
    Failed(Fatal),
}

/// Exit code of a whole run: 0 on success, 3 after the cookie-source listing,
/// and the fatal condition's own code otherwise.
pub fn process_exit_code(o: &ProcessOutcome) -> (r: u8)
    ensures
        r as int == match o {
            ProcessOutcome::Success => 0,
            ProcessOutcome::CookieSourcesListed => 3,
            ProcessOutcome::Failed(f) => spec_exit_code(*f),
        },
{
    match o {
        ProcessOutcome::Success => 0,
        ProcessOutcome::CookieSourcesListed => 3,
        ProcessOutcome::Failed(f) => exit_code(*f),
    }
}

/// The engine's wording for a live manifest it will not download.
pub open spec fn live_stream_marker() -> Seq<char> {
    "how to download dynamic MPD"@
}

/// Whether the engine's error text carries the live-stream hint; the reporter
/// then appends a one-line suggestion, and never retries anything itself.
pub fn error_suggests_live_stream(msg: &str) -> (r: bool)
    ensures
        r == contains_seq(msg@, live_stream_marker()),
{
    contains_str(msg, "how to download dynamic MPD")
}

} // verus!
