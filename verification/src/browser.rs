//! Browser identities for cookie acquisition: the known browser families,
//! case-insensitive resolution of a user-supplied name, and the record shown
//! by the cookie-source listing.
//!
//! Extraction itself is the platform's business; resolving what was asked
//! for, and how each browser's storage is approached, is decided here.

use vstd::prelude::*;

verus! {

/// A browser whose cookie storage is known.
#[derive(Clone, Copy, PartialEq, Eq, Structural, Debug)]
pub enum BrowserKind {
    Chromium,
    Chrome,
    Edge,
    Brave,
    Opera,
    Firefox,
    Safari,
}

/// How a browser's cookie storage is approached.
#[derive(Clone, Copy, PartialEq, Eq, Structural, Debug)]
pub enum BrowserFamily {
    /// Chromium-derived storage.
    ChromiumBased,
    /// Firefox-derived storage.
    FirefoxBased,
    /// Storage specific to one operating system.
    PlatformSpecific,
}

/// The family of each known browser.
pub open spec fn spec_family(k: BrowserKind) -> BrowserFamily {
    match k {
        BrowserKind::Chromium => BrowserFamily::ChromiumBased,
        BrowserKind::Chrome => BrowserFamily::ChromiumBased,
        BrowserKind::Edge => BrowserFamily::ChromiumBased,
        BrowserKind::Brave => BrowserFamily::ChromiumBased,
        BrowserKind::Opera => BrowserFamily::ChromiumBased,
        BrowserKind::Firefox => BrowserFamily::FirefoxBased,
        BrowserKind::Safari => BrowserFamily::PlatformSpecific,
    }
}

/// The lower-case name each known browser answers to.
pub open spec fn spec_name(k: BrowserKind) -> Seq<char> {
    match k {
        BrowserKind::Chromium => "chromium"@,
        BrowserKind::Chrome => "chrome"@,
        BrowserKind::Edge => "edge"@,
        BrowserKind::Brave => "brave"@,
        BrowserKind::Opera => "opera"@,
        BrowserKind::Firefox => "firefox"@,
        BrowserKind::Safari => "safari"@,
    }
}

/// `a` is `b` up to ASCII case, where `b` is already lower case.
pub open spec fn char_eq_lower(a: char, b: char) -> bool {
    a == b || (65 <= a as u32 && a as u32 <= 90 && a as u32 + 32 == b as u32)
}

/// `s` equals the lower-case word `w` up to ASCII case.
pub open spec fn name_matches(s: Seq<char>, w: Seq<char>) -> bool {
    s.len() == w.len() && forall|i: int| 0 <= i < s.len() ==> char_eq_lower(#[trigger] s[i], w[i])
}

/// Whether `s` equals the lower-case word `w` up to ASCII case.
fn matches_word(s: &str, w: &str) -> (r: bool)
    ensures
        r == name_matches(s@, w@),
{
    let n = s.unicode_len();
    if n != w.unicode_len() {
        return false;
    }
    let mut i: usize = 0;
    while i < n
        invariant
            i <= n,
            n == s@.len(),
            n == w@.len(),
            forall|j: int| 0 <= j < i ==> char_eq_lower(#[trigger] s@[j], w@[j]),
        decreases n - i,
    {
        let a = s.get_char(i);
        let b = w.get_char(i);
        let au = a as u32;
        if !(a == b || (65 <= au && au <= 90 && au + 32 == b as u32)) {
            return false;
        }
        i += 1;
    }
    true
}

impl BrowserKind {
    /// The family this browser belongs to.
    pub fn family(&self) -> (r: BrowserFamily)
        ensures
            r == spec_family(*self),
    {
        match self {
            BrowserKind::Chromium => BrowserFamily::ChromiumBased,
            BrowserKind::Chrome => BrowserFamily::ChromiumBased,
            BrowserKind::Edge => BrowserFamily::ChromiumBased,
            BrowserKind::Brave => BrowserFamily::ChromiumBased,
            BrowserKind::Opera => BrowserFamily::ChromiumBased,
            BrowserKind::Firefox => BrowserFamily::FirefoxBased,
            BrowserKind::Safari => BrowserFamily::PlatformSpecific,
        }
    }

    /// The browser's display name.
    pub fn label(&self) -> (r: String)
        ensures
            match self {
                BrowserKind::Chromium => r@ == "Chromium"@,
                BrowserKind::Chrome => r@ == "Chrome"@,
                BrowserKind::Edge => r@ == "Edge"@,
                BrowserKind::Brave => r@ == "Brave"@,
                BrowserKind::Opera => r@ == "Opera"@,
                BrowserKind::Firefox => r@ == "Firefox"@,
                BrowserKind::Safari => r@ == "Safari"@,
            },
    {
        match self {
            BrowserKind::Chromium => "Chromium".to_owned(),
            BrowserKind::Chrome => "Chrome".to_owned(),
            BrowserKind::Edge => "Edge".to_owned(),
            BrowserKind::Brave => "Brave".to_owned(),
            BrowserKind::Opera => "Opera".to_owned(),
            BrowserKind::Firefox => "Firefox".to_owned(),
            BrowserKind::Safari => "Safari".to_owned(),
        }
    }
}

/// Resolves a user-supplied browser name, ignoring ASCII case. An unknown
/// name gives no browser: the caller reports it together with the browsers
/// that are available, and never crashes the run for it.
pub fn browser_from_name(name: &str) -> (r: Option<BrowserKind>)
    ensures
        match r {
            Some(k) => name_matches(name@, spec_name(k)),
            None => {
                &&& !name_matches(name@, spec_name(BrowserKind::Chromium))
                &&& !name_matches(name@, spec_name(BrowserKind::Chrome))
                &&& !name_matches(name@, spec_name(BrowserKind::Edge))
                &&& !name_matches(name@, spec_name(BrowserKind::Brave))
                &&& !name_matches(name@, spec_name(BrowserKind::Opera))
                &&& !name_matches(name@, spec_name(BrowserKind::Firefox))
                &&& !name_matches(name@, spec_name(BrowserKind::Safari))
            },
        },
{
    if matches_word(name, "chromium") {
        Some(BrowserKind::Chromium)
    } else if matches_word(name, "chrome") {
        Some(BrowserKind::Chrome)
    } else if matches_word(name, "edge") {
        Some(BrowserKind::Edge)
    } else if matches_word(name, "brave") {
        Some(BrowserKind::Brave)
    } else if matches_word(name, "opera") {
        Some(BrowserKind::Opera)
    } else if matches_word(name, "firefox") {
        Some(BrowserKind::Firefox)
    } else if matches_word(name, "safari") {
        Some(BrowserKind::Safari)
    } else {
        None
    }
}

/// The browsers to probe for the cookie-source listing, every known one once.
pub fn all_browser_kinds() -> (r: Vec<BrowserKind>)
    ensures
        r@ =~= seq![
            BrowserKind::Chromium,
            BrowserKind::Chrome,
            BrowserKind::Edge,
            BrowserKind::Brave,
            BrowserKind::Opera,
            BrowserKind::Firefox,
            BrowserKind::Safari,
        ],
{
    let mut v: Vec<BrowserKind> = Vec::new();
    v.push(BrowserKind::Chromium);
    v.push(BrowserKind::Chrome);
    v.push(BrowserKind::Edge);
    v.push(BrowserKind::Brave);
    v.push(BrowserKind::Opera);
    v.push(BrowserKind::Firefox);
    v.push(BrowserKind::Safari);
    v
}

/// One locally detected cookie source: a browser and how many cookies its
/// storage yielded. Produced only for the diagnostic listing; never part of
/// a job.
#[derive(Clone, Copy, PartialEq, Eq, Structural, Debug)]
pub struct BrowserSource {
    pub kind: BrowserKind,
    pub cookie_count: u64,
}

/// The listing owed for one probing pass: one record per browser whose
/// storage yielded a count, in probing order; the rest are left out.
pub open spec fn spec_sources(ks: Seq<BrowserKind>, cs: Seq<Option<u64>>) -> Seq<BrowserSource>
    decreases ks.len(),
{
    if ks.len() == 0 {
        Seq::empty()
    } else {
        let pre = spec_sources(ks.drop_last(), cs.drop_last());
        match cs.last() {
            Some(n) => pre.push(BrowserSource { kind: ks.last(), cookie_count: n }),
            None => pre,
        }
    }
}

/// Collects the cookie-source records from one probing pass: each browser
/// paired with the cookie count its storage yielded, browsers that yielded
/// none silently skipped. Absence of a browser is an expected condition,
/// never an error.
pub fn collect_cookie_sources(kinds: &Vec<BrowserKind>, counts: &Vec<Option<u64>>) -> (r: Vec<
    BrowserSource,
>)
    requires
        kinds@.len() == counts@.len(),
    ensures
        r@ == spec_sources(kinds@, counts@),
{
    let n = kinds.len();
    let mut out: Vec<BrowserSource> = Vec::new();
    let mut i: usize = 0;
    while i < n
        invariant
            i <= n,
            n == kinds@.len(),
            n == counts@.len(),
            out@ == spec_sources(kinds@.subrange(0, i as int), counts@.subrange(0, i as int)),
        decreases n - i,
    {
        let ghost kpre = kinds@.subrange(0, i as int);
        let ghost kpost = kinds@.subrange(0, i + 1 as int);
        let ghost cpre = counts@.subrange(0, i as int);
        let ghost cpost = counts@.subrange(0, i + 1 as int);
        proof {
            assert(kpost.drop_last() =~= kpre);
            assert(cpost.drop_last() =~= cpre);
            assert(kpost.last() == kinds@[i as int]);
            assert(cpost.last() == counts@[i as int]);
        }
        match counts[i] {
            Some(c) => {
                out.push(BrowserSource { kind: kinds[i], cookie_count: c });
            },
            None => (),
        }
        i += 1;
    }
    proof {
        assert(kinds@.subrange(0, n as int) =~= kinds@);
        assert(counts@.subrange(0, n as int) =~= counts@);
    }
    out
}

/// Why cookies could not be had from a requested browser.
#[derive(Clone, Copy, PartialEq, Eq, Structural, Debug)]
pub enum CookieError {
    /// The name matches no known browser.
    UnknownBrowser,
    /// The browser is known but its cookies could not be read.
    ExtractionFailed,
}

/// Resolves the browser a cookie request names: an unrecognized name is the
/// distinct failure the caller reports together with the available browsers.
pub fn resolve_cookie_source(name: &str) -> (r: Result<BrowserKind, CookieError>)
    ensures
        match r {
            Ok(k) => name_matches(name@, spec_name(k)),
            Err(e) => {
                &&& e == CookieError::UnknownBrowser
                &&& !name_matches(name@, spec_name(BrowserKind::Chromium))
                &&& !name_matches(name@, spec_name(BrowserKind::Chrome))
                &&& !name_matches(name@, spec_name(BrowserKind::Edge))
                &&& !name_matches(name@, spec_name(BrowserKind::Brave))
                &&& !name_matches(name@, spec_name(BrowserKind::Opera))
                &&& !name_matches(name@, spec_name(BrowserKind::Firefox))
                &&& !name_matches(name@, spec_name(BrowserKind::Safari))
            },
        },
{
    match browser_from_name(name) {
        Some(k) => Ok(k),
        None => Err(CookieError::UnknownBrowser),
    }
}

/// Settles one extraction attempt on a known browser: a cookie count makes a
/// source record, its absence is the extraction failure, never a crash.
pub fn extraction_outcome(kind: BrowserKind, cookies_found: Option<u64>) -> (r: Result<
    BrowserSource,
    CookieError,
>)
    ensures
        match r {
            Ok(src) => cookies_found == Some(src.cookie_count) && src.kind == kind,
            Err(e) => e == CookieError::ExtractionFailed && cookies_found is None,
        },
{
    match cookies_found {
        Some(n) => Ok(BrowserSource { kind, cookie_count: n }),
        None => Err(CookieError::ExtractionFailed),
    }
}

} // verus!
