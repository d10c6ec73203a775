//! The configuration resolver: one single-pass construction of the immutable
//! job descriptor from raw command-line values.
//!
//! Cross-option conflicts and a bad base URL abort the run; every other
//! malformed value is dropped with a warning and the run continues with the
//! default, so a typo in one option never blocks the rest.

use vstd::prelude::*;
use crate::digits::{dec_u64_ok, digits_val};
use crate::headers::HeaderTable;
use crate::ip::ip_wf;
use crate::net::{is_valid_url, url_accepted};
use crate::pairs::{
    pair_name, pair_value, parse_container_preference, parse_curl_header, parse_header_pair,
    parse_key_pair, trim_one_space, valid_key_hex,
};
use crate::progress::ProgressMode;
use crate::rate::{parse_rate, rate_value, rate_wf};
use crate::rewrite::{plan_rewrites, rule_matches, RewriteInput, RewriteRule};
use crate::text::{has_char, split_chars, split_list, views_of};

verus! {

/// A non-fatal finding: the option it concerns was dropped and the run goes
/// on with the default.
#[derive(Clone, Copy, PartialEq, Eq, Structural, Debug)]
pub enum Warning {
    /// The rate limit does not parse as a number with a known suffix.
    InvalidRate,
    /// The rate limit parses but is not a positive byte count.
    NonPositiveRate,
    /// The timeout is not a number of seconds; the default applies.
    InvalidTimeout,
    /// The source address is neither IPv4 nor IPv6; none is bound.
    InvalidSourceAddress,
    /// A cURL-style header value has no colon.
    MalformedHeader,
    /// A NAME:VALUE header value has no colon.
    MalformedAddHeader,
    /// A header name is empty.
    EmptyHeaderName,
    /// A KID:KEY value has no colon or a key that is not 32 hex digits.
    MalformedKey,
    /// A CONTAINER:ORDERING muxer preference has no colon.
    MalformedMuxerPreference,
    /// A CONTAINER:ORDERING concatenation preference has no colon.
    MalformedConcatPreference,
}

/// A conflict that stops configuration before any network access.
#[derive(Clone, Copy, PartialEq, Eq, Structural, Debug)]
pub enum ConfigError {
    /// Audio-only and video-only exclude each other.
    AudioOnlyWithVideoOnly,
    /// Quiet and verbose exclude each other.
    QuietWithVerbose,
    /// A proxy cannot be both given and disabled.
    ProxyWithNoProxy,
    /// Simulation writes nothing, so no subtitle or stream writes can be asked.
    SimulateWithWriteRequest,
    /// The base-URL override is not an absolute URL; continuing would corrupt
    /// every segment address.
    InvalidBaseUrl,
}

/// Exit code of a configuration error: a bad base URL has its own code, any
/// flag conflict ends as a usage error.
pub fn config_exit_code(e: ConfigError) -> (r: u8)
    ensures
        e == ConfigError::InvalidBaseUrl ==> r == 9,
        e != ConfigError::InvalidBaseUrl ==> r == 2,
{
    match e {
        ConfigError::InvalidBaseUrl => 9,
        _ => 2,
    }
}

/// The quality tier asked of the engine.
#[derive(Clone, Copy, PartialEq, Eq, Structural, Debug)]
pub enum Quality {
    Best,
    Intermediate,
    Worst,
}

/// The raw command-line values, exactly as the argument parser hands them
/// over: nothing here is validated yet.
pub struct RawOptions {
    pub url: String,
    pub user_agent: Option<String>,
    pub proxy: Option<String>,
    pub no_proxy: bool,
    pub auth_username: Option<String>,
    pub auth_password: Option<String>,
    pub auth_bearer: Option<String>,
    pub timeout: Option<String>,
    pub sleep_requests: u8,
    pub enable_live_streams: bool,
    pub base_url: Option<String>,
    pub limit_rate: Option<String>,
    pub fragment_retries: Option<u32>,
    pub max_error_count: Option<u32>,
    pub source_address: Option<String>,
    pub prefer_video_width: Option<u64>,
    pub prefer_video_height: Option<u64>,
    pub quality: Option<String>,
    pub prefer_language: Option<String>,
    pub role_preference: Option<String>,
    pub audio_only: bool,
    pub video_only: bool,
    pub simulate: bool,
    pub write_subs: bool,
    pub keep_video: Option<String>,
    pub keep_audio: Option<String>,
    pub no_period_concatenation: bool,
    pub muxer_preferences: Vec<String>,
    pub concat_preferences: Vec<String>,
    pub keys: Vec<String>,
    pub decryption_application: Option<String>,
    pub save_fragments: Option<String>,
    pub ignore_content_type: bool,
    pub curl_headers: Vec<String>,
    pub add_headers: Vec<String>,
    pub referer: Option<String>,
    pub quiet: bool,
    pub verbose: u8,
    pub no_progress: bool,
    pub no_xattr: bool,
    pub rewrites: Vec<RewriteInput>,
    pub minimum_period_duration: Option<u64>,
    pub output_file: Option<String>,
    pub ffmpeg_location: Option<String>,
    pub vlc_location: Option<String>,
    pub mkvmerge_location: Option<String>,
    pub mp4box_location: Option<String>,
    pub mp4decrypt_location: Option<String>,
    pub shaka_packager_location: Option<String>,
}

/// The immutable, fully resolved description of one download job, handed to
/// the external engine and never changed afterwards.
pub struct JobDescriptor {
    pub url: String,
    pub output_file: Option<String>,
    pub user_agent: Option<String>,
    pub proxy: Option<String>,
    pub no_proxy: bool,
    pub source_address: Option<String>,
    pub timeout_secs: u64,
    pub headers: HeaderTable,
    pub referer: Option<String>,
    pub auth: Option<(String, String)>,
    pub auth_bearer: Option<String>,
    pub quality: Quality,
    pub prefer_language: Option<String>,
    pub prefer_video_width: Option<u64>,
    pub prefer_video_height: Option<u64>,
    pub role_preference: Vec<String>,
    pub audio_only: bool,
    pub video_only: bool,
    pub simulate: bool,
    pub fetch_audio: bool,
    pub fetch_video: bool,
    pub fetch_subtitles: bool,
    pub keep_video: Option<String>,
    pub keep_audio: Option<String>,
    pub concatenate_periods: bool,
    pub keys: Vec<(String, String)>,
    pub decryption_application: Option<String>,
    pub muxer_preferences: Vec<(String, Vec<String>)>,
    pub concat_preferences: Vec<(String, Vec<String>)>,
    pub rewrites: Vec<RewriteRule>,
    pub save_fragments: Option<String>,
    pub ignore_content_type: bool,
    pub allow_live_streams: bool,
    pub minimum_period_duration: Option<u64>,
    pub fragment_retries: Option<u32>,
    pub max_error_count: Option<u32>,
    pub sleep_between_requests: u8,
    pub rate_limit: Option<u64>,
    pub base_url: Option<String>,
    pub no_xattr: bool,
    pub verbosity: u8,
    pub progress: ProgressMode,
    pub ffmpeg_location: Option<String>,
    pub vlc_location: Option<String>,
    pub mkvmerge_location: Option<String>,
    pub mp4box_location: Option<String>,
    pub mp4decrypt_location: Option<String>,
    pub shaka_packager_location: Option<String>,
}

/// View of an optional string.
pub open spec fn osv(o: Option<String>) -> Option<Seq<char>> {
    match o {
        Some(s) => Some(s@),
        None => None,
    }
}

/// Views of a list of name/value pairs.
pub open spec fn pair_views(v: Seq<(String, String)>) -> Seq<(Seq<char>, Seq<char>)> {
    v.map_values(|p: (String, String)| (p.0@, p.1@))
}

/// Views of a list of container preferences.
pub open spec fn pref_views(v: Seq<(String, Vec<String>)>) -> Seq<(Seq<char>, Seq<Seq<char>>)> {
    v.map_values(|p: (String, Vec<String>)| (p.0@, views_of(p.1@)))
}

/// A usable KID:KEY value: a colon, and 32 hex digits after it.
pub open spec fn key_ok(s: Seq<char>) -> bool {
    has_char(s, ':') && valid_key_hex(pair_value(s))
}

/// The decryption keys kept from the raw list, in order: the usable ones,
/// split at their first colon.
pub open spec fn resolved_keys(ks: Seq<String>) -> Seq<(Seq<char>, Seq<char>)>
    decreases ks.len(),
{
    if ks.len() == 0 {
        Seq::empty()
    } else {
        let pre = resolved_keys(ks.drop_last());
        let s = ks.last()@;
        if key_ok(s) {
            pre.push((pair_name(s), pair_value(s)))
        } else {
            pre
        }
    }
}

/// The container preferences kept from the raw list, in order: the ones with
/// a colon, their ordering split on commas.
pub open spec fn resolved_prefs(ps: Seq<String>) -> Seq<(Seq<char>, Seq<Seq<char>>)>
    decreases ps.len(),
{
    if ps.len() == 0 {
        Seq::empty()
    } else {
        let pre = resolved_prefs(ps.drop_last());
        let s = ps.last()@;
        if has_char(s, ':') {
            pre.push((pair_name(s), split_chars(pair_value(s), ',')))
        } else {
            pre
        }
    }
}

/// The header assignment one raw value makes, if any: it needs a colon and a
/// nonempty name; the cURL-style form loses at most one space after the colon.
pub open spec fn header_assign(s: Seq<char>, curl: bool) -> Option<(Seq<char>, Seq<char>)> {
    if has_char(s, ':') && pair_name(s).len() > 0 {
        Some(
            (
                pair_name(s),
                if curl {
                    trim_one_space(pair_value(s))
                } else {
                    pair_value(s)
                },
            ),
        )
    } else {
        None
    }
}

/// The assignments a list of raw header values makes, in order.
pub open spec fn header_assignments(hs: Seq<String>, curl: bool) -> Seq<(Seq<char>, Seq<char>)>
    decreases hs.len(),
{
    if hs.len() == 0 {
        Seq::empty()
    } else {
        let pre = header_assignments(hs.drop_last(), curl);
        match header_assign(hs.last()@, curl) {
            Some(a) => pre.push(a),
            None => pre,
        }
    }
}

/// The value the latest assignment of `n` carries, if any.
pub open spec fn assign_lookup(asgs: Seq<(Seq<char>, Seq<char>)>, n: Seq<char>) -> Option<
    Seq<char>,
>
    decreases asgs.len(),
{
    if asgs.len() == 0 {
        None
    } else if asgs.last().0 == n {
        Some(asgs.last().1)
    } else {
        assign_lookup(asgs.drop_last(), n)
    }
}

/// Looking a name up across two assignment lists: the later list wins.
proof fn lemma_assign_lookup_concat(a: Seq<(Seq<char>, Seq<char>)>, b: Seq<(Seq<char>, Seq<char>)>, n: Seq<char>)
    ensures
        assign_lookup(a + b, n) == match assign_lookup(b, n) {
            Some(v) => Some(v),
            None => assign_lookup(a, n),
        },
    decreases b.len(),
{
    if b.len() == 0 {
        assert(a + b =~= a);
    } else {
        assert((a + b).drop_last() =~= a + b.drop_last());
        assert((a + b).last() == b.last());
        lemma_assign_lookup_concat(a, b.drop_last(), n);
    }
}

proof fn lemma_self_prefix(a: Seq<Warning>)
    ensures
        a.is_prefix_of(a),
{
    assert(a =~= a.subrange(0, a.len() as int));
}

proof fn lemma_push_prefix(a: Seq<Warning>, x: Warning)
    ensures
        a.is_prefix_of(a.push(x)),
        a.push(x).contains(x),
{
    assert(a =~= a.push(x).subrange(0, a.len() as int));
    assert(a.push(x)[a.len() as int] == x);
}

proof fn lemma_prefix_trans(a: Seq<Warning>, b: Seq<Warning>, c: Seq<Warning>)
    requires
        a.is_prefix_of(b),
        b.is_prefix_of(c),
    ensures
        a.is_prefix_of(c),
{
    assert(a =~= c.subrange(0, a.len() as int)) by {
        assert forall|i: int| 0 <= i < a.len() implies a[i] == c.subrange(
            0,
            a.len() as int,
        )[i] by {
            assert(a[i] == b.subrange(0, b.len() as int)[i]);
            assert(b[i] == c.subrange(0, b.len() as int)[i]);
        }
    }
}

proof fn lemma_contains_prefix(a: Seq<Warning>, b: Seq<Warning>, x: Warning)
    requires
        a.is_prefix_of(b),
        a.contains(x),
    ensures
        b.contains(x),
{
    let i = choose|i: int| 0 <= i < a.len() && a[i] == x;
    assert(b[i] == a.subrange(0, a.len() as int)[i]);
}

/// The timeout in seconds: the given whole number, or 30 when none or an
/// unusable one is given.
pub open spec fn spec_timeout(o: Option<String>) -> int {
    match o {
        Some(s) => if dec_u64_ok(s@) {
            digits_val(s@) as int
        } else {
            30
        },
        None => 30,
    }
}

/// The rate limit kept: only a well-formed, positive value that fits.
pub open spec fn spec_rate_limit(o: Option<String>) -> Option<int> {
    match o {
        Some(s) => if rate_wf(s@) && 0 < rate_value(s@) <= u64::MAX {
            Some(rate_value(s@) as int)
        } else {
            None
        },
        None => None,
    }
}

/// The source address kept: only a valid IPv4 or IPv6 address.
pub open spec fn spec_source_address(o: Option<String>) -> Option<Seq<char>> {
    match o {
        Some(s) => if ip_wf(s@) {
            Some(s@)
        } else {
            None
        },
        None => None,
    }
}

/// The quality tier: best or intermediate when asked for by exactly those
/// words, otherwise the worst tier, which is also the default.
pub open spec fn spec_quality(o: Option<String>) -> Quality {
    match o {
        Some(s) => if s@ == "best"@ {
            Quality::Best
        } else if s@ == "intermediate"@ {
            Quality::Intermediate
        } else {
            Quality::Worst
        },
        None => Quality::Worst,
    }
}

/// The authentication pair: a username takes effect only with a password.
pub open spec fn spec_auth(u: Option<String>, p: Option<String>) -> Option<(Seq<char>, Seq<char>)> {
    match (u, p) {
        (Some(us), Some(ps)) => Some((us@, ps@)),
        _ => None,
    }
}

impl JobDescriptor {
    /// The internal consistency every resolved job has.
    pub open spec fn wf(self) -> bool {
        &&& !(self.audio_only && self.video_only)
        &&& self.simulate ==> !self.fetch_audio && !self.fetch_video && !self.fetch_subtitles
        &&& match self.rate_limit {
            Some(v) => v > 0,
            None => true,
        }
        &&& forall|i: int|
            0 <= i < self.keys@.len() ==> valid_key_hex((#[trigger] self.keys@[i]).1@)
        &&& match self.base_url {
            Some(u) => url_accepted(u@),
            None => true,
        }
        &&& match self.source_address {
            Some(s) => ip_wf(s@),
            None => true,
        }
        &&& self.headers.wf()
    }
}

/// Copy of an optional string.
fn clone_str_opt(o: &Option<String>) -> (r: Option<String>)
    ensures
        osv(r) == osv(*o),
{
    match o {
        Some(s) => Some(s.clone()),
        None => None,
    }
}

/// Keeps the usable decryption keys, warning once per dropped one.
fn resolve_keys(ks: &Vec<String>, ws: &mut Vec<Warning>) -> (r: Vec<(String, String)>)
    ensures
        pair_views(r@) == resolved_keys(ks@),
        old(ws)@.is_prefix_of(final(ws)@),
        forall|j: int|
            old(ws)@.len() <= j < final(ws)@.len() ==> final(ws)@[j] == Warning::MalformedKey,
        final(ws)@.len() - old(ws)@.len() == ks@.len() - r@.len(),
{
    let n = ks.len();
    let mut out: Vec<(String, String)> = Vec::new();
    let mut i: usize = 0;
    while i < n
        invariant
            i <= n,
            n == ks@.len(),
            pair_views(out@) == resolved_keys(ks@.subrange(0, i as int)),
            out@.len() <= i,
            old(ws)@.is_prefix_of(ws@),
            forall|j: int| old(ws)@.len() <= j < ws@.len() ==> ws@[j] == Warning::MalformedKey,
            ws@.len() - old(ws)@.len() == i - out@.len(),
        decreases n - i,
    {
        let ghost pre = ks@.subrange(0, i as int);
        let ghost post = ks@.subrange(0, i + 1 as int);
        proof {
            assert(post.drop_last() =~= pre);
            assert(post.last() == ks@[i as int]);
        }
        match parse_key_pair(ks[i].as_str()) {
            Some((kid, key)) => {
                out.push((kid, key));
                proof {
                    assert(pair_views(out@) =~= resolved_keys(post));
                }
            },
            None => {
                ws.push(Warning::MalformedKey);
                proof {
                    assert(pair_views(out@) =~= resolved_keys(post));
                }
            },
        }
        i += 1;
    }
    proof {
        assert(ks@.subrange(0, n as int) =~= ks@);
    }
    out
}

/// Keeps the container preferences with a colon, warning with `w` once per
/// dropped one.
fn resolve_prefs(ps: &Vec<String>, w: Warning, ws: &mut Vec<Warning>) -> (r: Vec<
    (String, Vec<String>),
>)
    ensures
        pref_views(r@) == resolved_prefs(ps@),
        old(ws)@.is_prefix_of(final(ws)@),
        forall|j: int| old(ws)@.len() <= j < final(ws)@.len() ==> final(ws)@[j] == w,
        final(ws)@.len() - old(ws)@.len() == ps@.len() - r@.len(),
{
    let n = ps.len();
    let mut out: Vec<(String, Vec<String>)> = Vec::new();
    let mut i: usize = 0;
    while i < n
        invariant
            i <= n,
            n == ps@.len(),
            pref_views(out@) == resolved_prefs(ps@.subrange(0, i as int)),
            out@.len() <= i,
            old(ws)@.is_prefix_of(ws@),
            forall|j: int| old(ws)@.len() <= j < ws@.len() ==> ws@[j] == w,
            ws@.len() - old(ws)@.len() == i - out@.len(),
        decreases n - i,
    {
        let ghost pre = ps@.subrange(0, i as int);
        let ghost post = ps@.subrange(0, i + 1 as int);
        proof {
            assert(post.drop_last() =~= pre);
            assert(post.last() == ps@[i as int]);
        }
        match parse_container_preference(ps[i].as_str()) {
            Some((container, ordering)) => {
                out.push((container, ordering));
                proof {
                    assert(pref_views(out@) =~= resolved_prefs(post));
                }
            },
            None => {
                ws.push(w);
                proof {
                    assert(pref_views(out@) =~= resolved_prefs(post));
                }
            },
        }
        i += 1;
    }
    proof {
        assert(ps@.subrange(0, n as int) =~= ps@);
    }
    out
}

/// Applies one list of raw header values to the table, in order, warning with
/// `w` for a value without a colon and separately for an empty name.
fn apply_headers(table: &mut HeaderTable, hs: &Vec<String>, curl: bool, w: Warning, ws: &mut Vec<
    Warning,
>)
    requires
        old(table).wf(),
    ensures
        final(table).wf(),
        forall|n: Seq<char>|
            final(table).spec_get(n) == match assign_lookup(header_assignments(hs@, curl), n) {
                Some(v) => Some(v),
                None => old(table).spec_get(n),
            },
        old(ws)@.is_prefix_of(final(ws)@),
        forall|j: int|
            old(ws)@.len() <= j < final(ws)@.len() ==> (final(ws)@[j] == w || final(ws)@[j]
                == Warning::EmptyHeaderName),
{
    let n = hs.len();
    let mut i: usize = 0;
    while i < n
        invariant
            i <= n,
            n == hs@.len(),
            table.wf(),
            forall|m: Seq<char>|
                table.spec_get(m) == match assign_lookup(
                    header_assignments(hs@.subrange(0, i as int), curl),
                    m,
                ) {
                    Some(v) => Some(v),
                    None => old(table).spec_get(m),
                },
            old(ws)@.is_prefix_of(ws@),
            forall|j: int|
                old(ws)@.len() <= j < ws@.len() ==> (ws@[j] == w || ws@[j]
                    == Warning::EmptyHeaderName),
        decreases n - i,
    {
        let ghost pre = hs@.subrange(0, i as int);
        let ghost post = hs@.subrange(0, i + 1 as int);
        proof {
            assert(post.drop_last() =~= pre);
            assert(post.last() == hs@[i as int]);
        }
        let parsed = if curl {
            parse_curl_header(hs[i].as_str())
        } else {
            parse_header_pair(hs[i].as_str())
        };
        let ghost pre_asgs = header_assignments(pre, curl);
        match parsed {
            Some((name, value)) => {
                let ghost nv = name@;
                let ghost vv = value@;
                if name.as_str().unicode_len() == 0 {
                    ws.push(Warning::EmptyHeaderName);
                    proof {
                        assert(header_assign(post.last()@, curl) is None);
                        assert(header_assignments(post, curl) == pre_asgs);
                    }
                } else {
                    table.insert(name, value);
                    proof {
                        assert(header_assign(post.last()@, curl) == Some((nv, vv)));
                        assert(header_assignments(post, curl) == pre_asgs.push((nv, vv)));
                        assert forall|m: Seq<char>|
                            #[trigger] assign_lookup(header_assignments(post, curl), m) == (
                        if m == nv {
                            Some(vv)
                        } else {
                            assign_lookup(pre_asgs, m)
                        }) by {
                            assert(pre_asgs.push((nv, vv)).drop_last() =~= pre_asgs);
                        }
                    }
                }
            },
            None => {
                ws.push(w);
                proof {
                    assert(header_assign(post.last()@, curl) is None);
                    assert(header_assignments(post, curl) == pre_asgs);
                }
            },
        }
        i += 1;
    }
    proof {
        assert(hs@.subrange(0, n as int) =~= hs@);
    }
}

/// Builds the job descriptor from the raw values, or stops on a conflict or a
/// bad base URL; every dropped option leaves a warning. A conflict of the
/// audio-only and video-only selections is always rejected here, before
/// anything else happens.
pub fn resolve(raw: &RawOptions) -> (r: Result<(JobDescriptor, Vec<Warning>), ConfigError>)
    ensures
        raw.audio_only && raw.video_only ==> r is Err,
        match r {
            Err(e) => match e {
                ConfigError::AudioOnlyWithVideoOnly => raw.audio_only && raw.video_only,
                ConfigError::QuietWithVerbose => !(raw.audio_only && raw.video_only) && raw.quiet
                    && raw.verbose > 0,
                ConfigError::ProxyWithNoProxy => !(raw.audio_only && raw.video_only) && !(raw.quiet
                    && raw.verbose > 0) && raw.proxy is Some && raw.no_proxy,
                ConfigError::SimulateWithWriteRequest => !(raw.audio_only && raw.video_only) && !(
                raw.quiet && raw.verbose > 0) && !(raw.proxy is Some && raw.no_proxy)
                    && raw.simulate && (raw.write_subs || raw.keep_video is Some
                    || raw.keep_audio is Some),
                ConfigError::InvalidBaseUrl => !(raw.audio_only && raw.video_only) && !(raw.quiet
                    && raw.verbose > 0) && !(raw.proxy is Some && raw.no_proxy) && !(raw.simulate
                    && (raw.write_subs || raw.keep_video is Some || raw.keep_audio is Some)) && (
                raw.base_url matches Some(u) && !url_accepted(u@)),
            },
            Ok((d, ws)) => {
                &&& !(raw.audio_only && raw.video_only)
                &&& !(raw.quiet && raw.verbose > 0)
                &&& !(raw.proxy is Some && raw.no_proxy)
                &&& !(raw.simulate && (raw.write_subs || raw.keep_video is Some
                    || raw.keep_audio is Some))
                &&& (raw.base_url matches Some(u) ==> url_accepted(u@))
                &&& d.wf()
                &&& d.url@ == raw.url@
                &&& osv(d.output_file) == osv(raw.output_file)
                &&& osv(d.user_agent) == osv(raw.user_agent)
                &&& osv(d.proxy) == osv(raw.proxy)
                &&& d.no_proxy == raw.no_proxy
                &&& osv(d.source_address) == spec_source_address(raw.source_address)
                &&& d.timeout_secs as int == spec_timeout(raw.timeout)
                &&& (forall|n: Seq<char>|
                    d.headers.spec_get(n) == assign_lookup(
                        header_assignments(raw.curl_headers@, true) + header_assignments(
                            raw.add_headers@,
                            false,
                        ),
                        n,
                    ))
                &&& osv(d.referer) == osv(raw.referer)
                &&& (match d.auth {
                    Some(a) => spec_auth(raw.auth_username, raw.auth_password) == Some(
                        (a.0@, a.1@),
                    ),
                    None => spec_auth(raw.auth_username, raw.auth_password) is None,
                })
                &&& osv(d.auth_bearer) == osv(raw.auth_bearer)
                &&& d.quality == spec_quality(raw.quality)
                &&& osv(d.prefer_language) == osv(raw.prefer_language)
                &&& d.prefer_video_width == raw.prefer_video_width
                &&& d.prefer_video_height == raw.prefer_video_height
                &&& (match raw.role_preference {
                    Some(s) => views_of(d.role_preference@) == split_chars(s@, ','),
                    None => d.role_preference@.len() == 0,
                })
                &&& d.audio_only == raw.audio_only
                &&& d.video_only == raw.video_only
                &&& d.simulate == raw.simulate
                &&& d.fetch_audio == (!raw.simulate && !raw.video_only)
                &&& d.fetch_video == (!raw.simulate && !raw.audio_only)
                &&& d.fetch_subtitles == (!raw.simulate && raw.write_subs)
                &&& osv(d.keep_video) == osv(raw.keep_video)
                &&& osv(d.keep_audio) == osv(raw.keep_audio)
                &&& d.concatenate_periods == !raw.no_period_concatenation
                &&& pair_views(d.keys@) == resolved_keys(raw.keys@)
                &&& osv(d.decryption_application) == osv(raw.decryption_application)
                &&& pref_views(d.muxer_preferences@) == resolved_prefs(raw.muxer_preferences@)
                &&& pref_views(d.concat_preferences@) == resolved_prefs(raw.concat_preferences@)
                &&& d.rewrites@.len() == raw.rewrites@.len()
                &&& (forall|i: int|
                    0 <= i < raw.rewrites@.len() ==> rule_matches(
                        raw.rewrites@[i],
                        #[trigger] d.rewrites@[i],
                    ))
                &&& osv(d.save_fragments) == osv(raw.save_fragments)
                &&& d.ignore_content_type == raw.ignore_content_type
                &&& d.allow_live_streams == raw.enable_live_streams
                &&& d.minimum_period_duration == raw.minimum_period_duration
                &&& d.fragment_retries == raw.fragment_retries
                &&& d.max_error_count == raw.max_error_count
                &&& d.sleep_between_requests == raw.sleep_requests
                &&& (match d.rate_limit {
                    Some(v) => spec_rate_limit(raw.limit_rate) == Some(v as int),
                    None => spec_rate_limit(raw.limit_rate) is None,
                })
                &&& osv(d.base_url) == osv(raw.base_url)
                &&& d.no_xattr == raw.no_xattr
                &&& d.verbosity == raw.verbose
                &&& d.progress == (if raw.quiet || raw.no_progress {
                    ProgressMode::Quiet
                } else {
                    ProgressMode::Bar
                })
                &&& osv(d.ffmpeg_location) == osv(raw.ffmpeg_location)
                &&& osv(d.vlc_location) == osv(raw.vlc_location)
                &&& osv(d.mkvmerge_location) == osv(raw.mkvmerge_location)
                &&& osv(d.mp4box_location) == osv(raw.mp4box_location)
                &&& osv(d.mp4decrypt_location) == osv(raw.mp4decrypt_location)
                &&& osv(d.shaka_packager_location) == osv(raw.shaka_packager_location)
                // The warnings owed for the droppable options.
                &&& (raw.source_address matches Some(s) && !ip_wf(s@) ==> ws@.contains(
                    Warning::InvalidSourceAddress,
                ))
                &&& (raw.limit_rate matches Some(s) && !(rate_wf(s@) && rate_value(s@)
                    <= u64::MAX) ==> ws@.contains(Warning::InvalidRate))
                &&& (raw.limit_rate matches Some(s) && rate_wf(s@) && rate_value(s@) == 0
                    ==> ws@.contains(Warning::NonPositiveRate))
                &&& (raw.timeout matches Some(s) && !dec_u64_ok(s@) ==> ws@.contains(
                    Warning::InvalidTimeout,
                ))
            },
        },
{
    // Cross-option conflicts stop the run before anything is built.
    if raw.audio_only && raw.video_only {
        return Err(ConfigError::AudioOnlyWithVideoOnly);
    }
    if raw.quiet && raw.verbose > 0 {
        return Err(ConfigError::QuietWithVerbose);
    }
    if raw.proxy.is_some() && raw.no_proxy {
        return Err(ConfigError::ProxyWithNoProxy);
    }
    if raw.simulate && (raw.write_subs || raw.keep_video.is_some() || raw.keep_audio.is_some()) {
        return Err(ConfigError::SimulateWithWriteRequest);
    }
    // A broken base URL would silently corrupt every segment address: fatal.
    if let Some(bu) = &raw.base_url {
        if !is_valid_url(bu.as_str()) {
            return Err(ConfigError::InvalidBaseUrl);
        }
    }
    let mut ws: Vec<Warning> = Vec::new();

    // Rate limit: drop a malformed or non-positive value with a warning.
    let ghost w0 = ws@;
    let rate_limit: Option<u64> = match &raw.limit_rate {
        Some(s) => match parse_rate(s.as_str()) {
            Some(v) => {
                if v > 0 {
                    proof {
                        lemma_self_prefix(w0);
                    }
                    Some(v)
                } else {
                    proof {
                        lemma_push_prefix(w0, Warning::NonPositiveRate);
                    }
                    ws.push(Warning::NonPositiveRate);
                    None
                }
            },
            None => {
                proof {
                    lemma_push_prefix(w0, Warning::InvalidRate);
                }
                ws.push(Warning::InvalidRate);
                None
            },
        },
        None => {
            proof {
                lemma_self_prefix(w0);
            }
            None
        },
    };
    let ghost w1 = ws@;

    // Timeout: fall back to the 30-second default on anything unusable.
    let timeout_secs: u64 = match &raw.timeout {
        Some(s) => match crate::digits::parse_decimal_u64(s.as_str()) {
            Some(v) => {
                proof {
                    lemma_self_prefix(w1);
                }
                v
            },
            None => {
                proof {
                    lemma_push_prefix(w1, Warning::InvalidTimeout);
                }
                ws.push(Warning::InvalidTimeout);
                30
            },
        },
        None => {
            proof {
                lemma_self_prefix(w1);
            }
            30
        },
    };
    let ghost w2 = ws@;

    // Source address: bind only a valid IPv4 or IPv6 address.
    let source_address: Option<String> = match &raw.source_address {
        Some(s) => {
            if crate::ip::is_valid_ip(s.as_str()) {
                proof {
                    lemma_self_prefix(w2);
                }
                Some(s.clone())
            } else {
                proof {
                    lemma_push_prefix(w2, Warning::InvalidSourceAddress);
                }
                ws.push(Warning::InvalidSourceAddress);
                None
            }
        },
        None => {
            proof {
                lemma_self_prefix(w2);
            }
            None
        },
    };
    let ghost w3 = ws@;

    // Headers: cURL-style ones first, then NAME:VALUE ones; last write wins.
    let mut headers = HeaderTable::new();
    apply_headers(&mut headers, &raw.curl_headers, true, Warning::MalformedHeader, &mut ws);
    let ghost curl_asgs = header_assignments(raw.curl_headers@, true);
    apply_headers(&mut headers, &raw.add_headers, false, Warning::MalformedAddHeader, &mut ws);
    proof {
        let add_asgs = header_assignments(raw.add_headers@, false);
        assert forall|n: Seq<char>|
            headers.spec_get(n) == assign_lookup(curl_asgs + add_asgs, n) by {
            lemma_assign_lookup_concat(curl_asgs, add_asgs, n);
        }
    }

    let keys = resolve_keys(&raw.keys, &mut ws);
    let muxer_preferences = resolve_prefs(
        &raw.muxer_preferences,
        Warning::MalformedMuxerPreference,
        &mut ws,
    );
    let concat_preferences = resolve_prefs(
        &raw.concat_preferences,
        Warning::MalformedConcatPreference,
        &mut ws,
    );

    let role_preference: Vec<String> = match &raw.role_preference {
        Some(s) => split_list(s.as_str(), ','),
        None => Vec::new(),
    };

    let quality: Quality = match &raw.quality {
        Some(s) => {
            if crate::text::compare_str(s.as_str(), "best") {
                Quality::Best
            } else if crate::text::compare_str(s.as_str(), "intermediate") {
                Quality::Intermediate
            } else {
                Quality::Worst
            }
        },
        None => Quality::Worst,
    };

    let auth: Option<(String, String)> = match (&raw.auth_username, &raw.auth_password) {
        (Some(u), Some(p)) => Some((u.clone(), p.clone())),
        _ => None,
    };

    let rewrites = plan_rewrites(&raw.rewrites);

    let d = JobDescriptor {
        url: raw.url.clone(),
        output_file: clone_str_opt(&raw.output_file),
        user_agent: clone_str_opt(&raw.user_agent),
        proxy: clone_str_opt(&raw.proxy),
        no_proxy: raw.no_proxy,
        source_address,
        timeout_secs,
        headers,
        referer: clone_str_opt(&raw.referer),
        auth,
        auth_bearer: clone_str_opt(&raw.auth_bearer),
        quality,
        prefer_language: clone_str_opt(&raw.prefer_language),
        prefer_video_width: raw.prefer_video_width,
        prefer_video_height: raw.prefer_video_height,
        role_preference,
        audio_only: raw.audio_only,
        video_only: raw.video_only,
        simulate: raw.simulate,
        fetch_audio: !raw.simulate && !raw.video_only,
        fetch_video: !raw.simulate && !raw.audio_only,
        fetch_subtitles: !raw.simulate && raw.write_subs,
        keep_video: clone_str_opt(&raw.keep_video),
        keep_audio: clone_str_opt(&raw.keep_audio),
        concatenate_periods: !raw.no_period_concatenation,
        keys,
        decryption_application: clone_str_opt(&raw.decryption_application),
        muxer_preferences,
        concat_preferences,
        rewrites,
        save_fragments: clone_str_opt(&raw.save_fragments),
        ignore_content_type: raw.ignore_content_type,
        allow_live_streams: raw.enable_live_streams,
        minimum_period_duration: raw.minimum_period_duration,
        fragment_retries: raw.fragment_retries,
        max_error_count: raw.max_error_count,
        sleep_between_requests: raw.sleep_requests,
        rate_limit,
        base_url: clone_str_opt(&raw.base_url),
        no_xattr: raw.no_xattr,
        verbosity: raw.verbose,
        progress: if raw.quiet || raw.no_progress {
            ProgressMode::Quiet
        } else {
            ProgressMode::Bar
        },
        ffmpeg_location: clone_str_opt(&raw.ffmpeg_location),
        vlc_location: clone_str_opt(&raw.vlc_location),
        mkvmerge_location: clone_str_opt(&raw.mkvmerge_location),
        mp4box_location: clone_str_opt(&raw.mp4box_location),
        mp4decrypt_location: clone_str_opt(&raw.mp4decrypt_location),
        shaka_packager_location: clone_str_opt(&raw.shaka_packager_location),
    };
    proof {
        assert forall|i: int| 0 <= i < d.keys@.len() implies valid_key_hex(
            (#[trigger] d.keys@[i]).1@,
        ) by {
            lemma_resolved_keys_valid(raw.keys@, i);
            assert(pair_views(d.keys@)[i] == (d.keys@[i].0@, d.keys@[i].1@));
        }
        // The warnings pushed for dropped options survive the later stages,
        // which only append.
        lemma_prefix_trans(w1, w2, w3);
        lemma_prefix_trans(w1, w3, ws@);
        lemma_prefix_trans(w2, w3, ws@);
        if raw.limit_rate is Some {
            let s = raw.limit_rate->0;
            if !(rate_wf(s@) && rate_value(s@) <= u64::MAX) {
                lemma_contains_prefix(w1, ws@, Warning::InvalidRate);
            }
            if rate_wf(s@) && rate_value(s@) == 0 {
                lemma_contains_prefix(w1, ws@, Warning::NonPositiveRate);
            }
        }
        if raw.timeout is Some && !dec_u64_ok(raw.timeout->0@) {
            lemma_contains_prefix(w2, ws@, Warning::InvalidTimeout);
        }
        if raw.source_address is Some && !ip_wf(raw.source_address->0@) {
            lemma_contains_prefix(w3, ws@, Warning::InvalidSourceAddress);
        }
    }
    Ok((d, ws))
}

/// Every key the resolver keeps has a 32-hex-digit content key.
proof fn lemma_resolved_keys_valid(ks: Seq<String>, i: int)
    requires
        0 <= i < resolved_keys(ks).len(),
    ensures
        valid_key_hex(resolved_keys(ks)[i].1),
    decreases ks.len(),
{
    if ks.len() > 0 {
        let pre = resolved_keys(ks.drop_last());
        if i < pre.len() {
            lemma_resolved_keys_valid(ks.drop_last(), i);
        }
    }
}

} // verus!
