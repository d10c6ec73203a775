//! The progress bridge and the browser-name resolution.

use dash_mpd_cli::browser::{
    all_browser_kinds, browser_from_name, collect_cookie_sources, extraction_outcome,
    resolve_cookie_source, BrowserFamily, BrowserKind, CookieError,
};
use dash_mpd_cli::digits::u32_to_decimal;
use dash_mpd_cli::progress::{progress_action, progress_record, ProgressAction, ProgressState};

#[test]
fn progress_actions() {
    assert_eq!(progress_action(0), ProgressAction::Update);
    assert_eq!(progress_action(50), ProgressAction::Update);
    assert_eq!(progress_action(99), ProgressAction::Update);
    assert_eq!(progress_action(100), ProgressAction::Finish);
    assert_eq!(progress_action(101), ProgressAction::Ignore);
    assert_eq!(progress_action(u32::MAX), ProgressAction::Ignore);
}

#[test]
fn progress_state_ignores_out_of_range() {
    let mut st = ProgressState::new();
    assert_eq!(st.position(), 0);
    assert!(!st.is_finished());
    st.update(42);
    assert_eq!(st.position(), 42);
    st.update(250);
    assert_eq!(st.position(), 42);
    assert!(!st.is_finished());
    st.update(100);
    assert_eq!(st.position(), 100);
    assert!(st.is_finished());
    st.update(101);
    assert_eq!(st.position(), 100);
    assert!(st.is_finished());
}

#[test]
fn progress_records() {
    assert_eq!(
        progress_record(100).as_deref(),
        Some("{\"type\": \"progress\", \"percent\": 100}")
    );
    assert_eq!(progress_record(7).as_deref(), Some("{\"type\": \"progress\", \"percent\": 7}"));
    assert_eq!(progress_record(101), None);
}

#[test]
fn decimal_spelling() {
    assert_eq!(u32_to_decimal(0), "0");
    assert_eq!(u32_to_decimal(7), "7");
    assert_eq!(u32_to_decimal(100), "100");
    assert_eq!(u32_to_decimal(1234), "1234");
    assert_eq!(u32_to_decimal(u32::MAX), "4294967295");
}

#[test]
fn browser_names_resolve_case_insensitively() {
    assert_eq!(browser_from_name("firefox"), Some(BrowserKind::Firefox));
    assert_eq!(browser_from_name("FIREFOX"), Some(BrowserKind::Firefox));
    assert_eq!(browser_from_name("Chrome"), Some(BrowserKind::Chrome));
    assert_eq!(browser_from_name("chromium"), Some(BrowserKind::Chromium));
    assert_eq!(browser_from_name("Edge"), Some(BrowserKind::Edge));
    assert_eq!(browser_from_name("brave"), Some(BrowserKind::Brave));
    assert_eq!(browser_from_name("Opera"), Some(BrowserKind::Opera));
    assert_eq!(browser_from_name("safari"), Some(BrowserKind::Safari));
    assert_eq!(browser_from_name("netscape"), None);
    assert_eq!(browser_from_name(""), None);
    assert_eq!(browser_from_name("firefoxx"), None);
}

#[test]
fn browser_families() {
    assert_eq!(BrowserKind::Chromium.family(), BrowserFamily::ChromiumBased);
    assert_eq!(BrowserKind::Chrome.family(), BrowserFamily::ChromiumBased);
    assert_eq!(BrowserKind::Edge.family(), BrowserFamily::ChromiumBased);
    assert_eq!(BrowserKind::Brave.family(), BrowserFamily::ChromiumBased);
    assert_eq!(BrowserKind::Opera.family(), BrowserFamily::ChromiumBased);
    assert_eq!(BrowserKind::Firefox.family(), BrowserFamily::FirefoxBased);
    assert_eq!(BrowserKind::Safari.family(), BrowserFamily::PlatformSpecific);
}

#[test]
fn every_browser_is_probed_once() {
    let all = all_browser_kinds();
    assert_eq!(all.len(), 7);
    assert_eq!(all[0], BrowserKind::Chromium);
    assert_eq!(all[6], BrowserKind::Safari);
    assert_eq!(BrowserKind::Firefox.label(), "Firefox");
}

#[test]
fn cookie_source_resolution() {
    assert_eq!(resolve_cookie_source("Firefox"), Ok(BrowserKind::Firefox));
    assert_eq!(resolve_cookie_source("netscape"), Err(CookieError::UnknownBrowser));
    match extraction_outcome(BrowserKind::Chrome, Some(12)) {
        Ok(src) => {
            assert_eq!(src.kind, BrowserKind::Chrome);
            assert_eq!(src.cookie_count, 12);
        },
        Err(_) => panic!("a counted extraction is a source"),
    }
    assert_eq!(
        extraction_outcome(BrowserKind::Chrome, None).map(|s| s.kind),
        Err(CookieError::ExtractionFailed)
    );
}

#[test]
fn listing_skips_browsers_that_yield_nothing() {
    let kinds = all_browser_kinds();
    let counts = vec![Some(3), None, None, None, None, Some(41), None];
    let sources = collect_cookie_sources(&kinds, &counts);
    assert_eq!(sources.len(), 2);
    assert_eq!(sources[0].kind, BrowserKind::Chromium);
    assert_eq!(sources[0].cookie_count, 3);
    assert_eq!(sources[1].kind, BrowserKind::Firefox);
    assert_eq!(sources[1].cookie_count, 41);
    assert!(collect_cookie_sources(&kinds, &vec![None; 7]).is_empty());
}
