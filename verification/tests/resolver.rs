//! The configuration resolver: conflicts, fatal base URLs, defaults, and the
//! drop-with-warning behavior of every malformed option.

use dash_mpd_cli::config::{
    config_exit_code, resolve, ConfigError, Quality, RawOptions, Warning,
};
use dash_mpd_cli::progress::ProgressMode;
use dash_mpd_cli::rewrite::{RewriteInput, RewriteRule};

fn plain(url: &str) -> RawOptions {
    RawOptions {
        url: url.to_string(),
        user_agent: None,
        proxy: None,
        no_proxy: false,
        auth_username: None,
        auth_password: None,
        auth_bearer: None,
        timeout: None,
        sleep_requests: 0,
        enable_live_streams: false,
        base_url: None,
        limit_rate: None,
        fragment_retries: None,
        max_error_count: None,
        source_address: None,
        prefer_video_width: None,
        prefer_video_height: None,
        quality: None,
        prefer_language: None,
        role_preference: None,
        audio_only: false,
        video_only: false,
        simulate: false,
        write_subs: false,
        keep_video: None,
        keep_audio: None,
        no_period_concatenation: false,
        muxer_preferences: vec![],
        concat_preferences: vec![],
        keys: vec![],
        decryption_application: None,
        save_fragments: None,
        ignore_content_type: false,
        curl_headers: vec![],
        add_headers: vec![],
        referer: None,
        quiet: false,
        verbose: 0,
        no_progress: false,
        no_xattr: false,
        rewrites: vec![],
        minimum_period_duration: None,
        output_file: None,
        ffmpeg_location: None,
        vlc_location: None,
        mkvmerge_location: None,
        mp4box_location: None,
        mp4decrypt_location: None,
        shaka_packager_location: None,
    }
}

const URL: &str = "https://example.org/manifest.mpd";

fn expect_err(raw: &RawOptions) -> ConfigError {
    match resolve(raw) {
        Err(e) => e,
        Ok(_) => panic!("these options must not resolve"),
    }
}

#[test]
fn defaults_resolve_cleanly() {
    let (d, ws) = resolve(&plain(URL)).expect("plain options must resolve");
    assert!(ws.is_empty());
    assert_eq!(d.url, URL);
    assert_eq!(d.timeout_secs, 30);
    assert_eq!(d.quality, Quality::Worst);
    assert!(d.fetch_audio && d.fetch_video && !d.fetch_subtitles);
    assert!(d.concatenate_periods);
    assert_eq!(d.rate_limit, None);
    assert_eq!(d.source_address, None);
    assert_eq!(d.progress, ProgressMode::Bar);
    assert!(d.role_preference.is_empty());
    assert!(d.keys.is_empty());
}

#[test]
fn audio_only_with_video_only_is_rejected() {
    let mut raw = plain(URL);
    raw.audio_only = true;
    raw.video_only = true;
    match resolve(&raw) {
        Err(e) => {
            assert_eq!(e, ConfigError::AudioOnlyWithVideoOnly);
            assert_eq!(config_exit_code(e), 2);
        },
        Ok(_) => panic!("conflicting stream selections must not resolve"),
    }
}

#[test]
fn bad_base_url_is_exit_nine() {
    let mut raw = plain(URL);
    raw.base_url = Some("not a url".to_string());
    match resolve(&raw) {
        Err(e) => {
            assert_eq!(e, ConfigError::InvalidBaseUrl);
            assert_eq!(config_exit_code(e), 9);
        },
        Ok(_) => panic!("a broken base URL must be fatal"),
    }
}

#[test]
fn good_base_url_is_kept() {
    let mut raw = plain(URL);
    raw.base_url = Some("https://cdn.example.net/media/".to_string());
    let (d, ws) = resolve(&raw).expect("a real base URL must resolve");
    assert!(ws.is_empty());
    assert_eq!(d.base_url.as_deref(), Some("https://cdn.example.net/media/"));
}

#[test]
fn invalid_source_address_warns_and_binds_nothing() {
    let mut raw = plain(URL);
    raw.source_address = Some("33.44.55.66.77".to_string());
    let (d, ws) = resolve(&raw).expect("an invalid source address is not fatal");
    assert_eq!(d.source_address, None);
    assert!(ws.contains(&Warning::InvalidSourceAddress));
}

#[test]
fn valid_source_address_is_kept() {
    let mut raw = plain(URL);
    raw.source_address = Some("33.44.55.66".to_string());
    let (d, ws) = resolve(&raw).expect("a valid source address resolves");
    assert_eq!(d.source_address.as_deref(), Some("33.44.55.66"));
    assert!(ws.is_empty());
}

#[test]
fn quality_words() {
    let mut raw = plain(URL);
    raw.quality = Some("best".to_string());
    assert_eq!(resolve(&raw).unwrap().0.quality, Quality::Best);
    raw.quality = Some("intermediate".to_string());
    assert_eq!(resolve(&raw).unwrap().0.quality, Quality::Intermediate);
    raw.quality = Some("worst".to_string());
    assert_eq!(resolve(&raw).unwrap().0.quality, Quality::Worst);
}

#[test]
fn simulate_fetches_nothing() {
    let mut raw = plain(URL);
    raw.simulate = true;
    let (d, _) = resolve(&raw).unwrap();
    assert!(d.simulate);
    assert!(!d.fetch_audio && !d.fetch_video && !d.fetch_subtitles);
}

#[test]
fn simulate_with_write_request_is_rejected() {
    let mut raw = plain(URL);
    raw.simulate = true;
    raw.write_subs = true;
    assert_eq!(expect_err(&raw), ConfigError::SimulateWithWriteRequest);
    let mut raw2 = plain(URL);
    raw2.simulate = true;
    raw2.keep_video = Some("/tmp/video.mp4".to_string());
    assert_eq!(expect_err(&raw2), ConfigError::SimulateWithWriteRequest);
}

#[test]
fn quiet_conflicts_with_verbose() {
    let mut raw = plain(URL);
    raw.quiet = true;
    raw.verbose = 1;
    assert_eq!(expect_err(&raw), ConfigError::QuietWithVerbose);
}

#[test]
fn proxy_conflicts_with_no_proxy() {
    let mut raw = plain(URL);
    raw.proxy = Some("socks5://example.net/".to_string());
    raw.no_proxy = true;
    assert_eq!(expect_err(&raw), ConfigError::ProxyWithNoProxy);
}

#[test]
fn username_needs_a_password() {
    let mut raw = plain(URL);
    raw.auth_username = Some("myuser".to_string());
    assert_eq!(resolve(&raw).unwrap().0.auth, None);
    raw.auth_password = Some("mypassword".to_string());
    let (d, _) = resolve(&raw).unwrap();
    assert_eq!(d.auth, Some(("myuser".to_string(), "mypassword".to_string())));
}

#[test]
fn timeout_default_and_fallback() {
    let mut raw = plain(URL);
    raw.timeout = Some("5".to_string());
    let (d, ws) = resolve(&raw).unwrap();
    assert_eq!(d.timeout_secs, 5);
    assert!(ws.is_empty());
    raw.timeout = Some("soon".to_string());
    let (d, ws) = resolve(&raw).unwrap();
    assert_eq!(d.timeout_secs, 30);
    assert!(ws.contains(&Warning::InvalidTimeout));
}

#[test]
fn rate_limit_resolution() {
    let mut raw = plain(URL);
    raw.limit_rate = Some("1M".to_string());
    let (d, ws) = resolve(&raw).unwrap();
    assert_eq!(d.rate_limit, Some(1024 * 1024));
    assert!(ws.is_empty());

    raw.limit_rate = Some("42Z".to_string());
    let (d, ws) = resolve(&raw).unwrap();
    assert_eq!(d.rate_limit, None);
    assert!(ws.contains(&Warning::InvalidRate));

    raw.limit_rate = Some("0".to_string());
    let (d, ws) = resolve(&raw).unwrap();
    assert_eq!(d.rate_limit, None);
    assert!(ws.contains(&Warning::NonPositiveRate));
}

#[test]
fn bad_keys_are_dropped_good_ones_kept() {
    let mut raw = plain(URL);
    raw.keys = vec![
        "eb676abbcb345e96bbcf616630f1a3da:100b6c20940f779a4589152b57d2dacb".to_string(),
        "short:deadbeef".to_string(),
        "43215678123412341234123412341236:12341234123412341234123412341236".to_string(),
    ];
    let (d, ws) = resolve(&raw).unwrap();
    assert_eq!(d.keys.len(), 2);
    assert_eq!(d.keys[0].0, "eb676abbcb345e96bbcf616630f1a3da");
    assert_eq!(d.keys[0].1, "100b6c20940f779a4589152b57d2dacb");
    assert_eq!(d.keys[1].0, "43215678123412341234123412341236");
    assert!(ws.contains(&Warning::MalformedKey));
}

#[test]
fn headers_last_write_wins() {
    let mut raw = plain(URL);
    raw.curl_headers = vec![
        "X-Twizzles: extra".to_string(),
        "A:1".to_string(),
        "just words".to_string(),
    ];
    raw.add_headers = vec![
        "X-FOOBLES:b\u{f8}zzles".to_string(),
        "A:2".to_string(),
        "A:3".to_string(),
        "bad header".to_string(),
        ":empty".to_string(),
    ];
    let (d, ws) = resolve(&raw).unwrap();
    assert_eq!(d.headers.get("X-Twizzles").map(|s| s.as_str()), Some("extra"));
    assert_eq!(d.headers.get("X-FOOBLES").map(|s| s.as_str()), Some("b\u{f8}zzles"));
    assert_eq!(d.headers.get("A").map(|s| s.as_str()), Some("3"));
    assert_eq!(d.headers.get("absent"), None);
    assert_eq!(d.headers.len(), 3);
    assert!(ws.contains(&Warning::MalformedHeader));
    assert!(ws.contains(&Warning::MalformedAddHeader));
    assert!(ws.contains(&Warning::EmptyHeaderName));
}

#[test]
fn muxer_and_concat_preferences() {
    let mut raw = plain(URL);
    raw.muxer_preferences = vec!["mkv:mkvmerge".to_string(), "bad".to_string()];
    raw.concat_preferences = vec!["mp4:ffmpeg,mp4box".to_string(), "nocolon".to_string()];
    let (d, ws) = resolve(&raw).unwrap();
    assert_eq!(d.muxer_preferences.len(), 1);
    assert_eq!(d.muxer_preferences[0].0, "mkv");
    assert_eq!(d.muxer_preferences[0].1, vec!["mkvmerge".to_string()]);
    assert_eq!(d.concat_preferences.len(), 1);
    assert_eq!(d.concat_preferences[0].1, vec!["ffmpeg".to_string(), "mp4box".to_string()]);
    assert!(ws.contains(&Warning::MalformedMuxerPreference));
    assert!(ws.contains(&Warning::MalformedConcatPreference));
}

#[test]
fn role_preference_splits_on_commas() {
    let mut raw = plain(URL);
    raw.role_preference = Some("alternate,main".to_string());
    let (d, _) = resolve(&raw).unwrap();
    assert_eq!(d.role_preference, vec!["alternate".to_string(), "main".to_string()]);
}

#[test]
fn rewrites_keep_command_line_order() {
    let mut raw = plain(URL);
    raw.rewrites = vec![
        RewriteInput::Stylesheet("s1.xslt".to_string()),
        RewriteInput::DropElements("//node()[local-name()='AdaptationSet']".to_string()),
        RewriteInput::Stylesheet("s2.xslt".to_string()),
    ];
    let (d, _) = resolve(&raw).unwrap();
    assert_eq!(d.rewrites.len(), 3);
    match &d.rewrites[0] {
        RewriteRule::File(p) => assert_eq!(p, "s1.xslt"),
        _ => panic!("an explicit stylesheet must pass through"),
    }
    match &d.rewrites[1] {
        RewriteRule::Generated(text) => {
            assert!(text.contains("//node()[local-name()='AdaptationSet']"));
            assert!(text.starts_with("<?xml version=\"1.0\" encoding=\"utf-8\"?>"));
            assert!(text.ends_with("</xsl:stylesheet>"));
            assert!(text.contains("<xsl:template match=\"@*|node()\">"));
        },
        _ => panic!("a removal expression must become a generated stylesheet"),
    }
    match &d.rewrites[2] {
        RewriteRule::File(p) => assert_eq!(p, "s2.xslt"),
        _ => panic!("an explicit stylesheet must pass through"),
    }
}

#[test]
fn quiet_or_no_progress_silences_the_bar() {
    let mut raw = plain(URL);
    raw.no_progress = true;
    assert_eq!(resolve(&raw).unwrap().0.progress, ProgressMode::Quiet);
    let mut raw2 = plain(URL);
    raw2.quiet = true;
    assert_eq!(resolve(&raw2).unwrap().0.progress, ProgressMode::Quiet);
}
