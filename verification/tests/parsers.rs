//! The unit parsers: rates with magnitude suffixes, colon-delimited pairs,
//! decimal numbers, and list splitting.

use dash_mpd_cli::digits::parse_decimal_u64;
use dash_mpd_cli::pairs::{
    parse_container_preference, parse_curl_header, parse_header_pair, parse_key_pair,
};
use dash_mpd_cli::rate::parse_rate;
use dash_mpd_cli::text::split_list;

#[test]
fn rate_with_each_suffix() {
    assert_eq!(parse_rate("200K"), Some(200 * 1024));
    assert_eq!(parse_rate("200k"), Some(200 * 1024));
    assert_eq!(parse_rate("1M"), Some(1024 * 1024));
    assert_eq!(parse_rate("1m"), Some(1024 * 1024));
    assert_eq!(parse_rate("2G"), Some(2 * 1024 * 1024 * 1024));
    assert_eq!(parse_rate("2g"), Some(2 * 1024 * 1024 * 1024));
    assert_eq!(parse_rate("3T"), Some(3 * 1024 * 1024 * 1024 * 1024));
    assert_eq!(parse_rate("3t"), Some(3 * 1024 * 1024 * 1024 * 1024));
}

#[test]
fn rate_without_suffix_is_plain_bytes() {
    assert_eq!(parse_rate("200"), Some(200));
    assert_eq!(parse_rate("0"), Some(0));
    assert_eq!(parse_rate("007"), Some(7));
}

#[test]
fn fractional_rates_round_down() {
    assert_eq!(parse_rate("0.4G"), Some(429496729));
    assert_eq!(parse_rate("1.5k"), Some(1536));
    assert_eq!(parse_rate(".5k"), Some(512));
    assert_eq!(parse_rate("5."), Some(5));
    assert_eq!(parse_rate("0.3"), Some(0));
}

#[test]
fn unrecognized_suffix_gives_no_rate() {
    assert_eq!(parse_rate("42Z"), None);
    assert_eq!(parse_rate("42 K"), None);
    assert_eq!(parse_rate("abc"), None);
    assert_eq!(parse_rate(""), None);
    assert_eq!(parse_rate("-1M"), None);
    assert_eq!(parse_rate("1..2"), None);
    assert_eq!(parse_rate("."), None);
    assert_eq!(parse_rate("K"), None);
}

#[test]
fn oversized_rate_gives_no_value() {
    assert_eq!(parse_rate("99999999999999999999999"), None);
    assert_eq!(parse_rate("18446744073709551615"), Some(u64::MAX));
    assert_eq!(parse_rate("18446744073709551616"), None);
    assert_eq!(parse_rate("20000000000000000P"), None);
}

#[test]
fn decimal_u64_parsing() {
    assert_eq!(parse_decimal_u64("30"), Some(30));
    assert_eq!(parse_decimal_u64("007"), Some(7));
    assert_eq!(parse_decimal_u64("0"), Some(0));
    assert_eq!(parse_decimal_u64(""), None);
    assert_eq!(parse_decimal_u64("12a"), None);
    assert_eq!(parse_decimal_u64("-1"), None);
    assert_eq!(parse_decimal_u64("18446744073709551615"), Some(u64::MAX));
    assert_eq!(parse_decimal_u64("18446744073709551616"), None);
}

#[test]
fn header_pair_splits_at_first_colon_only() {
    assert_eq!(
        parse_header_pair("X-FOOBLES:b\u{f8}zzles"),
        Some(("X-FOOBLES".to_string(), "b\u{f8}zzles".to_string()))
    );
    assert_eq!(parse_header_pair("a:b:c"), Some(("a".to_string(), "b:c".to_string())));
    assert_eq!(parse_header_pair("name:"), Some(("name".to_string(), "".to_string())));
    assert_eq!(parse_header_pair(":value"), Some(("".to_string(), "value".to_string())));
    assert_eq!(parse_header_pair("no colon here"), None);
    assert_eq!(parse_header_pair(""), None);
}

#[test]
fn curl_header_trims_one_space() {
    assert_eq!(
        parse_curl_header("X-Twizzles: extra"),
        Some(("X-Twizzles".to_string(), "extra".to_string()))
    );
    assert_eq!(parse_curl_header("X:  two"), Some(("X".to_string(), " two".to_string())));
    assert_eq!(parse_curl_header("X:novalue"), Some(("X".to_string(), "novalue".to_string())));
    assert_eq!(parse_curl_header("bad header"), None);
}

#[test]
fn key_pair_needs_a_32_hex_digit_key() {
    assert_eq!(
        parse_key_pair("eb676abbcb345e96bbcf616630f1a3da:100b6c20940f779a4589152b57d2dacb"),
        Some((
            "eb676abbcb345e96bbcf616630f1a3da".to_string(),
            "100b6c20940f779a4589152b57d2dacb".to_string()
        ))
    );
    assert_eq!(
        parse_key_pair("1:100B6C20940F779A4589152B57D2DACB"),
        Some(("1".to_string(), "100B6C20940F779A4589152B57D2DACB".to_string()))
    );
    assert_eq!(parse_key_pair("short:deadbeef"), None);
    assert_eq!(parse_key_pair("kid:zzzzzzzzzzzzzzzzzzzzzzzzzzzzzzzz"), None);
    assert_eq!(parse_key_pair("nocolon"), None);
    assert_eq!(parse_key_pair("kid:100b6c20940f779a4589152b57d2dacb0"), None);
}

#[test]
fn container_preference_orders_applications() {
    assert_eq!(
        parse_container_preference("mkv:ffmpeg"),
        Some(("mkv".to_string(), vec!["ffmpeg".to_string()]))
    );
    assert_eq!(
        parse_container_preference("mp4:ffmpeg,vlc,mp4box"),
        Some((
            "mp4".to_string(),
            vec!["ffmpeg".to_string(), "vlc".to_string(), "mp4box".to_string()]
        ))
    );
    assert_eq!(parse_container_preference("nocolon"), None);
}

#[test]
fn list_splitting_keeps_order_and_empties() {
    assert_eq!(split_list("alternate,main", ','), vec!["alternate", "main"]);
    assert_eq!(split_list("main", ','), vec!["main"]);
    assert_eq!(split_list("", ','), vec![""]);
    assert_eq!(split_list("a,,b,", ','), vec!["a", "", "b", ""]);
}
