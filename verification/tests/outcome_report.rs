//! Certificate and identity loading, outcome mapping, and the live-stream
//! hint inspection.

use dash_mpd_cli::net::{certificate_error_message, load_client_identity, load_root_certificate};
use dash_mpd_cli::outcome::{
    contains_str, error_suggests_live_stream, exit_code, process_exit_code, Fatal, ProcessOutcome,
};

const CERT_PEM: &str = "-----BEGIN CERTIFICATE-----\nMIIBfDCCASOgAwIBAgIUdWIMWDOaFYSEGbivfM66mnKTFaUwCgYIKoZIzj0EAwIw\nFDESMBAGA1UEAwwJbG9jYWxob3N0MB4XDTI2MTAxMjA3Mzg0N1oXDTM2MTAwOTA3\nMzg0N1owFDESMBAGA1UEAwwJbG9jYWxob3N0MFkwEwYHKoZIzj0CAQYIKoZIzj0D\nAQcDQgAEc9rpxfVsrd/yyXPmY2Gihf9PO0BSRrqJ+2I4/JdLu073tug4fyfvi5FW\n7De+48yOQojKAniSFSvF4epuPt9c1aNTMFEwHQYDVR0OBBYEFPjNd30mu8WmrFb2\nfM38YKmJeGGoMB8GA1UdIwQYMBaAFPjNd30mu8WmrFb2fM38YKmJeGGoMA8GA1Ud\nEwEB/wQFMAMBAf8wCgYIKoZIzj0EAwIDRwAwRAIgfISj+hUPwr6yXhSJOwnCTHne\nl4uWFTuzW6qPB7FtBUACIAvC5pt4qxHGV31vESdZjkpUCn+DS1sjKSum7vGZvsR5\n-----END CERTIFICATE-----\n";

#[test]
fn missing_root_certificate_is_exit_five() {
    let r = load_root_certificate(None);
    match r {
        Err(f) => {
            assert_eq!(f, Fatal::RootCertificateRead);
            assert_eq!(exit_code(f), 5);
            let msg = certificate_error_message(f, "/missing/file");
            assert!(msg.contains("/missing/file"));
            assert!(msg.contains("Can't read root certificate"));
        },
        Ok(_) => panic!("a certificate appeared out of nothing"),
    }
}

#[test]
fn valid_root_certificate_loads() {
    let r = load_root_certificate(Some(CERT_PEM.as_bytes().to_vec()));
    assert!(r.is_ok());
}

#[test]
fn missing_client_identity_is_exit_seven() {
    match load_client_identity(None) {
        Err(f) => {
            assert_eq!(f, Fatal::ClientIdentityRead);
            assert_eq!(exit_code(f), 7);
        },
        Ok(_) => panic!("an identity appeared out of nothing"),
    }
}

#[test]
fn garbage_client_identity_is_exit_eight() {
    match load_client_identity(Some(b"not a pem file".to_vec())) {
        Err(f) => {
            assert_eq!(f, Fatal::ClientIdentityDecode);
            assert_eq!(exit_code(f), 8);
            let msg = certificate_error_message(f, "/some/id.pem");
            assert!(msg.contains("/some/id.pem"));
        },
        Ok(_) => panic!("garbage decoded as an identity"),
    }
    // A certificate chain alone is not an identity either: the one PEM
    // section it holds is no private key.
    match load_client_identity(Some(CERT_PEM.as_bytes().to_vec())) {
        Err(f) => assert_eq!(f, Fatal::ClientIdentityDecode),
        Ok(_) => panic!("a keyless chain decoded as an identity"),
    }
}


#[test]
fn exit_codes_are_the_documented_ones() {
    assert_eq!(exit_code(Fatal::DownloadFailed), 2);
    assert_eq!(exit_code(Fatal::RootCertificateRead), 5);
    assert_eq!(exit_code(Fatal::RootCertificateDecode), 6);
    assert_eq!(exit_code(Fatal::ClientIdentityRead), 7);
    assert_eq!(exit_code(Fatal::ClientIdentityDecode), 8);
    assert_eq!(exit_code(Fatal::InvalidBaseUrl), 9);
    assert_eq!(process_exit_code(&ProcessOutcome::Success), 0);
    assert_eq!(process_exit_code(&ProcessOutcome::CookieSourcesListed), 3);
    assert_eq!(process_exit_code(&ProcessOutcome::Failed(Fatal::DownloadFailed)), 2);
}

#[test]
fn live_stream_hint_is_recognized() {
    assert!(error_suggests_live_stream(
        "download of this manifest failed: see the docs on how to download dynamic MPD content"
    ));
    assert!(!error_suggests_live_stream("connection reset by peer"));
    assert!(!error_suggests_live_stream(""));
}

#[test]
fn substring_search_finds_at_edges() {
    assert!(contains_str("abc", "abc"));
    assert!(contains_str("abc", ""));
    assert!(contains_str("abcdef", "def"));
    assert!(contains_str("abcdef", "abc"));
    assert!(!contains_str("abcdef", "deg"));
    assert!(!contains_str("ab", "abc"));
}
