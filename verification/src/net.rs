//! The network library's pure decisions that this crate relies on: URL
//! acceptance and PEM decoding. Each is a function of its input text alone;
//! the verified configuration code builds on these contracts.

use vstd::prelude::*;
use crate::outcome::Fatal;

verus! {

/// Whether the URL library accepts a string as an absolute URL.
pub uninterp spec fn url_accepted(s: Seq<char>) -> bool;

/// Relies on url::Url::parse: whether a string parses as an absolute URL
/// depends on the string alone.
#[verifier::external_body]
pub(crate) fn is_valid_url(s: &str) -> (r: bool)
    ensures
        r == url_accepted(s@),
{
    url::Url::parse(s).is_ok()
}

#[verifier::external_type_specification]
#[verifier::external_body]
pub struct ExCertificate(reqwest::Certificate);

#[verifier::external_type_specification]
#[verifier::external_body]
pub struct ExIdentity(reqwest::Identity);

/// Whether the TLS layer accepts a byte buffer as a PEM root certificate.
pub uninterp spec fn pem_certificate_accepted(b: Seq<u8>) -> bool;

/// Whether the TLS layer accepts a byte buffer as a PEM client identity
/// (private key plus certificate chain).
pub uninterp spec fn pem_identity_accepted(b: Seq<u8>) -> bool;

/// Relies on reqwest::Certificate::from_pem: acceptance of a PEM buffer
/// depends on the bytes alone.
#[verifier::external_body]
pub(crate) fn certificate_from_pem(pem: &Vec<u8>) -> (r: Option<reqwest::Certificate>)
    ensures
        r is Some == pem_certificate_accepted(pem@),
{
    reqwest::Certificate::from_pem(pem).ok()
}

/// Relies on reqwest::Identity::from_pem: acceptance of a PEM buffer depends
/// on the bytes alone.
#[verifier::external_body]
pub(crate) fn identity_from_pem(pem: &Vec<u8>) -> (r: Option<reqwest::Identity>)
    ensures
        r is Some == pem_identity_accepted(pem@),
{
    reqwest::Identity::from_pem(pem).ok()
}

/// Decodes one root certificate from the bytes of a PEM file, or says which
/// fatal condition the caller must report: an unreadable file (the caller
/// passes no bytes) or an undecodable one.
pub fn load_root_certificate(read: Option<Vec<u8>>) -> (r: Result<reqwest::Certificate, Fatal>)
    ensures
        match r {
            Ok(_) => read matches Some(b) && pem_certificate_accepted(b@),
            Err(f) => match read {
                None => f == Fatal::RootCertificateRead,
                Some(b) => f == Fatal::RootCertificateDecode && !pem_certificate_accepted(b@),
            },
        },
{
    match read {
        None => Err(Fatal::RootCertificateRead),
        Some(pem) => match certificate_from_pem(&pem) {
            Some(c) => Ok(c),
            None => Err(Fatal::RootCertificateDecode),
        },
    }
}

/// Decodes a client identity from the bytes of a PEM file, or says which
/// fatal condition the caller must report.
pub fn load_client_identity(read: Option<Vec<u8>>) -> (r: Result<reqwest::Identity, Fatal>)
    ensures
        match r {
            Ok(_) => read matches Some(b) && pem_identity_accepted(b@),
            Err(f) => match read {
                None => f == Fatal::ClientIdentityRead,
                Some(b) => f == Fatal::ClientIdentityDecode && !pem_identity_accepted(b@),
            },
        },
{
    match read {
        None => Err(Fatal::ClientIdentityRead),
        Some(pem) => match identity_from_pem(&pem) {
            Some(c) => Ok(c),
            None => Err(Fatal::ClientIdentityDecode),
        },
    }
}

/// The diagnostic line owed when a certificate or identity cannot be loaded:
/// it names the failure and carries the path it concerns.
pub fn certificate_error_message(f: Fatal, path: &str) -> (r: String)
    ensures
        r@ == match f {
            Fatal::RootCertificateRead => "Can't read root certificate "@ + path@,
            Fatal::RootCertificateDecode => "Can't decode root certificate "@ + path@,
            Fatal::ClientIdentityRead => "Can't read client certificate "@ + path@,
            Fatal::ClientIdentityDecode => "Can't decode client certificate "@ + path@,
            _ => path@,
        },
{
    let mut m: String = match f {
        Fatal::RootCertificateRead => "Can't read root certificate ".to_owned(),
        Fatal::RootCertificateDecode => "Can't decode root certificate ".to_owned(),
        Fatal::ClientIdentityRead => "Can't read client certificate ".to_owned(),
        Fatal::ClientIdentityDecode => "Can't decode client certificate ".to_owned(),
        _ => {
            return path.to_owned();
        },
    };
    m.append(path);
    m
}

} // verus!
