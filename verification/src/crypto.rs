//! Certificate parsing and signature checking.
//!
//! Identity in this system is anchored in X.509 certificates: a client is
//! whoever the RFC822 names of its certificate say it is.  The parsing and
//! the cryptography are done by outside code; each call stands behind a
//! trusted wrapper whose contract names the result, and everything decided
//! on those results is verified.

use vstd::prelude::*;

use crate::rows::email_views;
use crate::server::CertificateWithEmails;

verus! {

/// The RFC822 names in the subject-alternative-name extension of a
/// PEM-encoded certificate, in certificate order, or nothing when the text
/// is not a certificate.  The result depends on the text alone.
pub uninterp spec fn cert_emails_of(pem_certificate: Seq<char>) -> Option<Seq<Seq<char>>>;

/// Whether the first certificate is signed by the holder of the second
/// certificate's public key, or nothing when either text is not a
/// certificate.  The result depends on the two texts alone.
pub uninterp spec fn signature_valid(certificate: Seq<char>, issuer: Seq<char>) -> Option<bool>;

/// Relies on x509_parser: `parse_x509_pem`, `Pem::parse_x509` and
/// `X509Certificate::subject_alternative_name` to read the RFC822 names of
/// a certificate; the parse is a function of the input text.
#[verifier::external_body]
pub fn retrieve_emails_from_certificate(pem_certificate: &str) -> (r: Result<Vec<String>, String>)
    ensures
        match r {
            Ok(emails) => cert_emails_of(pem_certificate@) == Some(email_views(emails@)),
            Err(_) => cert_emails_of(pem_certificate@) is None,
        },
{
    let (_, pem) = x509_parser::pem::parse_x509_pem(pem_certificate.as_bytes()).map_err(
        |e| e.to_string(),
    )?;
    let certificate = pem.parse_x509().map_err(|e| e.to_string())?;
    let san = certificate.subject_alternative_name().map_err(|e| e.to_string())?;
    let mut emails: Vec<String> = Vec::new();
    if let Some(extension) = san {
        for general_name in &extension.value.general_names {
            if let x509_parser::extensions::GeneralName::RFC822Name(email) = general_name {
                emails.push(email.to_string());
            }
        }
    }
    Ok(emails)
}

/// Relies on pem::parse and x509_parser: `X509Certificate::from_der` via
/// `parse_x509_certificate` and `verify_signature` against the issuer's
/// public key; validity is a function of the two texts.
#[verifier::external_body]
pub fn check_signature(certificate: &str, issuer: &str) -> (r: Result<bool, String>)
    ensures
        match r {
            Ok(valid) => signature_valid(certificate@, issuer@) == Some(valid),
            Err(_) => signature_valid(certificate@, issuer@) is None,
        },
{
    let der = pem::parse(certificate).map_err(|e| e.to_string())?;
    let (_, cert) = x509_parser::parse_x509_certificate(der.contents()).map_err(
        |e| e.to_string(),
    )?;
    let issuer_der = pem::parse(issuer).map_err(|e| e.to_string())?;
    let (_, issuer_cert) = x509_parser::parse_x509_certificate(issuer_der.contents()).map_err(
        |e| e.to_string(),
    )?;
    Ok(cert.verify_signature(Some(issuer_cert.public_key())).is_ok())
}

impl CertificateWithEmails {
    /// The identity a PEM certificate presents: its RFC822 names.  A text
    /// that is no certificate, or a certificate without any RFC822 name,
    /// carries no usable identity and is rejected.
    pub fn from_pem(pem_certificate: &str) -> (r: Result<CertificateWithEmails, String>)
        ensures
            r is Ok <==> (cert_emails_of(pem_certificate@) matches Some(emails) && emails.len()
                > 0),
            r matches Ok(c) ==> Some(email_views(c.emails@)) == cert_emails_of(pem_certificate@),
    {
        match retrieve_emails_from_certificate(pem_certificate) {
            Err(e) => Err(e),
            Ok(emails) => {
                if emails.len() == 0 {
                    Err(String::from_str("the certificate carries no RFC822 name"))
                } else {
                    Ok(CertificateWithEmails { emails })
                }
            },
        }
    }
}

} // verus!
