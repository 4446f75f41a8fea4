//! Certificate identity extraction and signature checking, against real
//! certificates minted on the fly.

use ssf_ds::crypto::check_signature;
use ssf_ds::crypto::retrieve_emails_from_certificate;
use ssf_ds::pki::verify;
use ssf_ds::pki::VerifyRequest;
use ssf_ds::server::CertificateWithEmails;
use ssf_ds::server::CreateUserRequest;
use ssf_ds::server::ServerState;

fn make_ca() -> (String, rcgen::Issuer<'static, rcgen::KeyPair>) {
    let ca_key = rcgen::KeyPair::generate().unwrap();
    let mut ca_params = rcgen::CertificateParams::new(Vec::<String>::new()).unwrap();
    ca_params.is_ca = rcgen::IsCa::Ca(rcgen::BasicConstraints::Unconstrained);
    let ca_cert = ca_params.self_signed(&ca_key).unwrap();
    let ca_pem = ca_cert.pem();
    (ca_pem, rcgen::Issuer::new(ca_params, ca_key))
}

fn make_client_cert(issuer: &rcgen::Issuer<'static, rcgen::KeyPair>, email: &str) -> String {
    let client_key = rcgen::KeyPair::generate().unwrap();
    let mut params = rcgen::CertificateParams::new(Vec::<String>::new()).unwrap();
    params.subject_alt_names =
        vec![rcgen::SanType::Rfc822Name(email.try_into().unwrap())];
    params.signed_by(&client_key, issuer).unwrap().pem()
}

#[test]
fn test_valid_signed_cert() {
    let (_ca_pem, issuer) = make_ca();
    let cert_pem = make_client_cert(&issuer, "test@test.com");
    let emails = retrieve_emails_from_certificate(&cert_pem).unwrap();
    assert!(emails.contains(&"test@test.com".to_string()));
}

#[test]
fn certificate_identity_feeds_registration() {
    let (_ca_pem, issuer) = make_ca();
    let cert_pem = make_client_cert(&issuer, "holder@test.com");
    let cert: CertificateWithEmails = CertificateWithEmails::from_pem(&cert_pem).unwrap();
    assert_eq!(cert.emails, vec!["holder@test.com".to_string()]);
    // The extracted identity is exactly what registration accepts.
    let mut server = ServerState::new();
    let req = CreateUserRequest { email: "holder@test.com".to_string() };
    assert_eq!(server.create_user(&cert, &req).status(), 201);
    let wrong = CreateUserRequest { email: "intruder@test.com".to_string() };
    assert_eq!(server.create_user(&cert, &wrong).status(), 400);
}

#[test]
fn from_pem_rejects_unusable_identities() {
    assert!(CertificateWithEmails::from_pem("not a certificate").is_err());
    // A certificate without any RFC822 name carries no identity.
    let (_ca_pem, issuer) = make_ca();
    let anonymous_key = rcgen::KeyPair::generate().unwrap();
    let anonymous_params = rcgen::CertificateParams::new(Vec::<String>::new()).unwrap();
    let anonymous_pem = anonymous_params.signed_by(&anonymous_key, &issuer).unwrap().pem();
    assert!(CertificateWithEmails::from_pem(&anonymous_pem).is_err());
}

#[test]
fn signature_checks_against_the_right_authority() {
    let (ca_pem, issuer) = make_ca();
    let (other_ca_pem, _other_issuer) = make_ca();
    let cert_pem = make_client_cert(&issuer, "signed@test.com");
    assert_eq!(check_signature(&cert_pem, &ca_pem).unwrap(), true);
    assert_eq!(check_signature(&cert_pem, &other_ca_pem).unwrap(), false);
    assert!(check_signature("garbage", &ca_pem).is_err());
    // The authority's verification endpoint gives the same answers.
    let good = VerifyRequest { certificate: cert_pem.clone() };
    assert!(verify(&good, &ca_pem).valid);
    assert!(!verify(&good, &other_ca_pem).valid);
    let bad = VerifyRequest { certificate: "garbage".to_string() };
    assert!(!verify(&bad, &ca_pem).valid);
}
