//! The certificate authority's registry and the credential path helpers.

use ssf_ds::pki::get_ca_credential_paths;
use ssf_ds::pki::get_ds_server_credential_paths;
use ssf_ds::pki::get_pki_server_credential_paths;
use ssf_ds::pki::PkiDirectory;

#[test]
fn credential_paths_are_fixed() {
    let (ca_cert, ca_keys) = get_ca_credential_paths();
    assert_eq!(ca_cert, "private/ca/ca_cert.pem".to_string());
    assert_eq!(ca_keys, "private/ca/ca_keys.pem".to_string());
    let (pki_cert, pki_keys) = get_pki_server_credential_paths();
    assert_eq!(pki_cert, "private/server/server_cert.pem".to_string());
    assert_eq!(pki_keys, "private/server/server_keys.pem".to_string());
    let (ds_cert, ds_keys) = get_ds_server_credential_paths();
    assert_eq!(ds_cert, "private/ds/ds_cert.pem".to_string());
    assert_eq!(ds_keys, "private/ds/ds_keys.pem".to_string());
}

#[test]
fn register_binds_email_to_request_and_is_unique() {
    let mut registry = PkiDirectory::new();
    let csr_emails = vec!["a@test.com".to_string()];
    let email = "a@test.com".to_string();
    let other = "b@test.com".to_string();
    let pem = "-----BEGIN CERTIFICATE-----".to_string();
    // Registering under an email the request does not carry is refused.
    assert!(registry.register(&csr_emails, &other, &pem).is_err());
    // Registering under the request's email works once.
    let issued = registry.register(&csr_emails, &email, &pem).unwrap();
    assert_eq!(issued.certificate, pem);
    assert!(registry.register(&csr_emails, &email, &pem).is_err());
    // The issued certificate can be looked up again.
    let found = registry.get_certificate_by_email(&email).unwrap();
    assert_eq!(found.certificate, pem);
    assert_eq!(found.email, email);
    assert!(registry.get_certificate_by_email(&other).is_err());
}
