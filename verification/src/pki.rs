//! The certificate authority's registry and request types, and the paths
//! under which the services keep their credentials on disk.
//!
//! Key generation and signing are cryptographic work done outside the crate;
//! what is verified here is the registry's bookkeeping and the one decision
//! the authority makes before signing: the email a client registers under
//! must be among the emails of its certificate request, and each email is
//! issued at most one certificate.

use vstd::prelude::*;

use crate::db::contains_email;
use crate::db::has_email;
use crate::errors::DbError;
use crate::rows::email_views;

verus! {

/// A certificate issued to a registered email.
pub struct CertificateEntity {
    pub id: u64,
    pub email: String,
    pub certificate: String,
}

/// View of an issued certificate.
pub struct CertificateRow {
    pub id: u64,
    pub email: Seq<char>,
    pub certificate: Seq<char>,
}

impl View for CertificateEntity {
    type V = CertificateRow;

    open spec fn view(&self) -> CertificateRow {
        CertificateRow { id: self.id, email: self.email@, certificate: self.certificate@ }
    }
}

/// The row views of the certificate table.
pub open spec fn certificate_views(s: Seq<CertificateEntity>) -> Seq<CertificateRow> {
    Seq::new(s.len(), |i: int| s[i]@)
}

/// The certificate registered for an email, if any.
pub open spec fn certificate_of(s: Seq<CertificateRow>, email: Seq<char>) -> Option<Seq<char>>
    decreases s.len(),
{
    if s.len() == 0 {
        None
    } else if s.last().email == email {
        Some(s.last().certificate)
    } else {
        certificate_of(s.drop_last(), email)
    }
}

/// Body of a registration: the PEM certificate request and the email it is
/// for.
pub struct RegisterRequest {
    pub certificate_request: String,
    pub email: String,
}

/// Body of a credential lookup.
pub struct GetCredentialRequest {
    pub email: String,
}

/// Body of a verification call: the PEM certificate to check.
pub struct VerifyRequest {
    pub certificate: String,
}

/// Response carrying a PEM certificate.
pub struct GetCredentialResponse {
    pub certificate: String,
}

/// Response to a registration: the freshly signed PEM certificate.
pub struct RegisterResponse {
    pub certificate: String,
}

/// Response to a verification call.
pub struct VerifyResponse {
    pub valid: bool,
}

/// The authority's registry of issued certificates.
pub struct PkiDirectory {
    pub certificates: Vec<CertificateEntity>,
    pub next_id: u64,
}

impl PkiDirectory {
    /// The row views of the certificate table.
    pub open spec fn certificates_v(self) -> Seq<CertificateRow> {
        certificate_views(self.certificates@)
    }

    /// Emails are unique: each is issued at most one certificate.
    pub open spec fn wf(self) -> bool {
        &&& forall|i: int, j: int|
            0 <= i < j < self.certificates_v().len() ==> (#[trigger] self.certificates_v()[i]).email
                != (#[trigger] self.certificates_v()[j]).email
        &&& forall|i: int|
            0 <= i < self.certificates_v().len() ==> (#[trigger] self.certificates_v()[i]).id
                < self.next_id
    }

    /// An empty registry.
    pub fn new() -> (d: PkiDirectory)
        ensures
            d.wf(),
            d.certificates_v().len() == 0,
            d.next_id == 1,
    {
        PkiDirectory { certificates: Vec::new(), next_id: 1 }
    }

    /// Looks the issued certificate of an email up.
    pub fn get_certificate_by_email(&self, email: &String) -> (r: Result<
        CertificateEntity,
        DbError,
    >)
        ensures
            r is Ok <==> certificate_of(self.certificates_v(), email@) is Some,
            r matches Ok(c) ==> c.email@ == email@ && Some(c.certificate@) == certificate_of(
                self.certificates_v(),
                email@,
            ),
            r is Err ==> r == Err::<CertificateEntity, DbError>(DbError::RowNotFound),
    {
        let ghost full = self.certificates_v();
        proof {
            assert(full.take(full.len() as int) =~= full);
        }
        let mut i: usize = self.certificates.len();
        while i > 0
            invariant
                i <= full.len(),
                full == self.certificates_v(),
                certificate_of(full, email@) == certificate_of(full.take(i as int), email@),
            decreases i,
        {
            proof {
                assert(full.take(i as int).drop_last() =~= full.take(i - 1));
                assert(full.take(i as int).last() == full[i - 1]);
            }
            i = i - 1;
            if self.certificates[i].email == *email {
                return Ok(
                    CertificateEntity {
                        id: self.certificates[i].id,
                        email: self.certificates[i].email.clone(),
                        certificate: self.certificates[i].certificate.clone(),
                    },
                );
            }
        }
        proof {
            assert(full.take(0) =~= Seq::<CertificateRow>::empty());
        }
        Err(DbError::RowNotFound)
    }

    /// Stores a freshly issued certificate; each email may only register
    /// once.
    pub fn insert_certificate(&mut self, email: &String, certificate: &String) -> (r: Result<
        (),
        DbError,
    >)
        requires
            old(self).wf(),
        ensures
            final(self).wf(),
            r is Ok <==> certificate_of(old(self).certificates_v(), email@) is None && old(
                self,
            ).next_id < u64::MAX,
            r is Ok ==> final(self).certificates_v() == old(self).certificates_v().push(
                CertificateRow {
                    id: old(self).next_id,
                    email: email@,
                    certificate: certificate@,
                },
            ) && final(self).next_id == old(self).next_id + 1,
            r is Err ==> *final(self) == *old(self),
            r matches Err(e) ==> (e is RowNotFound <==> certificate_of(
                old(self).certificates_v(),
                email@,
            ) is Some),
    {
        let existing = self.get_certificate_by_email(email);
        if existing.is_ok() {
            return Err(DbError::RowNotFound);
        }
        if self.next_id == u64::MAX {
            return Err(DbError::Internal);
        }
        let ghost pre = *self;
        let id = self.next_id;
        self.certificates.push(
            CertificateEntity { id, email: email.clone(), certificate: certificate.clone() },
        );
        self.next_id = id + 1;
        proof {
            assert(self.certificates_v() =~= pre.certificates_v().push(
                CertificateRow { id, email: email@, certificate: certificate@ },
            ));
            lemma_certificate_of_none(pre.certificates_v(), email@);
        }
        Ok(())
    }

    /// The authority's registration decision: the email must be among the
    /// emails of the certificate request, and must not be registered yet;
    /// only then is the signed certificate stored and returned.
    pub fn register(
        &mut self,
        csr_emails: &Vec<String>,
        email: &String,
        signed_certificate: &String,
    ) -> (r: Result<RegisterResponse, DbError>)
        requires
            old(self).wf(),
        ensures
            final(self).wf(),
            r is Ok <==> has_email(email_views(csr_emails@), email@) && certificate_of(
                old(self).certificates_v(),
                email@,
            ) is None && old(self).next_id < u64::MAX,
            r matches Ok(resp) ==> ({
                &&& resp.certificate@ == signed_certificate@
                &&& final(self).certificates_v() == old(self).certificates_v().push(
                    CertificateRow {
                        id: old(self).next_id,
                        email: email@,
                        certificate: signed_certificate@,
                    },
                )
            }),
            r is Err ==> *final(self) == *old(self),
    {
        if !contains_email(csr_emails, email) {
            return Err(DbError::RowNotFound);
        }
        match self.insert_certificate(email, signed_certificate) {
            Ok(_) => Ok(RegisterResponse { certificate: signed_certificate.clone() }),
            Err(e) => Err(e),
        }
    }
}

/// No certificate for an email means no row carries it.
proof fn lemma_certificate_of_none(s: Seq<CertificateRow>, email: Seq<char>)
    requires
        certificate_of(s, email) is None,
    ensures
        forall|i: int| 0 <= i < s.len() ==> (#[trigger] s[i]).email != email,
    decreases s.len(),
{
    if s.len() > 0 {
        lemma_certificate_of_none(s.drop_last(), email);
        assert forall|i: int| 0 <= i < s.len() implies (#[trigger] s[i]).email != email by {
            if i < s.len() - 1 {
                assert(s.drop_last()[i] == s[i]);
            }
        }
    }
}

/// The paths of the authority's certificate and key pair on disk.
pub fn get_ca_credential_paths() -> (r: (String, String))
    ensures
        r.0@ == "private/ca/ca_cert.pem"@,
        r.1@ == "private/ca/ca_keys.pem"@,
{
    (String::from_str("private/ca/ca_cert.pem"), String::from_str("private/ca/ca_keys.pem"))
}

/// The paths of the authority server's own TLS credentials on disk.
pub fn get_pki_server_credential_paths() -> (r: (String, String))
    ensures
        r.0@ == "private/server/server_cert.pem"@,
        r.1@ == "private/server/server_keys.pem"@,
{
    (
        String::from_str("private/server/server_cert.pem"),
        String::from_str("private/server/server_keys.pem"),
    )
}

/// The paths of the delivery service's TLS credentials on disk.
pub fn get_ds_server_credential_paths() -> (r: (String, String))
    ensures
        r.0@ == "private/ds/ds_cert.pem"@,
        r.1@ == "private/ds/ds_keys.pem"@,
{
    (String::from_str("private/ds/ds_cert.pem"), String::from_str("private/ds/ds_keys.pem"))
}


/// The authority's verification answer for a presented certificate: valid
/// exactly when the signature checks out against the authority's own
/// certificate; an unparsable input is simply not valid.
pub fn verify(request: &VerifyRequest, ca_certificate: &String) -> (r: VerifyResponse)
    ensures
        r.valid == (crate::crypto::signature_valid(request.certificate@, ca_certificate@) == Some(
            true,
        )),
{
    match crate::crypto::check_signature(request.certificate.as_str(), ca_certificate.as_str()) {
        Ok(valid) => VerifyResponse { valid },
        Err(_) => VerifyResponse { valid: false },
    }
}

} // verus!

