//! The request surface: every authenticated call is mapped onto the
//! relational state and the object store under access-control checks, and
//! every internal failure is translated to a response kind.
//!
//! A request flows through three steps: resolve the client certificate's
//! emails to exactly one registered user, authorize the user against the
//! folder's membership, act.  Non-members are answered with the same
//! not-found response as for a missing folder, so the surface never reveals
//! whether a folder exists.
//!
//! Notifications are returned to the caller as plain values; the transport
//! delivers them to connected subscribers after the call, so nothing is
//! announced that did not commit.

use vstd::prelude::*;

use crate::db::contains_email;
use crate::rows::email_views;
use crate::db::has_email;
use crate::db::is_member;
use crate::db::matching_users;
use crate::db::Directory;
use crate::db::same_but_users;
use crate::storage::find_object;
use crate::storage::metadata_name;
use crate::storage::DynamicStore;
use crate::db::FolderEntity;

verus! {

/// The identity a client presented over mutual TLS: the RFC822 names of the
/// certificate's subject-alternative-name extension.  The transport parses
/// the certificate; the surface trusts only these emails.
pub struct CertificateWithEmails {
    pub emails: Vec<String>,
}

/// A notification to fan out to the receiver's event stream; no folder id
/// means "produce a new key package".
pub struct Notification {
    pub folder_id: Option<u64>,
    pub receiver: String,
}

/// The empty response body.
pub struct EmptyResponse {}

/// Body of a user registration.
pub struct CreateUserRequest {
    pub email: String,
}

/// Body of a key-package publication.
pub struct CreateKeyPackageRequest {
    pub key_package: Vec<u8>,
}

/// Response to a key-package publication.
pub struct CreateKeyPackageResponse {
    pub key_package_id: u64,
}

/// Body of a folder creation: the initial encrypted metadata object.
pub struct CreateFolderRequest {
    pub metadata: Vec<u8>,
}

/// Body of a key-package fetch: whose pool to draw from.
pub struct FetchKeyPackageRequest {
    pub user_email: String,
}

/// Response to a key-package fetch.
pub struct FetchKeyPackageResponse {
    pub payload: Vec<u8>,
}

/// Body of the first phase of a publish: the proposal.
pub struct ProposalMessageRequest {
    pub proposal: Vec<u8>,
}

/// Body of the second phase of a publish: the application payload and the
/// message ids of the batch it belongs to.
pub struct ApplicationMessageRequest {
    pub payload: Vec<u8>,
    pub message_ids: Vec<u64>,
}

/// A fully readable queue entry handed to a recipient.
pub struct GroupMessage {
    pub message_id: u64,
    pub folder_id: u64,
    pub payload: Vec<u8>,
    pub application_payload: Vec<u8>,
}

/// Response listing every registered email.
pub struct ListUsersResponse {
    pub emails: Vec<String>,
}

/// Response describing one folder and its current metadata token.
pub struct FolderResponse {
    pub id: u64,
    pub etag: Option<String>,
    pub version: Option<String>,
    pub metadata_content: Option<Vec<u8>>,
}

/// Response listing the caller's folders.
pub struct ListFolderResponse {
    pub folders: Vec<u64>,
}

/// Body of a baseline share: the emails to add.
pub struct ShareFolderRequest {
    pub emails: Vec<String>,
}

/// Body of a share with a riding proposal.
pub struct ShareFolderRequestWithProposal {
    pub email: String,
    pub proposal: Vec<u8>,
}

/// Body of a metadata-only upload.
pub struct MetadataUpload {
    pub metadata: Vec<u8>,
    pub parent_etag: Option<String>,
    pub parent_version: Option<String>,
}

/// Body of a combined file-and-metadata upload.
pub struct Upload {
    pub file: Vec<u8>,
    pub metadata: Vec<u8>,
    pub parent_etag: Option<String>,
    pub parent_version: Option<String>,
}

/// Response to an upload: the fresh metadata token.
pub struct UploadFileResponse {
    pub etag: Option<String>,
    pub version: Option<String>,
}

/// Response to a file or metadata read.
pub struct FolderFileResponse {
    pub file: Vec<u8>,
    pub etag: Option<String>,
    pub version: Option<String>,
}

/// Response to a successful publish: the ids of the batch.
pub struct ProposalResponse {
    pub message_ids: Vec<u64>,
}

/// Every response kind the surface produces, with the body where one is
/// owed.
pub enum SSFResponder<R> {
    OkJson(R),
    EmptyOk(String),
    File(Vec<u8>),
    Created(R),
    EmptyCreated(String),
    BadRequest(String),
    Unauthorized(String),
    NotFound(String),
    RetryAfter(String),
    Conflict(String),
    InternalServerError(String),
}

impl<R> SSFResponder<R> {
    /// The HTTP status code of this response kind.
    pub fn status(&self) -> (s: u16)
        ensures
            s == match *self {
                SSFResponder::OkJson(_) => 200u16,
                SSFResponder::EmptyOk(_) => 200u16,
                SSFResponder::File(_) => 200u16,
                SSFResponder::Created(_) => 201u16,
                SSFResponder::EmptyCreated(_) => 201u16,
                SSFResponder::BadRequest(_) => 400u16,
                SSFResponder::Unauthorized(_) => 401u16,
                SSFResponder::NotFound(_) => 404u16,
                SSFResponder::RetryAfter(_) => 429u16,
                SSFResponder::Conflict(_) => 409u16,
                SSFResponder::InternalServerError(_) => 500u16,
            },
    {
        match self {
            SSFResponder::OkJson(_) => 200,
            SSFResponder::EmptyOk(_) => 200,
            SSFResponder::File(_) => 200,
            SSFResponder::Created(_) => 201,
            SSFResponder::EmptyCreated(_) => 201,
            SSFResponder::BadRequest(_) => 400,
            SSFResponder::Unauthorized(_) => 401,
            SSFResponder::NotFound(_) => 404,
            SSFResponder::RetryAfter(_) => 429,
            SSFResponder::Conflict(_) => 409,
            SSFResponder::InternalServerError(_) => 500,
        }
    }
}

/// Whether the certificate's emails resolve to exactly one registered user:
/// the sole way a request is authenticated.
pub open spec fn identified(db: Directory, cert: CertificateWithEmails) -> bool {
    matching_users(db.users_v(), email_views(cert.emails@)).len() == 1
}

/// The resolved identity, when there is exactly one.
pub open spec fn identity_of(db: Directory, cert: CertificateWithEmails) -> Seq<char> {
    matching_users(db.users_v(), email_views(cert.emails@))[0]
}

/// The whole server: relational state and object store.
pub struct ServerState {
    pub db: Directory,
    pub store: DynamicStore,
}

impl ServerState {
    /// Both parts are well-formed, every folder's metadata object exists
    /// (folder creation writes it before the folder is visible), and the
    /// store holds objects only under already-assigned folder ids, so a
    /// fresh folder's create-precondition always holds.
    pub open spec fn wf(self) -> bool {
        &&& self.db.wf()
        &&& self.store.wf()
        &&& forall|i: int|
            0 <= i < self.db.folders@.len() ==> find_object(
                self.store.objects_v(),
                #[trigger] self.db.folders@[i],
                metadata_name(),
            ) is Some
        &&& forall|i: int|
            0 <= i < self.store.objects_v().len() ==> (#[trigger] self.store.objects_v()[i]).folder_id
                < self.db.next_folder_id
    }

    /// A fresh server over an empty schema and an empty store.
    pub fn new() -> (s: ServerState)
        ensures
            s.wf(),
            s.db.users_v().len() == 0,
            s.db.folders@.len() == 0,
            s.db.memberships_v().len() == 0,
            s.db.pending_v().len() == 0,
            s.db.apps_v().len() == 0,
            s.db.kps_v().len() == 0,
            s.store.objects_v().len() == 0,
    {
        ServerState { db: Directory::new(), store: DynamicStore::new() }
    }

    /// Registers a user: the email must be one of the certificate's SAN
    /// emails, and must not be taken.
    pub fn create_user(
        &mut self,
        client_certificate: &CertificateWithEmails,
        request: &CreateUserRequest,
    ) -> (r: SSFResponder<EmptyResponse>)
        requires
            old(self).wf(),
        ensures
            final(self).wf(),
            final(self).store == old(self).store,
            r is BadRequest <==> !has_email(
                email_views(client_certificate.emails@),
                request.email@,
            ),
            r is Conflict <==> has_email(email_views(client_certificate.emails@), request.email@)
                && has_email(old(self).db.users_v(), request.email@),
            r is EmptyCreated <==> has_email(
                email_views(client_certificate.emails@),
                request.email@,
            ) && !has_email(old(self).db.users_v(), request.email@),
            r is EmptyCreated ==> final(self).db.users_v() == old(self).db.users_v().push(
                request.email@,
            ) && same_but_users(old(self).db, final(self).db),
            !(r is EmptyCreated) ==> *final(self) == *old(self),
    {
        if !contains_email(&client_certificate.emails, &request.email) {
            return SSFResponder::BadRequest(
                String::from_str(
                    "The email you want to register with is not bound to the client certificate you authenticated with.",
                ),
            );
        }
        match self.db.insert_user(&request.email) {
            Ok(_) => SSFResponder::EmptyCreated(String::from_str("Created")),
            Err(_) => SSFResponder::Conflict(String::from_str("User already registered")),
        }
    }

    /// Lists every registered email, to any registered caller.
    pub fn list_users(&self, client_certificate: &CertificateWithEmails) -> (r: SSFResponder<
        ListUsersResponse,
    >)
        ensures
            r is Unauthorized <==> !identified(self.db, *client_certificate),
            r is OkJson <==> identified(self.db, *client_certificate),
            r matches SSFResponder::OkJson(resp) ==> email_views(resp.emails@) == self.db.users_v(),
    {
        match self.db.get_known_user(&client_certificate.emails) {
            Err(_) => SSFResponder::Unauthorized(
                String::from_str(
                    "Client identity check failed, please check your TLS certificate.",
                ),
            ),
            Ok(_) => {
                let users = self.db.list_users();
                let mut emails: Vec<String> = Vec::new();
                let mut i: usize = 0;
                while i < users.len()
                    invariant
                        i <= users@.len(),
                        users@.len() == self.db.users_v().len(),
                        forall|k: int|
                            0 <= k < users@.len() ==> (#[trigger] users@[k]).user_email@
                                == self.db.users_v()[k],
                        email_views(emails@) == self.db.users_v().take(i as int),
                    decreases users@.len() - i,
                {
                    let ghost prev = email_views(emails@);
                    emails.push(users[i].user_email.clone());
                    proof {
                        assert(email_views(emails@) =~= prev.push(self.db.users_v()[i as int]));
                        assert(email_views(emails@) =~= self.db.users_v().take(i + 1));
                    }
                    i = i + 1;
                }
                proof {
                    assert(self.db.users_v().take(self.db.users_v().len() as int)
                        =~= self.db.users_v());
                }
                SSFResponder::OkJson(ListUsersResponse { emails })
            },
        }
    }

    /// Publishes a key package into the caller's pool.
    pub fn publish_key_package(
        &mut self,
        client_certificate: &CertificateWithEmails,
        request: &CreateKeyPackageRequest,
    ) -> (r: SSFResponder<CreateKeyPackageResponse>)
        requires
            old(self).wf(),
        ensures
            final(self).wf(),
            final(self).store == old(self).store,
            r is Unauthorized <==> !identified(old(self).db, *client_certificate),
            r is InternalServerError <==> identified(old(self).db, *client_certificate) && old(
                self,
            ).db.next_key_package_id == u64::MAX,
            r is Created <==> identified(old(self).db, *client_certificate) && old(
                self,
            ).db.next_key_package_id < u64::MAX,
            r matches SSFResponder::Created(resp) ==> {
                &&& resp.key_package_id == old(self).db.next_key_package_id
                &&& final(self).db.kps_v() == old(self).db.kps_v().push(
                    crate::rows::KeyPackageRow {
                        key_package_id: resp.key_package_id,
                        user_email: identity_of(old(self).db, *client_certificate),
                        key_package: request.key_package@,
                    },
                )
                &&& crate::db::same_but_key_packages(old(self).db, final(self).db)
            },
            !(r is Created) ==> *final(self) == *old(self),
    {
        let user = match self.db.get_known_user(&client_certificate.emails) {
            Err(_) => {
                return SSFResponder::Unauthorized(
                    String::from_str(
                        "Client identity check failed, please check your TLS certificate.",
                    ),
                );
            },
            Ok(u) => u,
        };
        let payload = crate::db::copy_bytes(&request.key_package);
        match self.db.insert_key_package(&user.user_email, payload) {
            Ok(key_package_id) => SSFResponder::Created(
                CreateKeyPackageResponse { key_package_id },
            ),
            Err(_) => SSFResponder::InternalServerError(
                String::from_str("Error occurred while trying to save the key package."),
            ),
        }
    }

    /// Hands out one key package of another member of the folder, consuming
    /// it, and asks the owner — via the returned notification — to produce a
    /// new one.
    pub fn fetch_key_package(
        &mut self,
        client_certificate: &CertificateWithEmails,
        folder_id: u64,
        request: &FetchKeyPackageRequest,
    ) -> (r: (SSFResponder<FetchKeyPackageResponse>, Vec<Notification>))
        requires
            old(self).wf(),
        ensures
            final(self).wf(),
            final(self).store == old(self).store,
            r.0 is Unauthorized <==> !identified(old(self).db, *client_certificate),
            r.0 is NotFound <==> identified(old(self).db, *client_certificate) && !(is_member(
                old(self).db.memberships_v(),
                folder_id,
                request.user_email@,
            ) && is_member(
                old(self).db.memberships_v(),
                folder_id,
                identity_of(old(self).db, *client_certificate),
            ) && crate::queue::first_key_package(
                old(self).db.kps_v(),
                request.user_email@,
            ) is Some),
            r.0 is OkJson <==> identified(old(self).db, *client_certificate) && is_member(
                old(self).db.memberships_v(),
                folder_id,
                request.user_email@,
            ) && is_member(
                old(self).db.memberships_v(),
                folder_id,
                identity_of(old(self).db, *client_certificate),
            ) && crate::queue::first_key_package(
                old(self).db.kps_v(),
                request.user_email@,
            ) is Some,
            r.0 matches SSFResponder::OkJson(resp) ==> {
                &&& Some(resp.payload@) == match crate::queue::first_key_package(
                    old(self).db.kps_v(),
                    request.user_email@,
                ) {
                    Some(k) => Some(k.key_package),
                    None => None::<Seq<u8>>,
                }
                &&& final(self).db.kps_v() == crate::queue::remove_key_package(
                    old(self).db.kps_v(),
                    crate::queue::first_key_package(
                        old(self).db.kps_v(),
                        request.user_email@,
                    )->0.key_package_id,
                )
                &&& crate::db::same_but_key_packages(old(self).db, final(self).db)
                &&& r.1@.len() == 1 && r.1@[0].folder_id is None && r.1@[0].receiver@
                    == request.user_email@
            },
            !(r.0 is OkJson) ==> *final(self) == *old(self) && r.1@.len() == 0,
    {
        let user = match self.db.get_known_user(&client_certificate.emails) {
            Err(_) => {
                return (
                    SSFResponder::Unauthorized(
                        String::from_str(
                            "Client identity check failed, please check your TLS certificate.",
                        ),
                    ),
                    Vec::new(),
                );
            },
            Ok(u) => u,
        };
        match self.db.consume_key_package(&request.user_email, &user.user_email, folder_id) {
            Ok(entity) => {
                let mut notifications: Vec<Notification> = Vec::new();
                notifications.push(
                    Notification { folder_id: None, receiver: request.user_email.clone() },
                );
                (
                    SSFResponder::OkJson(FetchKeyPackageResponse { payload: entity.key_package }),
                    notifications,
                )
            },
            Err(_) => (
                (
                    SSFResponder::NotFound(
                        String::from_str("Key package not found, retry in some time."),
                    ),
                    Vec::new(),
                )
            ),
        }
    }
}


/// Builds one folder-scoped notification per recipient, in order.
fn notify_all(recipients: &Vec<String>, folder_id: u64) -> (r: Vec<Notification>)
    ensures
        r@.len() == recipients@.len(),
        forall|j: int|
            0 <= j < r@.len() ==> (#[trigger] r@[j]).folder_id == Some(folder_id)
                && r@[j].receiver@ == email_views(recipients@)[j],
{
    let mut r: Vec<Notification> = Vec::new();
    let mut i: usize = 0;
    while i < recipients.len()
        invariant
            i <= recipients@.len(),
            r@.len() == i,
            forall|j: int|
                0 <= j < r@.len() ==> (#[trigger] r@[j]).folder_id == Some(folder_id)
                    && r@[j].receiver@ == email_views(recipients@)[j],
        decreases recipients@.len() - i,
    {
        r.push(Notification { folder_id: Some(folder_id), receiver: recipients[i].clone() });
        i = i + 1;
    }
    r
}

impl ServerState {
    /// Publishes a proposal to every other member of the folder; refused
    /// with a conflict while the sender still has pending messages there.
    /// On success the sender's pending count is zero at commit, and one
    /// notification per recipient is returned; on a conflict the sender
    /// themselves is notified to fetch their pending messages.
    pub fn try_publish_proposal(
        &mut self,
        client_certificate: &CertificateWithEmails,
        folder_id: u64,
        request: &ProposalMessageRequest,
    ) -> (r: (SSFResponder<ProposalResponse>, Vec<Notification>))
        requires
            old(self).wf(),
        ensures
            final(self).wf(),
            final(self).store == old(self).store,
            crate::db::same_but_queue(old(self).db, final(self).db),
            ({
                let me = identity_of(old(self).db, *client_certificate);
                let recipients = crate::queue::members_except(
                    old(self).db.memberships_v(),
                    folder_id,
                    me,
                );
                let member = is_member(old(self).db.memberships_v(), folder_id, me);
                let cnt = crate::queue::count_pending(old(self).db.pending_v(), folder_id, me);
                &&& (r.0 is Unauthorized <==> !identified(old(self).db, *client_certificate))
                &&& (r.0 is NotFound <==> identified(old(self).db, *client_certificate) && !member)
                &&& (r.0 is Conflict <==> identified(old(self).db, *client_certificate) && member
                    && cnt > 0)
                &&& (r.0 is InternalServerError <==> identified(old(self).db, *client_certificate)
                    && member && cnt == 0 && old(self).db.next_message_id + recipients.len()
                    > u64::MAX)
                &&& (r.0 is OkJson <==> identified(old(self).db, *client_certificate) && member
                    && cnt == 0 && old(self).db.next_message_id + recipients.len() <= u64::MAX)
                &&& (r.0 matches SSFResponder::OkJson(resp) ==> {
                    &&& crate::queue::queue_publish(
                        old(self).db.pending_v(),
                        final(self).db.pending_v(),
                        old(self).db.next_message_id,
                        final(self).db.next_message_id,
                        me,
                        folder_id,
                        request.proposal@,
                        recipients,
                        resp.message_ids@,
                    )
                    &&& final(self).db.apps_v() == old(self).db.apps_v()
                    &&& crate::queue::count_pending(final(self).db.pending_v(), folder_id, me) == 0
                    &&& r.1@.len() == recipients.len()
                    &&& forall|j: int|
                        0 <= j < r.1@.len() ==> (#[trigger] r.1@[j]).folder_id == Some(folder_id)
                            && r.1@[j].receiver@ == recipients[j]
                })
                &&& (r.0 is Conflict ==> *final(self) == *old(self) && r.1@.len() == 1
                    && r.1@[0].folder_id == Some(folder_id) && r.1@[0].receiver@ == me)
                &&& (!(r.0 is OkJson) && !(r.0 is Conflict) ==> *final(self) == *old(self)
                    && r.1@.len() == 0)
            }),
    {
        let user = match self.db.get_known_user(&client_certificate.emails) {
            Err(_) => {
                return (
                    SSFResponder::Unauthorized(
                        String::from_str(
                            "Client identity check failed, please check your TLS certificate.",
                        ),
                    ),
                    Vec::new(),
                );
            },
            Ok(u) => u,
        };
        if !crate::db::is_member_vec(&self.db.memberships, folder_id, &user.user_email) {
            return (SSFResponder::NotFound(String::from_str("Folder not found")), Vec::new());
        }
        match self.db.insert_message(&user.user_email, folder_id, &request.proposal) {
            Ok((recipients, message_ids)) => {
                let notifications = notify_all(&recipients, folder_id);
                (SSFResponder::OkJson(ProposalResponse { message_ids }), notifications)
            },
            Err(crate::errors::PublishError::Pending(_)) => {
                let mut notifications: Vec<Notification> = Vec::new();
                notifications.push(
                    Notification { folder_id: Some(folder_id), receiver: user.user_email },
                );
                (
                    SSFResponder::Conflict(
                        String::from_str(
                            "Conflict: the user state is outdated, please fetch the pending proposals first.",
                        ),
                    ),
                    notifications,
                )
            },
            Err(crate::errors::PublishError::Internal) => {
                proof {
                    crate::queue::lemma_count_where_zero(
                        self.db.pending_v(),
                        crate::queue::pred_in_queue(folder_id, user.user_email@),
                    );
                }
                (
                    SSFResponder::InternalServerError(
                        String::from_str(
                            "Error while trying to propose a change to the folder.",
                        ),
                    ),
                    Vec::new(),
                )
            },
        }
    }

    /// Attaches the application payload to a published batch; the affected
    /// recipients are notified.
    pub fn try_publish_application_msg(
        &mut self,
        client_certificate: &CertificateWithEmails,
        folder_id: u64,
        request: &ApplicationMessageRequest,
    ) -> (r: (SSFResponder<EmptyResponse>, Vec<Notification>))
        requires
            old(self).wf(),
        ensures
            final(self).wf(),
            final(self).store == old(self).store,
            crate::db::same_but_queue(old(self).db, final(self).db),
            final(self).db.pending_v() == old(self).db.pending_v(),
            ({
                let me = identity_of(old(self).db, *client_certificate);
                let member = is_member(old(self).db.memberships_v(), folder_id, me);
                let can = crate::queue::patchable(
                    old(self).db.pending_v(),
                    old(self).db.apps_v(),
                    request.message_ids@,
                    me,
                    folder_id,
                );
                &&& (r.0 is Unauthorized <==> !identified(old(self).db, *client_certificate))
                &&& (r.0 is NotFound <==> identified(old(self).db, *client_certificate) && (!member
                    || !can))
                &&& (r.0 is EmptyCreated <==> identified(old(self).db, *client_certificate)
                    && member && can)
                &&& (r.0 is EmptyCreated ==> {
                    &&& crate::queue::queue_patch(
                        old(self).db.apps_v(),
                        final(self).db.apps_v(),
                        request.message_ids@,
                        request.payload@,
                    )
                    &&& r.1@.len() == request.message_ids@.len()
                    &&& forall|j: int|
                        0 <= j < r.1@.len() ==> (#[trigger] r.1@[j]).folder_id == Some(folder_id)
                            && r.1@[j].receiver@ == crate::queue::pending_row(
                            old(self).db.pending_v(),
                            request.message_ids@[j],
                        )->0.user_email
                })
                &&& (!(r.0 is EmptyCreated) ==> *final(self) == *old(self) && r.1@.len() == 0)
            }),
    {
        let user = match self.db.get_known_user(&client_certificate.emails) {
            Err(_) => {
                return (
                    SSFResponder::Unauthorized(
                        String::from_str(
                            "Client identity check failed, please check your TLS certificate.",
                        ),
                    ),
                    Vec::new(),
                );
            },
            Ok(u) => u,
        };
        if !crate::db::is_member_vec(&self.db.memberships, folder_id, &user.user_email) {
            return (
                SSFResponder::NotFound(
                    String::from_str(
                        "The message to publish the application message for was not found.",
                    ),
                ),
                Vec::new(),
            );
        }
        match self.db.insert_application_message(
            &request.message_ids,
            &user.user_email,
            folder_id,
            &request.payload,
        ) {
            Ok(receivers) => {
                let notifications = notify_all(&receivers, folder_id);
                (SSFResponder::EmptyCreated(String::from_str("Successful proposal.")), notifications)
            },
            Err(_) => (
                (
                    SSFResponder::NotFound(
                        String::from_str(
                            "The message to publish the application message for was not found.",
                        ),
                    ),
                    Vec::new(),
                )
            ),
        }
    }

    /// Reads the caller's oldest pending proposal for the folder: nothing
    /// pending is a not-found response, a proposal whose application payload
    /// has not arrived yet asks the caller to retry, and a patched one is
    /// returned whole.
    pub fn get_pending_proposal(
        &self,
        client_certificate: &CertificateWithEmails,
        folder_id: u64,
    ) -> (r: SSFResponder<GroupMessage>)
        ensures
            ({
                let me = identity_of(self.db, *client_certificate);
                let first = crate::queue::first_pending(self.db.pending_v(), folder_id, me);
                &&& (r is Unauthorized <==> !identified(self.db, *client_certificate))
                &&& (r is NotFound <==> identified(self.db, *client_certificate) && first is None)
                &&& (r is RetryAfter <==> identified(self.db, *client_certificate)
                    && (first matches Some(m) && crate::queue::app_payload(
                    self.db.apps_v(),
                    m.message_id,
                ) is None))
                &&& (r is OkJson <==> identified(self.db, *client_certificate) && (first matches
                    Some(m) && crate::queue::app_payload(self.db.apps_v(), m.message_id) is Some))
                &&& (r matches SSFResponder::OkJson(g) ==> (first matches Some(m) && g.message_id
                    == m.message_id && g.folder_id == m.folder_id && g.payload@ == m.payload
                    && crate::queue::app_payload(self.db.apps_v(), m.message_id) == Some(
                    g.application_payload@,
                )))
            }),
    {
        let user = match self.db.get_known_user(&client_certificate.emails) {
            Err(_) => {
                return SSFResponder::Unauthorized(
                    String::from_str(
                        "Client identity check failed, please check your TLS certificate.",
                    ),
                );
            },
            Ok(u) => u,
        };
        match self.db.get_first_message_by_folder_and_user(folder_id, &user.user_email) {
            Ok(Some(m)) => SSFResponder::OkJson(
                GroupMessage {
                    message_id: m.message_id,
                    folder_id: m.folder_id,
                    payload: m.payload,
                    application_payload: m.application_payload,
                },
            ),
            Ok(None) => SSFResponder::RetryAfter(
                String::from_str(
                    "The first pending proposal is still not consumable, retry after.",
                ),
            ),
            Err(_) => SSFResponder::NotFound(String::from_str("No more pending proposals found.")),
        }
    }

    /// Acknowledges a pending message of the caller: out-of-order
    /// acknowledgements are refused, an empty queue is a not-found response,
    /// and on success the row and its application payload are deleted.
    pub fn ack_message(
        &mut self,
        client_certificate: &CertificateWithEmails,
        folder_id: u64,
        message_id: u64,
    ) -> (r: SSFResponder<EmptyResponse>)
        requires
            old(self).wf(),
        ensures
            final(self).wf(),
            final(self).store == old(self).store,
            crate::db::same_but_queue(old(self).db, final(self).db),
            final(self).db.next_message_id == old(self).db.next_message_id,
            ({
                let me = identity_of(old(self).db, *client_certificate);
                let first = crate::queue::first_pending(old(self).db.pending_v(), folder_id, me);
                &&& (r is Unauthorized <==> !identified(old(self).db, *client_certificate))
                &&& (r is NotFound <==> identified(old(self).db, *client_certificate)
                    && first is None)
                &&& (r is BadRequest <==> identified(old(self).db, *client_certificate)
                    && (first matches Some(m) && m.message_id > message_id))
                &&& (r is EmptyOk <==> identified(old(self).db, *client_certificate)
                    && (first matches Some(m) && m.message_id <= message_id))
                &&& (r is EmptyOk ==> final(self).db.pending_v() == crate::queue::remove_pending(
                    old(self).db.pending_v(),
                    message_id,
                    folder_id,
                    me,
                ) && final(self).db.apps_v() == crate::queue::restrict_apps(
                    old(self).db.apps_v(),
                    final(self).db.pending_v(),
                ))
                &&& (!(r is EmptyOk) ==> *final(self) == *old(self))
            }),
    {
        let user = match self.db.get_known_user(&client_certificate.emails) {
            Err(_) => {
                return SSFResponder::Unauthorized(
                    String::from_str(
                        "Client identity check failed, please check your TLS certificate.",
                    ),
                );
            },
            Ok(u) => u,
        };
        match self.db.delete_message(message_id, &user.user_email, folder_id) {
            Ok(true) => SSFResponder::EmptyOk(String::from_str("Message deleted")),
            Ok(false) => SSFResponder::BadRequest(
                String::from_str("There are older messages to be acked first."),
            ),
            Err(_) => SSFResponder::NotFound(String::from_str("Couldn't fine the message")),
        }
    }
}


/// An identified caller is a registered user.
proof fn lemma_identity_registered(db: Directory, cert: CertificateWithEmails)
    requires
        identified(db, cert),
    ensures
        has_email(db.users_v(), identity_of(db, cert)),
{
    crate::queue::lemma_filtered_elem(
        db.users_v(),
        crate::db::pred_in_emails(email_views(cert.emails@)),
    );
    let m = matching_users(db.users_v(), email_views(cert.emails@));
    let j = choose|j: int| 0 <= j < db.users_v().len() && db.users_v()[j] == m[0];
    assert(db.users_v()[j] == identity_of(db, cert));
}

/// Writing a folder's metadata (and a file beside it) preserves the server
/// links: every folder still has its metadata object, and the store still
/// holds objects only under assigned folder ids.
proof fn lemma_links_after_write(
    dbx: Directory,
    pre: DynamicStore,
    post: DynamicStore,
    folder_id: u64,
    md_data: Seq<u8>,
    gen: u64,
    file_write: Option<(Seq<char>, Seq<u8>)>,
)
    requires
        dbx.folders@.contains(folder_id),
        forall|i: int|
            0 <= i < dbx.folders@.len() ==> #[trigger] dbx.folders@[i] < dbx.next_folder_id,
        forall|i: int|
            0 <= i < dbx.folders@.len() ==> (#[trigger] dbx.folders@[i] == folder_id
                || find_object(pre.objects_v(), dbx.folders@[i], metadata_name()) is Some),
        forall|i: int|
            0 <= i < pre.objects_v().len() ==> (#[trigger] pre.objects_v()[i]).folder_id
                < dbx.next_folder_id,
        file_write matches Some(fw) ==> fw.0 != metadata_name(),
        post.objects_v() == (match file_write {
            None => crate::storage::object_after_write(
                pre.objects_v(),
                folder_id,
                metadata_name(),
                md_data,
                gen,
            ),
            Some(fw) => crate::storage::object_after_write(
                crate::storage::object_after_write(
                    pre.objects_v(),
                    folder_id,
                    metadata_name(),
                    md_data,
                    gen,
                ),
                folder_id,
                fw.0,
                fw.1,
                gen,
            ),
        }),
    ensures
        forall|i: int|
            0 <= i < dbx.folders@.len() ==> find_object(
                post.objects_v(),
                #[trigger] dbx.folders@[i],
                metadata_name(),
            ) is Some,
        forall|i: int|
            0 <= i < post.objects_v().len() ==> (#[trigger] post.objects_v()[i]).folder_id
                < dbx.next_folder_id,
{
    let with_md = crate::storage::object_after_write(
        pre.objects_v(),
        folder_id,
        metadata_name(),
        md_data,
        gen,
    );
    let md_new = crate::storage::StoredRow {
        folder_id,
        file_id: metadata_name(),
        data: md_data,
        gen,
        etag: crate::decimal::spec_decimal(gen as int),
    };
    assert forall|i: int|
        0 <= i < dbx.folders@.len() implies find_object(
        post.objects_v(),
        #[trigger] dbx.folders@[i],
        metadata_name(),
    ) is Some by {
        let g = dbx.folders@[i];
        if g == folder_id {
            crate::storage::lemma_find_after_upsert(
                pre.objects_v(),
                folder_id,
                metadata_name(),
                md_new,
            );
        } else {
            crate::storage::lemma_find_after_upsert_other(
                pre.objects_v(),
                folder_id,
                metadata_name(),
                md_new,
                g,
                metadata_name(),
            );
        }
        match file_write {
            None => {},
            Some(fw) => {
                let file_new = crate::storage::StoredRow {
                    folder_id,
                    file_id: fw.0,
                    data: fw.1,
                    gen,
                    etag: crate::decimal::spec_decimal(gen as int),
                };
                crate::storage::lemma_find_after_upsert_other(
                    with_md,
                    folder_id,
                    fw.0,
                    file_new,
                    g,
                    metadata_name(),
                );
            },
        }
    }
    let w = choose|w: int| 0 <= w < dbx.folders@.len() && dbx.folders@[w] == folder_id;
    assert(folder_id < dbx.next_folder_id);
    assert forall|i: int|
        0 <= i < post.objects_v().len() implies (#[trigger] post.objects_v()[i]).folder_id
        < dbx.next_folder_id by {
        crate::queue::lemma_filtered_elem(
            pre.objects_v(),
            crate::storage::keep_not_object(folder_id, metadata_name()),
        );
        match file_write {
            None => {
                let row = post.objects_v()[i];
                if i < post.objects_v().len() - 1 {
                    let prefix = crate::storage::remove_object(
                        pre.objects_v(),
                        folder_id,
                        metadata_name(),
                    );
                    assert(row == prefix[i]);
                    let k = choose|k: int|
                        0 <= k < pre.objects_v().len() && pre.objects_v()[k] == prefix[i];
                } else {
                    assert(row == md_new);
                }
            },
            Some(fw) => {
                crate::queue::lemma_filtered_elem(
                    with_md,
                    crate::storage::keep_not_object(folder_id, fw.0),
                );
                let row = post.objects_v()[i];
                if i < post.objects_v().len() - 1 {
                    let prefix2 = crate::storage::remove_object(with_md, folder_id, fw.0);
                    assert(row == prefix2[i]);
                    let k = choose|k: int| 0 <= k < with_md.len() && with_md[k] == prefix2[i];
                    if k < with_md.len() - 1 {
                        let prefix = crate::storage::remove_object(
                            pre.objects_v(),
                            folder_id,
                            metadata_name(),
                        );
                        assert(with_md[k] == prefix[k]);
                        let k2 = choose|k2: int|
                            0 <= k2 < pre.objects_v().len() && pre.objects_v()[k2] == prefix[k];
                    } else {
                        assert(with_md[k] == md_new);
                    }
                } else {
                    assert(row.folder_id == folder_id);
                }
            },
        }
    }
}

/// Copies an optional token.
fn clone_opt_string(o: &Option<String>) -> (r: Option<String>)
    ensures
        crate::storage::opt_view(r) == crate::storage::opt_view(*o),
{
    match o {
        None => None,
        Some(s) => Some(s.clone()),
    }
}

impl ServerState {
    /// Creates a folder for the caller: a fresh id, its first membership
    /// row, and — before the folder becomes visible — its initial metadata
    /// object, whose first token is returned.
    pub fn create_folder(
        &mut self,
        client_certificate: &CertificateWithEmails,
        request: &CreateFolderRequest,
    ) -> (r: SSFResponder<FolderResponse>)
        requires
            old(self).wf(),
        ensures
            final(self).wf(),
            r is Unauthorized <==> !identified(old(self).db, *client_certificate),
            r is InternalServerError <==> identified(old(self).db, *client_certificate) && (old(
                self,
            ).db.next_folder_id == u64::MAX || old(self).store.next_gen == u64::MAX),
            r is Created <==> identified(old(self).db, *client_certificate) && old(
                self,
            ).db.next_folder_id < u64::MAX && old(self).store.next_gen < u64::MAX,
            r matches SSFResponder::Created(resp) ==> ({
                let me = identity_of(old(self).db, *client_certificate);
                &&& resp.id == old(self).db.next_folder_id
                &&& final(self).db.folders@ == old(self).db.folders@.push(resp.id)
                &&& final(self).db.memberships_v() == old(self).db.memberships_v().push(
                    crate::rows::MembershipRow { folder_id: resp.id, user_email: me },
                )
                &&& final(self).db.next_folder_id == old(self).db.next_folder_id + 1
                &&& crate::db::same_but_folders(old(self).db, final(self).db)
                &&& final(self).store.objects_v() == crate::storage::object_after_write(
                    old(self).store.objects_v(),
                    resp.id,
                    metadata_name(),
                    request.metadata@,
                    old(self).store.next_gen,
                )
                &&& final(self).store.next_gen == old(self).store.next_gen + 1
                &&& (resp.etag matches Some(e) && e@ == crate::decimal::spec_decimal(
                    old(self).store.next_gen as int,
                ) && e@.len() >= 1)
                &&& resp.version is None
                &&& resp.metadata_content is None
            }),
            !(r is Created) ==> *final(self) == *old(self),
    {
        let user = match self.db.get_known_user(&client_certificate.emails) {
            Err(_) => {
                return SSFResponder::Unauthorized(
                    String::from_str(
                        "Client identity check failed, please check your TLS certificate.",
                    ),
                );
            },
            Ok(u) => u,
        };
        if self.db.next_folder_id == u64::MAX || self.store.next_gen == u64::MAX {
            return SSFResponder::InternalServerError(String::from_str("Internal Server Error"));
        }
        proof {
            lemma_identity_registered(old(self).db, *client_certificate);
        }
        let ghost pre = *self;
        let id = match self.db.insert_folder_and_relation(&user.user_email) {
            Ok(id) => id,
            Err(_) => {
                // Unreachable: the caller is registered and the id space was
                // checked above, so folder creation cannot fail.
                proof {
                    assert(false);
                }
                return SSFResponder::InternalServerError(
                    String::from_str("Internal Server Error"),
                );
            },
        };
        proof {
            crate::queue::lemma_first_where_none(
                self.store.objects_v(),
                crate::storage::pred_object(id, metadata_name()),
            );
        }
        let md = crate::db::copy_bytes(&request.metadata);
        match self.store.init_metadata(FolderEntity { folder_id: id }, md) {
            Ok((etag, version)) => {
                proof {
                    assert(self.db.folders@[self.db.folders@.len() - 1] == id);
                    assert(self.db.folders@.contains(id));
                    lemma_links_after_write(
                        self.db,
                        pre.store,
                        self.store,
                        id,
                        request.metadata@,
                        pre.store.next_gen,
                        None,
                    );
                }
                SSFResponder::Created(
                    FolderResponse { id, etag, version, metadata_content: None },
                )
            },
            Err(_) => {
                // Unreachable: the store was checked to have room, and a
                // fresh folder id cannot collide with a stored object.
                proof {
                    assert(false);
                }
                SSFResponder::InternalServerError(String::from_str("Internal Server Error"))
            },
        }
    }

    /// Lists the folders the caller is a member of.
    pub fn list_folders_for_user(&self, client_certificate: &CertificateWithEmails) -> (r:
        SSFResponder<ListFolderResponse>)
        ensures
            r is Unauthorized <==> !identified(self.db, *client_certificate),
            r is OkJson <==> identified(self.db, *client_certificate),
            r matches SSFResponder::OkJson(resp) ==> resp.folders@ == crate::db::folders_of_user(
                self.db.folders@,
                self.db.memberships_v(),
                identity_of(self.db, *client_certificate),
            ),
    {
        let user = match self.db.get_known_user(&client_certificate.emails) {
            Err(_) => {
                return SSFResponder::Unauthorized(
                    String::from_str(
                        "Client identity check failed, please check your TLS certificate.",
                    ),
                );
            },
            Ok(u) => u,
        };
        let entities = self.db.list_folders(&user.user_email);
        let ghost want = crate::db::folders_of_user(
            self.db.folders@,
            self.db.memberships_v(),
            user.user_email@,
        );
        let mut folders: Vec<u64> = Vec::new();
        let mut i: usize = 0;
        while i < entities.len()
            invariant
                i <= entities@.len(),
                entities@.len() == want.len(),
                forall|k: int|
                    0 <= k < entities@.len() ==> (#[trigger] entities@[k]).folder_id == want[k],
                folders@ == want.take(i as int),
            decreases entities@.len() - i,
        {
            folders.push(entities[i].folder_id);
            proof {
                assert(folders@ =~= want.take(i + 1));
            }
            i = i + 1;
        }
        proof {
            assert(want.take(want.len() as int) =~= want);
        }
        SSFResponder::OkJson(ListFolderResponse { folders })
    }

    /// Returns a folder's id, current metadata token and metadata content to
    /// a member; a non-member gets the same not-found answer as for a folder
    /// that does not exist.
    pub fn get_folder(
        &self,
        client_certificate: &CertificateWithEmails,
        folder_id: u64,
    ) -> (r: SSFResponder<FolderResponse>)
        requires
            self.wf(),
        ensures
            ({
                let me = identity_of(self.db, *client_certificate);
                let member = is_member(self.db.memberships_v(), folder_id, me);
                &&& (r is Unauthorized <==> !identified(self.db, *client_certificate))
                &&& (r is NotFound <==> identified(self.db, *client_certificate) && !member)
                &&& (r is OkJson <==> identified(self.db, *client_certificate) && member)
                &&& (r matches SSFResponder::OkJson(resp) ==> ({
                    let row = find_object(self.store.objects_v(), folder_id, metadata_name())->0;
                    &&& resp.id == folder_id
                    &&& (resp.etag matches Some(e) && e@ == row.etag)
                    &&& resp.version is None
                    &&& (resp.metadata_content matches Some(c) && c@ == row.data)
                }))
            }),
    {
        let user = match self.db.get_known_user(&client_certificate.emails) {
            Err(_) => {
                return SSFResponder::Unauthorized(
                    String::from_str(
                        "Client identity check failed, please check your TLS certificate.",
                    ),
                );
            },
            Ok(u) => u,
        };
        let folder = match self.db.get_folder_by_id(&user.user_email, folder_id) {
            Err(_) => {
                return SSFResponder::NotFound(String::from_str("Folder not found"));
            },
            Ok(f) => f,
        };
        proof {
            let msv = self.db.memberships_v();
            let w = choose|w: int|
                0 <= w < msv.len() && (#[trigger] msv[w]).folder_id == folder_id
                    && msv[w].user_email == user.user_email@;
            assert(self.db.folders@.contains(folder_id));
            let w2 = choose|w2: int|
                0 <= w2 < self.db.folders@.len() && self.db.folders@[w2] == folder_id;
            assert(find_object(self.store.objects_v(), folder_id, metadata_name()) is Some);
        }
        match self.store.read_metadata(&folder) {
            Ok((content, meta)) => SSFResponder::OkJson(
                FolderResponse {
                    id: folder_id,
                    etag: meta.e_tag,
                    version: meta.version,
                    metadata_content: Some(content),
                },
            ),
            Err(_) => {
                // Unreachable: a member's folder always has its metadata
                // object, so the read cannot fail.
                proof {
                    assert(false);
                }
                SSFResponder::InternalServerError(String::from_str("Internal Server Error"))
            },
        }
    }

    /// Removes the caller from the folder; the last member to leave deletes
    /// the folder itself.
    pub fn remove_self_from_folder(
        &mut self,
        client_certificate: &CertificateWithEmails,
        folder_id: u64,
    ) -> (r: SSFResponder<EmptyResponse>)
        requires
            old(self).wf(),
        ensures
            final(self).wf(),
            final(self).store == old(self).store,
            ({
                let me = identity_of(old(self).db, *client_certificate);
                let member = is_member(old(self).db.memberships_v(), folder_id, me);
                &&& (r is Unauthorized <==> !identified(old(self).db, *client_certificate))
                &&& (r is NotFound <==> identified(old(self).db, *client_certificate) && !member)
                &&& (r is OkJson <==> identified(old(self).db, *client_certificate) && member)
                &&& (r is OkJson ==> {
                    &&& final(self).db.memberships_v() == crate::db::remove_membership(
                        old(self).db.memberships_v(),
                        folder_id,
                        me,
                    )
                    &&& final(self).db.pending_v() == crate::queue::remove_all_pending(
                        old(self).db.pending_v(),
                        folder_id,
                        me,
                    )
                    &&& final(self).db.apps_v() == crate::queue::restrict_apps(
                        old(self).db.apps_v(),
                        final(self).db.pending_v(),
                    )
                    &&& final(self).db.folders@ == (if crate::db::is_member_of_some(
                        final(self).db.memberships_v(),
                        folder_id,
                    ) {
                        old(self).db.folders@
                    } else {
                        crate::db::remove_folder(old(self).db.folders@, folder_id)
                    })
                })
                &&& (!(r is OkJson) ==> *final(self) == *old(self))
            }),
    {
        let user = match self.db.get_known_user(&client_certificate.emails) {
            Err(_) => {
                return SSFResponder::Unauthorized(
                    String::from_str(
                        "Client identity check failed, please check your TLS certificate.",
                    ),
                );
            },
            Ok(u) => u,
        };
        let ghost pre = *self;
        match self.db.remove_user_from_folder(folder_id, &user.user_email) {
            Ok(_) => {
                proof {
                    if !crate::db::is_member_of_some(self.db.memberships_v(), folder_id) {
                        crate::queue::lemma_filtered_elem(
                            pre.db.folders@,
                            crate::db::keep_not_folder(folder_id),
                        );
                    }
                    assert forall|i: int|
                        0 <= i < self.db.folders@.len() implies find_object(
                        self.store.objects_v(),
                        #[trigger] self.db.folders@[i],
                        metadata_name(),
                    ) is Some by {
                        if !crate::db::is_member_of_some(self.db.memberships_v(), folder_id) {
                            let g = self.db.folders@[i];
                            let k = choose|k: int|
                                0 <= k < pre.db.folders@.len() && pre.db.folders@[k] == g;
                            assert(find_object(
                                pre.store.objects_v(),
                                pre.db.folders@[k],
                                metadata_name(),
                            ) is Some);
                        }
                    }
                }
                SSFResponder::OkJson(EmptyResponse {})
            },
            Err(_) => SSFResponder::NotFound(String::from_str("Folder not found")),
        }
    }

    /// Reads a file of a folder the caller is a member of.
    pub fn get_file(
        &self,
        client_certificate: &CertificateWithEmails,
        folder_id: u64,
        file_id: &String,
    ) -> (r: SSFResponder<FolderFileResponse>)
        ensures
            ({
                let me = identity_of(self.db, *client_certificate);
                let member = is_member(self.db.memberships_v(), folder_id, me);
                let obj = find_object(self.store.objects_v(), folder_id, file_id@);
                &&& (r is Unauthorized <==> !identified(self.db, *client_certificate))
                &&& (r is NotFound <==> identified(self.db, *client_certificate) && (!member
                    || obj is None))
                &&& (r is OkJson <==> identified(self.db, *client_certificate) && member
                    && obj is Some)
                &&& (r matches SSFResponder::OkJson(resp) ==> (obj matches Some(row) && resp.file@
                    == row.data && (resp.etag matches Some(e) && e@ == row.etag)
                    && resp.version is None))
            }),
    {
        let user = match self.db.get_known_user(&client_certificate.emails) {
            Err(_) => {
                return SSFResponder::Unauthorized(
                    String::from_str(
                        "Client identity check failed, please check your TLS certificate.",
                    ),
                );
            },
            Ok(u) => u,
        };
        let folder = match self.db.get_folder_by_id(&user.user_email, folder_id) {
            Err(_) => {
                return SSFResponder::NotFound(String::from_str("Folder not found"));
            },
            Ok(f) => f,
        };
        match self.store.read_file(&folder, file_id) {
            Ok((file, meta)) => SSFResponder::OkJson(
                FolderFileResponse { file, etag: meta.e_tag, version: meta.version },
            ),
            Err(_) => SSFResponder::NotFound(String::from_str("File not found")),
        }
    }

    /// Reads the folder's current metadata object and token.
    pub fn get_metadata(
        &self,
        client_certificate: &CertificateWithEmails,
        folder_id: u64,
    ) -> (r: SSFResponder<FolderFileResponse>)
        requires
            self.wf(),
        ensures
            ({
                let me = identity_of(self.db, *client_certificate);
                let member = is_member(self.db.memberships_v(), folder_id, me);
                &&& (r is Unauthorized <==> !identified(self.db, *client_certificate))
                &&& (r is NotFound <==> identified(self.db, *client_certificate) && !member)
                &&& (r is OkJson <==> identified(self.db, *client_certificate) && member)
                &&& (r matches SSFResponder::OkJson(resp) ==> ({
                    let row = find_object(self.store.objects_v(), folder_id, metadata_name())->0;
                    &&& resp.file@ == row.data
                    &&& (resp.etag matches Some(e) && e@ == row.etag)
                    &&& resp.version is None
                }))
            }),
    {
        let user = match self.db.get_known_user(&client_certificate.emails) {
            Err(_) => {
                return SSFResponder::Unauthorized(
                    String::from_str(
                        "Client identity check failed, please check your TLS certificate.",
                    ),
                );
            },
            Ok(u) => u,
        };
        let folder = match self.db.get_folder_by_id(&user.user_email, folder_id) {
            Err(_) => {
                return SSFResponder::NotFound(String::from_str("Folder not found"));
            },
            Ok(f) => f,
        };
        proof {
            let msv = self.db.memberships_v();
            let w = choose|w: int|
                0 <= w < msv.len() && (#[trigger] msv[w]).folder_id == folder_id
                    && msv[w].user_email == user.user_email@;
            assert(self.db.folders@.contains(folder_id));
            let w2 = choose|w2: int|
                0 <= w2 < self.db.folders@.len() && self.db.folders@[w2] == folder_id;
            assert(find_object(self.store.objects_v(), folder_id, metadata_name()) is Some);
        }
        match self.store.read_metadata(&folder) {
            Ok((content, meta)) => SSFResponder::OkJson(
                FolderFileResponse { file: content, etag: meta.e_tag, version: meta.version },
            ),
            Err(_) => {
                // Unreachable: a member's folder always has its metadata
                // object, so the read cannot fail.
                proof {
                    assert(false);
                }
                SSFResponder::InternalServerError(String::from_str("Internal Server Error"))
            },
        }
    }
}


impl ServerState {
    /// Baseline share: adds the given emails (and, idempotently, the caller)
    /// to the folder's membership, with no proposal riding along; everyone
    /// named is notified.
    pub fn share_folder(
        &mut self,
        client_certificate: &CertificateWithEmails,
        folder_id: u64,
        request: &ShareFolderRequest,
    ) -> (r: (SSFResponder<EmptyResponse>, Vec<Notification>))
        requires
            old(self).wf(),
        ensures
            final(self).wf(),
            final(self).store == old(self).store,
            ({
                let me = identity_of(old(self).db, *client_certificate);
                let member = is_member(old(self).db.memberships_v(), folder_id, me);
                &&& (r.0 is Unauthorized <==> !identified(old(self).db, *client_certificate))
                &&& (r.0 is NotFound <==> identified(old(self).db, *client_certificate) && !member)
                &&& (r.0 is OkJson <==> identified(old(self).db, *client_certificate) && member)
                &&& (r.0 is OkJson ==> {
                    &&& final(self).db.memberships_v() == crate::db::add_members(
                        old(self).db.memberships_v(),
                        old(self).db.users_v(),
                        folder_id,
                        email_views(request.emails@).push(me),
                    )
                    &&& final(self).db.pending_v() == old(self).db.pending_v()
                    &&& final(self).db.apps_v() == old(self).db.apps_v()
                    &&& final(self).db.users_v() == old(self).db.users_v()
                    &&& final(self).db.folders@ == old(self).db.folders@
                    &&& final(self).db.kps_v() == old(self).db.kps_v()
                    &&& r.1@.len() == request.emails@.len() + 1
                    &&& (forall|j: int|
                        0 <= j < r.1@.len() ==> (#[trigger] r.1@[j]).folder_id == Some(folder_id)
                            && r.1@[j].receiver@ == email_views(request.emails@).push(me)[j])
                })
                &&& (!(r.0 is OkJson) ==> *final(self) == *old(self) && r.1@.len() == 0)
            }),
    {
        let user = match self.db.get_known_user(&client_certificate.emails) {
            Err(_) => {
                return (
                    SSFResponder::Unauthorized(
                        String::from_str(
                            "Client identity check failed, please check your TLS certificate.",
                        ),
                    ),
                    Vec::new(),
                );
            },
            Ok(u) => u,
        };
        let mut all_emails: Vec<String> = Vec::new();
        let mut i: usize = 0;
        while i < request.emails.len()
            invariant
                i <= request.emails@.len(),
                email_views(all_emails@) == email_views(request.emails@).take(i as int),
            decreases request.emails@.len() - i,
        {
            let ghost prev = email_views(all_emails@);
            all_emails.push(request.emails[i].clone());
            proof {
                assert(email_views(all_emails@) =~= prev.push(
                    email_views(request.emails@)[i as int],
                ));
                assert(email_views(all_emails@) =~= email_views(request.emails@).take(i + 1));
            }
            i = i + 1;
        }
        proof {
            assert(email_views(request.emails@).take(request.emails@.len() as int) =~= email_views(
                request.emails@,
            ));
        }
        let ghost prev = email_views(all_emails@);
        all_emails.push(user.user_email.clone());
        proof {
            assert(email_views(all_emails@) =~= prev.push(user.user_email@));
        }
        match self.db.insert_folder_users_relations(folder_id, &user.user_email, &all_emails, None) {
            Ok(_) => {
                let notifications = notify_all(&all_emails, folder_id);
                (SSFResponder::OkJson(EmptyResponse {}), notifications)
            },
            Err(_) => (
                (SSFResponder::NotFound(String::from_str("Folder not found")), Vec::new())
            ),
        }
    }

    /// Shares the folder with one user, publishing the add-proposal to the
    /// current members first so that the invitee's fresh queue never holds
    /// the proposal that adds them.
    pub fn v2_share_folder(
        &mut self,
        client_certificate: &CertificateWithEmails,
        folder_id: u64,
        request: &ShareFolderRequestWithProposal,
    ) -> (r: (SSFResponder<ProposalResponse>, Vec<Notification>))
        requires
            old(self).wf(),
        ensures
            final(self).wf(),
            final(self).store == old(self).store,
            ({
                let me = identity_of(old(self).db, *client_certificate);
                let member = is_member(old(self).db.memberships_v(), folder_id, me);
                let cnt = crate::queue::count_pending(old(self).db.pending_v(), folder_id, me);
                let recipients = crate::queue::members_except(
                    old(self).db.memberships_v(),
                    folder_id,
                    me,
                );
                &&& (r.0 is Unauthorized <==> !identified(old(self).db, *client_certificate))
                &&& (r.0 is NotFound <==> identified(old(self).db, *client_certificate) && !member)
                &&& (r.0 is Conflict <==> identified(old(self).db, *client_certificate) && member
                    && cnt > 0)
                &&& (r.0 is InternalServerError <==> identified(old(self).db, *client_certificate)
                    && member && cnt == 0 && old(self).db.next_message_id + recipients.len()
                    > u64::MAX)
                &&& (r.0 is OkJson <==> identified(old(self).db, *client_certificate) && member
                    && cnt == 0 && old(self).db.next_message_id + recipients.len() <= u64::MAX)
                &&& (r.0 matches SSFResponder::OkJson(resp) ==> {
                    &&& final(self).db.memberships_v() == crate::db::add_members(
                        old(self).db.memberships_v(),
                        old(self).db.users_v(),
                        folder_id,
                        seq![request.email@, me],
                    )
                    &&& crate::queue::queue_publish(
                        old(self).db.pending_v(),
                        final(self).db.pending_v(),
                        old(self).db.next_message_id,
                        final(self).db.next_message_id,
                        me,
                        folder_id,
                        request.proposal@,
                        recipients,
                        resp.message_ids@,
                    )
                    &&& final(self).db.apps_v() == old(self).db.apps_v()
                    &&& final(self).db.users_v() == old(self).db.users_v()
                    &&& final(self).db.folders@ == old(self).db.folders@
                    &&& final(self).db.kps_v() == old(self).db.kps_v()
                    &&& r.1@.len() == recipients.len()
                    &&& (forall|j: int|
                        0 <= j < r.1@.len() ==> (#[trigger] r.1@[j]).folder_id == Some(folder_id)
                            && r.1@[j].receiver@ == recipients[j])
                })
                &&& (!(r.0 is OkJson) ==> *final(self) == *old(self) && r.1@.len() == 0)
            }),
    {
        let user = match self.db.get_known_user(&client_certificate.emails) {
            Err(_) => {
                return (
                    SSFResponder::Unauthorized(
                        String::from_str(
                            "Client identity check failed, please check your TLS certificate.",
                        ),
                    ),
                    Vec::new(),
                );
            },
            Ok(u) => u,
        };
        let mut pair: Vec<String> = Vec::new();
        pair.push(request.email.clone());
        pair.push(user.user_email.clone());
        proof {
            assert(email_views(pair@) =~= seq![request.email@, user.user_email@]);
        }
        match self.db.insert_folder_users_relations(
            folder_id,
            &user.user_email,
            &pair,
            Some(&request.proposal),
        ) {
            Ok((recipients, mids)) => {
                match mids {
                    Some(message_ids) => {
                        let notifications = notify_all(&recipients, folder_id);
                        (SSFResponder::OkJson(ProposalResponse { message_ids }), notifications)
                    },
                    None => {
                        // Unreachable: a share with a proposal always
                        // returns the batch's message ids.
                        proof {
                            assert(false);
                        }
                        (
                            SSFResponder::InternalServerError(
                                String::from_str("Internal Server Error"),
                            ),
                            Vec::new(),
                        )
                    },
                }
            },
            Err(crate::errors::ShareError::RowNotFound) => (
                (SSFResponder::NotFound(String::from_str("Folder not found")), Vec::new())
            ),
            Err(crate::errors::ShareError::Pending) => (
                (
                    SSFResponder::Conflict(
                        String::from_str(
                            "Not in sync, please first process the proposals that are pending!.",
                        ),
                    ),
                    Vec::new(),
                )
            ),
            Err(crate::errors::ShareError::Internal) => {
                proof {
                    crate::queue::lemma_count_where_zero(
                        self.db.pending_v(),
                        crate::queue::pred_in_queue(folder_id, user.user_email@),
                    );
                }
                (
                    SSFResponder::InternalServerError(
                        String::from_str("Internal Server Error"),
                    ),
                    Vec::new(),
                )
            },
        }
    }

    /// Uploads a file together with the new folder metadata: the reserved
    /// file name is rejected, the metadata object is committed under the
    /// caller's parent token — a stale token is a conflict — and only then
    /// is the file written.  The fresh metadata token comes back and is
    /// never empty.
    pub fn upload_file(
        &mut self,
        client_certificate: &CertificateWithEmails,
        folder_id: u64,
        file_id: &String,
        upload: &Upload,
    ) -> (r: SSFResponder<UploadFileResponse>)
        requires
            old(self).wf(),
        ensures
            final(self).wf(),
            final(self).db == old(self).db,
            ({
                let me = identity_of(old(self).db, *client_certificate);
                let member = is_member(old(self).db.memberships_v(), folder_id, me);
                let cur = find_object(old(self).store.objects_v(), folder_id, metadata_name());
                let has_parent = upload.parent_etag is Some || upload.parent_version is Some;
                let pe = crate::storage::opt_view(upload.parent_etag);
                let pv = crate::storage::opt_view(upload.parent_version);
                let fits = (if has_parent {
                    cur matches Some(c) && crate::storage::update_matches(c, pe, pv)
                } else {
                    cur is None
                });
                &&& (r is Unauthorized <==> !identified(old(self).db, *client_certificate))
                &&& (r is BadRequest <==> identified(old(self).db, *client_certificate) && file_id@
                    == metadata_name())
                &&& (r is NotFound <==> identified(old(self).db, *client_certificate) && file_id@
                    != metadata_name() && !member)
                &&& (r is InternalServerError <==> identified(old(self).db, *client_certificate)
                    && file_id@ != metadata_name() && member && old(self).store.next_gen
                    == u64::MAX)
                &&& (r is Conflict <==> identified(old(self).db, *client_certificate) && file_id@
                    != metadata_name() && member && old(self).store.next_gen < u64::MAX && !fits)
                &&& (r is Created <==> identified(old(self).db, *client_certificate) && file_id@
                    != metadata_name() && member && old(self).store.next_gen < u64::MAX && fits)
                &&& (r matches SSFResponder::Created(resp) ==> {
                    &&& (resp.etag matches Some(e) && e@ == crate::decimal::spec_decimal(
                        old(self).store.next_gen as int,
                    ) && e@.len() >= 1)
                    &&& resp.version is None
                    &&& final(self).store.objects_v() == crate::storage::object_after_write(
                        crate::storage::object_after_write(
                            old(self).store.objects_v(),
                            folder_id,
                            metadata_name(),
                            upload.metadata@,
                            old(self).store.next_gen,
                        ),
                        folder_id,
                        file_id@,
                        upload.file@,
                        old(self).store.next_gen,
                    )
                    &&& final(self).store.next_gen == old(self).store.next_gen + 1
                })
                &&& (!(r is Created) ==> *final(self) == *old(self))
            }),
    {
        let user = match self.db.get_known_user(&client_certificate.emails) {
            Err(_) => {
                return SSFResponder::Unauthorized(
                    String::from_str(
                        "Client identity check failed, please check your TLS certificate.",
                    ),
                );
            },
            Ok(u) => u,
        };
        if crate::storage::is_metadata_file_name(file_id) {
            return SSFResponder::BadRequest(String::from_str("The file_id is invalid!"));
        }
        let folder_entity = match self.db.get_folder_by_id(&user.user_email, folder_id) {
            Err(_) => {
                return SSFResponder::NotFound(String::from_str("Folder not found"));
            },
            Ok(f) => f,
        };
        let ghost pre = *self;
        let input = crate::storage::WriteInput {
            folder_entity,
            file_id: file_id.clone(),
            file_to_write: Some(crate::db::copy_bytes(&upload.file)),
            metadata_file: crate::db::copy_bytes(&upload.metadata),
            parent_etag: clone_opt_string(&upload.parent_etag),
            parent_version: clone_opt_string(&upload.parent_version),
        };
        match self.store.write(input) {
            Ok((etag, version)) => {
                proof {
                    let msv = self.db.memberships_v();
                    let w = choose|w: int|
                        0 <= w < msv.len() && (#[trigger] msv[w]).folder_id == folder_id
                            && msv[w].user_email == user.user_email@;
                    assert(self.db.folders@.contains(folder_id));
                    lemma_links_after_write(
                        self.db,
                        pre.store,
                        self.store,
                        folder_id,
                        upload.metadata@,
                        pre.store.next_gen,
                        Some((file_id@, upload.file@)),
                    );
                }
                SSFResponder::Created(UploadFileResponse { etag, version })
            },
            Err(crate::errors::StoreError::Internal) => SSFResponder::InternalServerError(
                String::from_str("Internal Server Error"),
            ),
            Err(crate::errors::StoreError::NotFound) => {
                // Unreachable: a write never reports a missing object.
                proof {
                    assert(false);
                }
                SSFResponder::InternalServerError(String::from_str("Internal Server Error"))
            },
            Err(_) => SSFResponder::Conflict(String::from_str("Precondition failed")),
        }
    }

    /// Uploads a new version of the folder metadata alone, under the
    /// caller's parent token; a stale token is a conflict.
    pub fn post_metadata(
        &mut self,
        client_certificate: &CertificateWithEmails,
        folder_id: u64,
        metadata_upload: &MetadataUpload,
    ) -> (r: SSFResponder<UploadFileResponse>)
        requires
            old(self).wf(),
        ensures
            final(self).wf(),
            final(self).db == old(self).db,
            ({
                let me = identity_of(old(self).db, *client_certificate);
                let member = is_member(old(self).db.memberships_v(), folder_id, me);
                let cur = find_object(old(self).store.objects_v(), folder_id, metadata_name());
                let has_parent = metadata_upload.parent_etag is Some
                    || metadata_upload.parent_version is Some;
                let pe = crate::storage::opt_view(metadata_upload.parent_etag);
                let pv = crate::storage::opt_view(metadata_upload.parent_version);
                let fits = (if has_parent {
                    cur matches Some(c) && crate::storage::update_matches(c, pe, pv)
                } else {
                    cur is None
                });
                &&& (r is Unauthorized <==> !identified(old(self).db, *client_certificate))
                &&& (r is NotFound <==> identified(old(self).db, *client_certificate) && !member)
                &&& (r is InternalServerError <==> identified(old(self).db, *client_certificate)
                    && member && old(self).store.next_gen == u64::MAX)
                &&& (r is Conflict <==> identified(old(self).db, *client_certificate) && member
                    && old(self).store.next_gen < u64::MAX && !fits)
                &&& (r is Created <==> identified(old(self).db, *client_certificate) && member
                    && old(self).store.next_gen < u64::MAX && fits)
                &&& (r matches SSFResponder::Created(resp) ==> {
                    &&& (resp.etag matches Some(e) && e@ == crate::decimal::spec_decimal(
                        old(self).store.next_gen as int,
                    ) && e@.len() >= 1)
                    &&& resp.version is None
                    &&& final(self).store.objects_v() == crate::storage::object_after_write(
                        old(self).store.objects_v(),
                        folder_id,
                        metadata_name(),
                        metadata_upload.metadata@,
                        old(self).store.next_gen,
                    )
                    &&& final(self).store.next_gen == old(self).store.next_gen + 1
                })
                &&& (!(r is Created) ==> *final(self) == *old(self))
            }),
    {
        let user = match self.db.get_known_user(&client_certificate.emails) {
            Err(_) => {
                return SSFResponder::Unauthorized(
                    String::from_str(
                        "Client identity check failed, please check your TLS certificate.",
                    ),
                );
            },
            Ok(u) => u,
        };
        let folder_entity = match self.db.get_folder_by_id(&user.user_email, folder_id) {
            Err(_) => {
                return SSFResponder::NotFound(String::from_str("Folder not found"));
            },
            Ok(f) => f,
        };
        let ghost pre = *self;
        let input = crate::storage::WriteInput {
            folder_entity,
            file_id: String::new(),
            file_to_write: None,
            metadata_file: crate::db::copy_bytes(&metadata_upload.metadata),
            parent_etag: clone_opt_string(&metadata_upload.parent_etag),
            parent_version: clone_opt_string(&metadata_upload.parent_version),
        };
        match self.store.write(input) {
            Ok((etag, version)) => {
                proof {
                    let msv = self.db.memberships_v();
                    let w = choose|w: int|
                        0 <= w < msv.len() && (#[trigger] msv[w]).folder_id == folder_id
                            && msv[w].user_email == user.user_email@;
                    assert(self.db.folders@.contains(folder_id));
                    lemma_links_after_write(
                        self.db,
                        pre.store,
                        self.store,
                        folder_id,
                        metadata_upload.metadata@,
                        pre.store.next_gen,
                        None,
                    );
                }
                SSFResponder::Created(UploadFileResponse { etag, version })
            },
            Err(crate::errors::StoreError::Internal) => SSFResponder::InternalServerError(
                String::from_str("Internal Server Error"),
            ),
            Err(crate::errors::StoreError::NotFound) => {
                // Unreachable: a write never reports a missing object.
                proof {
                    assert(false);
                }
                SSFResponder::InternalServerError(String::from_str("Internal Server Error"))
            },
            Err(_) => SSFResponder::Conflict(String::from_str("Precondition failed")),
        }
    }
}


/// The event text a connected subscriber receives for a notification meant
/// for them: the folder id in decimal, or `-1` when the notification asks
/// them to produce a new key package.  Notifications for other receivers
/// yield nothing.
pub fn sse(notification: &Notification, user_email: &String) -> (r: Option<String>)
    ensures
        r is Some <==> notification.receiver@ == user_email@,
        r matches Some(event) ==> event@ == (match notification.folder_id {
            Some(folder) => crate::decimal::spec_decimal(folder as int),
            None => "-1"@,
        }),
{
    if !(notification.receiver == *user_email) {
        return None;
    }
    match notification.folder_id {
        Some(folder) => Some(crate::decimal::u64_to_string(folder)),
        None => Some(String::from_str("-1")),
    }
}

} // verus!




