//! The relational state of the delivery service: users, folders, the
//! folder-membership relation, the per-recipient message queues and the
//! key-package pool, together with the operations the request surface needs.
//!
//! The state is a value; every operation says exactly how the new state
//! relates to the old one, over the row views of [`crate::rows`].  The
//! well-formedness predicate [`Directory::wf`] carries the table invariants:
//! unique emails, unique membership pairs, every folder backed by at least
//! one membership row, strictly increasing message and key-package ids, and
//! every application message attached to a pending row.

use vstd::prelude::*;

use crate::errors::DbError;
use crate::errors::PublishError;
use crate::errors::ShareError;
use crate::queue::apps_unique;
use crate::queue::filtered;
use crate::queue::keep_attached;
use crate::queue::keep_not_queue;
use crate::queue::key_app;
use crate::queue::key_folder;
use crate::queue::key_membership;
use crate::queue::key_pending;
use crate::queue::key_packages_sorted;
use crate::queue::lemma_filtered_elem;
use crate::queue::lemma_filtered_keeps;
use crate::queue::lemma_filtered_sorted;
use crate::queue::lemma_filtered_unique;
use crate::queue::pending_has_id;
use crate::queue::pending_sorted;
use crate::queue::remove_all_pending;
use crate::queue::restrict_apps;
use crate::queue::count_pending;
use crate::queue::members_except;
use crate::queue::queue_publish;
use crate::rows::app_views;
use crate::rows::email_views;
use crate::rows::key_package_views;
use crate::rows::membership_views;
use crate::rows::pending_views;
use crate::rows::AppRow;
use crate::rows::KeyPackageRow;
use crate::rows::MembershipRow;
use crate::rows::PendingRow;

verus! {

/// A registered user.
pub struct UserEntity {
    pub user_email: String,
}

/// A folder; the id is auto-assigned and never reused.
pub struct FolderEntity {
    pub folder_id: u64,
}

/// One row of the folder-membership relation.
pub struct Membership {
    pub folder_id: u64,
    pub user_email: String,
}

/// A proposal waiting in the queue of `(folder_id, user_email)`.
pub struct PendingGroupMessageEntity {
    pub message_id: u64,
    pub folder_id: u64,
    pub user_email: String,
    pub payload: Vec<u8>,
    /// Who published the proposal; the second phase may only be run by them.
    pub creator: String,
}

/// A fully readable queue entry: the proposal and its application payload.
pub struct GroupMessageEntity {
    pub message_id: u64,
    pub folder_id: u64,
    pub user_email: String,
    pub payload: Vec<u8>,
    pub application_payload: Vec<u8>,
}

/// A single-use key package owned by a user.
pub struct KeyPackageEntity {
    pub key_package_id: u64,
    pub user_email: String,
    pub key_package: Vec<u8>,
}

/// The application payload attached to a pending message in the second
/// phase of a publish.
pub struct ApplicationMessageEntity {
    pub message_id: u64,
    pub payload: Vec<u8>,
}

/// Whether some registered user carries this email.
pub open spec fn has_email(users: Seq<Seq<char>>, email: Seq<char>) -> bool {
    users.contains(email)
}

/// Registered emails are unique.
pub open spec fn emails_unique(users: Seq<Seq<char>>) -> bool {
    forall|i: int, j: int| 0 <= i < j < users.len() ==> #[trigger] users[i] != #[trigger] users[j]
}

/// Whether `(folder_id, user)` is a membership row.
pub open spec fn is_member(ms: Seq<MembershipRow>, folder_id: u64, user: Seq<char>) -> bool {
    exists|i: int|
        0 <= i < ms.len() && (#[trigger] ms[i]).folder_id == folder_id && ms[i].user_email == user
}

/// Whether the folder has at least one membership row.
pub open spec fn is_member_of_some(ms: Seq<MembershipRow>, folder_id: u64) -> bool {
    exists|j: int| 0 <= j < ms.len() && (#[trigger] ms[j]).folder_id == folder_id
}

/// Membership pairs are unique.
pub open spec fn memberships_unique(ms: Seq<MembershipRow>) -> bool {
    forall|i: int, j: int|
        0 <= i < j < ms.len() ==> !((#[trigger] ms[i]).folder_id == (#[trigger] ms[j]).folder_id
            && ms[i].user_email == ms[j].user_email)
}

/// Predicate: the email is one of `emails`.
pub open spec fn pred_in_emails(emails: Seq<Seq<char>>) -> spec_fn(Seq<char>) -> bool {
    |u: Seq<char>| emails.contains(u)
}

/// Predicate: `user` is a member of the folder.
pub open spec fn pred_member_folder(ms: Seq<MembershipRow>, user: Seq<char>) -> spec_fn(
    u64,
) -> bool {
    |f: u64| is_member(ms, f, user)
}

/// Predicate: the email is a member of `folder_id`.
pub open spec fn pred_member_email(ms: Seq<MembershipRow>, folder_id: u64) -> spec_fn(
    Seq<char>,
) -> bool {
    |e: Seq<char>| is_member(ms, folder_id, e)
}

/// Predicate: the membership row survives the removal of `(folder_id, user)`.
pub open spec fn keep_not_member(folder_id: u64, user: Seq<char>) -> spec_fn(
    MembershipRow,
) -> bool {
    |m: MembershipRow| !(m.folder_id == folder_id && m.user_email == user)
}

/// Predicate: the folder survives the removal of `folder_id`.
pub open spec fn keep_not_folder(folder_id: u64) -> spec_fn(u64) -> bool {
    |f: u64| f != folder_id
}

/// The registered emails that occur in `emails`, in registration order:
/// what a lookup of several emails returns.
pub open spec fn matching_users(users: Seq<Seq<char>>, emails: Seq<Seq<char>>) -> Seq<Seq<char>> {
    filtered(users, pred_in_emails(emails))
}

/// The folders among `folders` of which `user` is a member, in table order.
pub open spec fn folders_of_user(
    folders: Seq<u64>,
    ms: Seq<MembershipRow>,
    user: Seq<char>,
) -> Seq<u64> {
    filtered(folders, pred_member_folder(ms, user))
}

/// The emails among `emails` that are members of `folder_id`, in the order
/// given.
pub open spec fn members_among(
    emails: Seq<Seq<char>>,
    ms: Seq<MembershipRow>,
    folder_id: u64,
) -> Seq<Seq<char>> {
    filtered(emails, pred_member_email(ms, folder_id))
}

/// The membership relation without the row `(folder_id, user)`.
pub open spec fn remove_membership(
    ms: Seq<MembershipRow>,
    folder_id: u64,
    user: Seq<char>,
) -> Seq<MembershipRow> {
    filtered(ms, keep_not_member(folder_id, user))
}

/// The folder table without `folder_id`.
pub open spec fn remove_folder(folders: Seq<u64>, folder_id: u64) -> Seq<u64> {
    filtered(folders, keep_not_folder(folder_id))
}

/// The whole relational state.
pub struct Directory {
    pub users: Vec<String>,
    pub folders: Vec<u64>,
    pub memberships: Vec<Membership>,
    pub pending: Vec<PendingGroupMessageEntity>,
    pub app_messages: Vec<ApplicationMessageEntity>,
    pub key_packages: Vec<KeyPackageEntity>,
    pub next_folder_id: u64,
    pub next_message_id: u64,
    pub next_key_package_id: u64,
}

/// The parts of the state outside the user table are untouched.
pub open spec fn same_but_users(a: Directory, b: Directory) -> bool {
    &&& a.folders@ == b.folders@
    &&& a.memberships_v() == b.memberships_v()
    &&& a.pending_v() == b.pending_v()
    &&& a.apps_v() == b.apps_v()
    &&& a.kps_v() == b.kps_v()
    &&& a.next_folder_id == b.next_folder_id
    &&& a.next_message_id == b.next_message_id
    &&& a.next_key_package_id == b.next_key_package_id
}

/// The user table, key-package pool and queues are untouched.
pub open spec fn same_but_folders(a: Directory, b: Directory) -> bool {
    &&& a.users_v() == b.users_v()
    &&& a.pending_v() == b.pending_v()
    &&& a.apps_v() == b.apps_v()
    &&& a.kps_v() == b.kps_v()
    &&& a.next_message_id == b.next_message_id
    &&& a.next_key_package_id == b.next_key_package_id
}

/// Only the message queue may differ.
pub open spec fn same_but_queue(a: Directory, b: Directory) -> bool {
    &&& a.users_v() == b.users_v()
    &&& a.folders@ == b.folders@
    &&& a.memberships_v() == b.memberships_v()
    &&& a.kps_v() == b.kps_v()
    &&& a.next_folder_id == b.next_folder_id
    &&& a.next_key_package_id == b.next_key_package_id
}

/// Only the key-package pool may differ.
pub open spec fn same_but_key_packages(a: Directory, b: Directory) -> bool {
    &&& a.users_v() == b.users_v()
    &&& a.folders@ == b.folders@
    &&& a.memberships_v() == b.memberships_v()
    &&& a.pending_v() == b.pending_v()
    &&& a.apps_v() == b.apps_v()
    &&& a.next_folder_id == b.next_folder_id
    &&& a.next_message_id == b.next_message_id
}

impl Directory {
    /// The email views of the user table.
    pub open spec fn users_v(self) -> Seq<Seq<char>> {
        email_views(self.users@)
    }

    /// The row views of the membership relation.
    pub open spec fn memberships_v(self) -> Seq<MembershipRow> {
        membership_views(self.memberships@)
    }

    /// The row views of the pending-message table.
    pub open spec fn pending_v(self) -> Seq<PendingRow> {
        pending_views(self.pending@)
    }

    /// The row views of the application-message table.
    pub open spec fn apps_v(self) -> Seq<AppRow> {
        app_views(self.app_messages@)
    }

    /// The row views of the key-package pool.
    pub open spec fn kps_v(self) -> Seq<KeyPackageRow> {
        key_package_views(self.key_packages@)
    }

    /// Folder ids strictly increase and stay below the next id to assign.
    pub open spec fn folders_wf(self) -> bool {
        &&& forall|i: int, j: int|
            0 <= i < j < self.folders@.len() ==> #[trigger] self.folders@[i]
                < #[trigger] self.folders@[j]
        &&& forall|i: int|
            0 <= i < self.folders@.len() ==> #[trigger] self.folders@[i] < self.next_folder_id
    }

    /// Membership rows are unique and point at existing folders and
    /// registered users.
    pub open spec fn memberships_wf(self) -> bool {
        &&& memberships_unique(self.memberships_v())
        &&& forall|i: int|
            0 <= i < self.memberships_v().len() ==> self.folders@.contains(
                (#[trigger] self.memberships_v()[i]).folder_id,
            )
        &&& forall|i: int|
            0 <= i < self.memberships_v().len() ==> has_email(
                self.users_v(),
                (#[trigger] self.memberships_v()[i]).user_email,
            )
    }

    /// Every folder has at least one membership row: folders are deleted
    /// together with their last membership.
    pub open spec fn folders_occupied(self) -> bool {
        forall|i: int|
            0 <= i < self.folders@.len() ==> is_member_of_some(
                self.memberships_v(),
                #[trigger] self.folders@[i],
            )
    }

    /// Pending rows are sorted by message id, ids stay below the next one,
    /// application rows are unique and each is attached to a pending row.
    pub open spec fn queue_wf(self) -> bool {
        &&& pending_sorted(self.pending_v())
        &&& forall|i: int|
            0 <= i < self.pending_v().len() ==> (#[trigger] self.pending_v()[i]).message_id
                < self.next_message_id
        &&& apps_unique(self.apps_v())
        &&& forall|i: int|
            0 <= i < self.apps_v().len() ==> pending_has_id(
                self.pending_v(),
                (#[trigger] self.apps_v()[i]).message_id,
            )
    }

    /// Key packages are sorted by id and ids stay below the next one.
    pub open spec fn key_packages_wf(self) -> bool {
        &&& key_packages_sorted(self.kps_v())
        &&& forall|i: int|
            0 <= i < self.kps_v().len() ==> (#[trigger] self.kps_v()[i]).key_package_id
                < self.next_key_package_id
    }

    /// All table invariants together.
    pub open spec fn wf(self) -> bool {
        &&& emails_unique(self.users_v())
        &&& self.folders_wf()
        &&& self.memberships_wf()
        &&& self.folders_occupied()
        &&& self.queue_wf()
        &&& self.key_packages_wf()
    }

    /// An empty state, as after creating the schema.
    pub fn new() -> (d: Directory)
        ensures
            d.wf(),
            d.users_v().len() == 0,
            d.folders@.len() == 0,
            d.memberships_v().len() == 0,
            d.pending_v().len() == 0,
            d.apps_v().len() == 0,
            d.kps_v().len() == 0,
            d.next_folder_id == 1,
            d.next_message_id == 1,
            d.next_key_package_id == 1,
    {
        Directory {
            users: Vec::new(),
            folders: Vec::new(),
            memberships: Vec::new(),
            pending: Vec::new(),
            app_messages: Vec::new(),
            key_packages: Vec::new(),
            next_folder_id: 1,
            next_message_id: 1,
            next_key_package_id: 1,
        }
    }

    /// Registers a user; fails exactly when the email is taken.
    pub fn insert_user(&mut self, email: &String) -> (r: Result<(), DbError>)
        requires
            old(self).wf(),
        ensures
            final(self).wf(),
            r is Ok <==> !has_email(old(self).users_v(), email@),
            r is Ok ==> final(self).users_v() == old(self).users_v().push(email@),
            r is Err ==> *final(self) == *old(self) && r == Err::<(), DbError>(DbError::RowNotFound),
            same_but_users(*old(self), *final(self)),
    {
        if contains_email(&self.users, email) {
            Err(DbError::RowNotFound)
        } else {
            let ghost pre = *self;
            self.users.push(email.clone());
            proof {
                assert(self.users_v() =~= pre.users_v().push(email@));
                assert forall|i: int|
                    0 <= i < self.memberships_v().len() implies has_email(
                    self.users_v(),
                    (#[trigger] self.memberships_v()[i]).user_email,
                ) by {
                    let k = choose|k: int|
                        0 <= k < pre.users_v().len() && pre.users_v()[k]
                            == self.memberships_v()[i].user_email;
                    assert(self.users_v()[k] == self.memberships_v()[i].user_email);
                }
            }
            Ok(())
        }
    }

    /// Looks a user up by email.
    pub fn get_user_by_email(&self, email: &String) -> (r: Result<UserEntity, DbError>)
        ensures
            r is Ok <==> has_email(self.users_v(), email@),
            r matches Ok(u) ==> u.user_email@ == email@,
            r is Err ==> r == Err::<UserEntity, DbError>(DbError::RowNotFound),
    {
        if contains_email(&self.users, email) {
            Ok(UserEntity { user_email: email.clone() })
        } else {
            Err(DbError::RowNotFound)
        }
    }

    /// Lists every registered user, in registration order.
    pub fn list_users(&self) -> (r: Vec<UserEntity>)
        ensures
            r@.len() == self.users_v().len(),
            forall|i: int|
                0 <= i < r@.len() ==> (#[trigger] r@[i]).user_email@ == self.users_v()[i],
    {
        let mut r: Vec<UserEntity> = Vec::new();
        let mut i: usize = 0;
        while i < self.users.len()
            invariant
                i <= self.users@.len(),
                r@.len() == i,
                forall|k: int| 0 <= k < i ==> (#[trigger] r@[k]).user_email@ == self.users_v()[k],
            decreases self.users@.len() - i,
        {
            r.push(UserEntity { user_email: self.users[i].clone() });
            i = i + 1;
        }
        r
    }

    /// Returns the registered users among the given emails, in registration
    /// order.
    pub fn get_users_by_emails(&self, user_emails: &Vec<String>) -> (r: Vec<UserEntity>)
        ensures
            r@.len() == matching_users(self.users_v(), email_views(user_emails@)).len(),
            forall|i: int|
                0 <= i < r@.len() ==> (#[trigger] r@[i]).user_email@ == matching_users(
                    self.users_v(),
                    email_views(user_emails@),
                )[i],
    {
        let ghost full = self.users_v();
        let ghost emails = email_views(user_emails@);
        let mut r: Vec<UserEntity> = Vec::new();
        let mut i: usize = 0;
        while i < self.users.len()
            invariant
                i <= self.users@.len(),
                full == self.users_v(),
                emails == email_views(user_emails@),
                r@.len() == matching_users(full.take(i as int), emails).len(),
                forall|k: int|
                    0 <= k < r@.len() ==> (#[trigger] r@[k]).user_email@ == matching_users(
                        full.take(i as int),
                        emails,
                    )[k],
            decreases self.users@.len() - i,
        {
            proof {
                assert(full.take(i + 1).drop_last() =~= full.take(i as int));
                assert(full.take(i + 1).last() == full[i as int]);
            }
            if contains_email(user_emails, &self.users[i]) {
                r.push(UserEntity { user_email: self.users[i].clone() });
            }
            i = i + 1;
        }
        proof {
            assert(full.take(self.users@.len() as int) =~= full);
        }
        r
    }

    /// Resolves the identity presented by a client certificate: the emails in
    /// the certificate must match exactly one registered user.
    pub fn get_known_user(&self, cert_emails: &Vec<String>) -> (r: Result<UserEntity, DbError>)
        ensures
            r is Ok <==> matching_users(self.users_v(), email_views(cert_emails@)).len() == 1,
            r matches Ok(u) ==> u.user_email@ == matching_users(
                self.users_v(),
                email_views(cert_emails@),
            )[0],
            r is Err ==> r == Err::<UserEntity, DbError>(DbError::RowNotFound),
    {
        let users = self.get_users_by_emails(cert_emails);
        if users.len() == 1 {
            Ok(UserEntity { user_email: users[0].user_email.clone() })
        } else {
            Err(DbError::RowNotFound)
        }
    }

    /// Returns the folder if `email` is one of its members, and a not-found
    /// error otherwise: non-members cannot tell a folder they were not given
    /// from one that does not exist.
    pub fn get_folder_by_id(&self, email: &String, folder_id: u64) -> (r: Result<
        FolderEntity,
        DbError,
    >)
        ensures
            r is Ok <==> is_member(self.memberships_v(), folder_id, email@),
            r matches Ok(f) ==> f.folder_id == folder_id,
            r is Err ==> r == Err::<FolderEntity, DbError>(DbError::RowNotFound),
    {
        if is_member_vec(&self.memberships, folder_id, email) {
            Ok(FolderEntity { folder_id })
        } else {
            Err(DbError::RowNotFound)
        }
    }

    /// Lists the folders the user is a member of, in table order.
    pub fn list_folders(&self, email: &String) -> (r: Vec<FolderEntity>)
        ensures
            r@.len() == folders_of_user(self.folders@, self.memberships_v(), email@).len(),
            forall|i: int|
                0 <= i < r@.len() ==> (#[trigger] r@[i]).folder_id == folders_of_user(
                    self.folders@,
                    self.memberships_v(),
                    email@,
                )[i],
    {
        let ghost full = self.folders@;
        let mut r: Vec<FolderEntity> = Vec::new();
        let mut i: usize = 0;
        while i < self.folders.len()
            invariant
                i <= full.len(),
                full == self.folders@,
                r@.len() == folders_of_user(full.take(i as int), self.memberships_v(), email@).len(),
                forall|k: int|
                    0 <= k < r@.len() ==> (#[trigger] r@[k]).folder_id == folders_of_user(
                        full.take(i as int),
                        self.memberships_v(),
                        email@,
                    )[k],
            decreases full.len() - i,
        {
            proof {
                assert(full.take(i + 1).drop_last() =~= full.take(i as int));
                assert(full.take(i + 1).last() == full[i as int]);
            }
            if is_member_vec(&self.memberships, self.folders[i], email) {
                r.push(FolderEntity { folder_id: self.folders[i] });
            }
            i = i + 1;
        }
        proof {
            assert(full.take(full.len() as int) =~= full);
        }
        r
    }

    /// Returns the members of `folder_id` among the given emails, in the
    /// order given.
    pub fn list_users_for_folder(&self, user_emails: &Vec<String>, folder_id: u64) -> (r: Vec<
        UserEntity,
    >)
        ensures
            r@.len() == members_among(
                email_views(user_emails@),
                self.memberships_v(),
                folder_id,
            ).len(),
            forall|i: int|
                0 <= i < r@.len() ==> (#[trigger] r@[i]).user_email@ == members_among(
                    email_views(user_emails@),
                    self.memberships_v(),
                    folder_id,
                )[i],
    {
        let ghost emails = email_views(user_emails@);
        let mut r: Vec<UserEntity> = Vec::new();
        let mut i: usize = 0;
        while i < user_emails.len()
            invariant
                i <= emails.len(),
                emails == email_views(user_emails@),
                r@.len() == members_among(emails.take(i as int), self.memberships_v(), folder_id).len(),
                forall|k: int|
                    0 <= k < r@.len() ==> (#[trigger] r@[k]).user_email@ == members_among(
                        emails.take(i as int),
                        self.memberships_v(),
                        folder_id,
                    )[k],
            decreases emails.len() - i,
        {
            proof {
                assert(emails.take(i + 1).drop_last() =~= emails.take(i as int));
                assert(emails.take(i + 1).last() == emails[i as int]);
            }
            if is_member_vec(&self.memberships, folder_id, &user_emails[i]) {
                r.push(UserEntity { user_email: user_emails[i].clone() });
            }
            i = i + 1;
        }
        proof {
            assert(emails.take(emails.len() as int) =~= emails);
        }
        r
    }

    /// Creates a folder owned by `user_email`: a fresh id and, atomically,
    /// the first membership row.
    pub fn insert_folder_and_relation(&mut self, user_email: &String) -> (r: Result<u64, DbError>)
        requires
            old(self).wf(),
        ensures
            final(self).wf(),
            r is Ok <==> has_email(old(self).users_v(), user_email@) && old(self).next_folder_id
                < u64::MAX,
            r matches Ok(id) ==> {
                &&& id == old(self).next_folder_id
                &&& final(self).folders@ == old(self).folders@.push(id)
                &&& final(self).memberships_v() == old(self).memberships_v().push(
                    MembershipRow { folder_id: id, user_email: user_email@ },
                )
                &&& final(self).next_folder_id == old(self).next_folder_id + 1
            },
            r is Err ==> *final(self) == *old(self) && r == Err::<u64, DbError>(DbError::Internal),
            same_but_folders(*old(self), *final(self)),
    {
        if !contains_email(&self.users, user_email) {
            return Err(DbError::Internal);
        }
        if self.next_folder_id == u64::MAX {
            return Err(DbError::Internal);
        }
        let ghost pre = *self;
        let id = self.next_folder_id;
        self.folders.push(id);
        self.memberships.push(Membership { folder_id: id, user_email: user_email.clone() });
        self.next_folder_id = id + 1;
        proof {
            assert(self.memberships_v() =~= pre.memberships_v().push(
                MembershipRow { folder_id: id, user_email: user_email@ },
            ));
            assert(self.folders@ == pre.folders@.push(id));
            let msv = self.memberships_v();
            assert forall|i: int|
                0 <= i < msv.len() implies self.folders@.contains(
                (#[trigger] msv[i]).folder_id,
            ) by {
                if i < pre.memberships_v().len() {
                    assert(msv[i] == pre.memberships_v()[i]);
                    let k = choose|k: int|
                        0 <= k < pre.folders@.len() && pre.folders@[k] == msv[i].folder_id;
                    assert(self.folders@[k] == msv[i].folder_id);
                } else {
                    assert(msv[i].folder_id == id);
                    assert(self.folders@[pre.folders@.len() as int] == id);
                }
            }
            assert forall|i: int|
                0 <= i < self.folders@.len() implies is_member_of_some(
                msv,
                #[trigger] self.folders@[i],
            ) by {
                if i < pre.folders@.len() {
                    let k = choose|k: int|
                        0 <= k < pre.memberships_v().len()
                            && (#[trigger] pre.memberships_v()[k]).folder_id == pre.folders@[i];
                    assert(msv[k].folder_id == self.folders@[i]);
                } else {
                    assert(msv[pre.memberships_v().len() as int].folder_id == id);
                }
            }
        }
        Ok(id)
    }

    /// Removes the user from the folder: the membership row, the user's
    /// pending messages for the folder with their application payloads, and
    /// — when the last member left — the folder row itself.
    pub fn remove_user_from_folder(&mut self, folder_id: u64, email: &String) -> (r: Result<
        (),
        DbError,
    >)
        requires
            old(self).wf(),
        ensures
            final(self).wf(),
            r is Ok <==> is_member(old(self).memberships_v(), folder_id, email@),
            r is Err ==> *final(self) == *old(self) && r == Err::<(), DbError>(DbError::RowNotFound),
            r is Ok ==> {
                &&& final(self).memberships_v() == remove_membership(
                    old(self).memberships_v(),
                    folder_id,
                    email@,
                )
                &&& final(self).pending_v() == remove_all_pending(
                    old(self).pending_v(),
                    folder_id,
                    email@,
                )
                &&& final(self).apps_v() == restrict_apps(old(self).apps_v(), final(self).pending_v())
                &&& final(self).folders@ == if is_member_of_some(
                    final(self).memberships_v(),
                    folder_id,
                ) {
                    old(self).folders@
                } else {
                    remove_folder(old(self).folders@, folder_id)
                }
            },
            final(self).users_v() == old(self).users_v(),
            final(self).kps_v() == old(self).kps_v(),
            final(self).next_folder_id == old(self).next_folder_id,
            final(self).next_message_id == old(self).next_message_id,
            final(self).next_key_package_id == old(self).next_key_package_id,
    {
        if !is_member_vec(&self.memberships, folder_id, email) {
            return Err(DbError::RowNotFound);
        }
        let ghost pre = *self;
        let new_memberships = retain_memberships(&self.memberships, folder_id, email);
        self.memberships = new_memberships;
        let new_pending = retain_pending(&self.pending, folder_id, email);
        self.pending = new_pending;
        let new_apps = retain_apps(&self.app_messages, &self.pending);
        self.app_messages = new_apps;
        if !some_member_vec(&self.memberships, folder_id) {
            let new_folders = retain_folders(&self.folders, folder_id);
            self.folders = new_folders;
        }
        proof {
            let keep_m = keep_not_member(folder_id, email@);
            lemma_filtered_unique(pre.memberships_v(), keep_m, key_membership());
            lemma_filtered_elem(pre.memberships_v(), keep_m);
            let msv = self.memberships_v();
            assert forall|i: int|
                0 <= i < msv.len() implies self.folders@.contains(
                (#[trigger] msv[i]).folder_id,
            ) && has_email(self.users_v(), msv[i].user_email) by {
                let j = choose|j: int|
                    0 <= j < pre.memberships_v().len() && pre.memberships_v()[j] == msv[i];
                assert(pre.folders@.contains(msv[i].folder_id));
                if is_member_of_some(msv, folder_id) {
                } else {
                    assert(msv[i].folder_id != folder_id) by {
                        if msv[i].folder_id == folder_id {
                            assert(is_member_of_some(msv, folder_id));
                        }
                    }
                    let k = choose|k: int|
                        0 <= k < pre.folders@.len() && pre.folders@[k] == msv[i].folder_id;
                    lemma_filtered_keeps(pre.folders@, keep_not_folder(folder_id), k);
                }
            }
            if !is_member_of_some(msv, folder_id) {
                lemma_filtered_sorted(pre.folders@, keep_not_folder(folder_id), key_folder());
                lemma_filtered_elem(pre.folders@, keep_not_folder(folder_id));
            }
            assert forall|i: int|
                0 <= i < self.folders@.len() implies is_member_of_some(
                msv,
                #[trigger] self.folders@[i],
            ) by {
                let g = self.folders@[i];
                if is_member_of_some(msv, folder_id) && g == folder_id {
                } else {
                    assert(pre.folders@.contains(g) && (g != folder_id || is_member_of_some(
                        msv,
                        folder_id,
                    ))) by {
                        if !is_member_of_some(msv, folder_id) {
                            lemma_filtered_elem(pre.folders@, keep_not_folder(folder_id));
                        }
                    }
                    let k = choose|k: int|
                        0 <= k < pre.memberships_v().len()
                            && (#[trigger] pre.memberships_v()[k]).folder_id == g;
                    if g != folder_id {
                        lemma_filtered_keeps(pre.memberships_v(), keep_m, k);
                        let w = choose|w: int| 0 <= w < msv.len() && msv[w] == pre.memberships_v()[k];
                        assert(msv[w].folder_id == g);
                    } else {
                    }
                }
            }
            let keep_p = keep_not_queue(folder_id, email@);
            lemma_filtered_sorted(pre.pending_v(), keep_p, key_pending());
            lemma_filtered_elem(pre.pending_v(), keep_p);
            let keep_a = keep_attached(self.pending_v());
            lemma_filtered_unique(pre.apps_v(), keep_a, key_app());
            lemma_filtered_elem(pre.apps_v(), keep_a);
        }
        Ok(())
    }
}


/// The membership relation after adding the given emails to `folder_id`:
/// processed in order, an email is added when it is registered and not yet a
/// member, and silently skipped otherwise.
pub open spec fn add_members(
    ms: Seq<MembershipRow>,
    users: Seq<Seq<char>>,
    folder_id: u64,
    given: Seq<Seq<char>>,
) -> Seq<MembershipRow>
    decreases given.len(),
{
    if given.len() == 0 {
        ms
    } else {
        let ms1 = if has_email(users, given[0]) && !is_member(ms, folder_id, given[0]) {
            ms.push(MembershipRow { folder_id, user_email: given[0] })
        } else {
            ms
        };
        add_members(ms1, users, folder_id, given.drop_first())
    }
}

impl Directory {
    /// Shares a folder: the actor must be a member; when a proposal rides
    /// along it is enqueued first — against the old membership, so the
    /// invitees do not receive the proposal that adds them — and then the
    /// given emails are added, silently skipping unregistered emails and
    /// existing members.
    pub fn insert_folder_users_relations(
        &mut self,
        folder_id: u64,
        owner_email: &String,
        user_emails: &Vec<String>,
        proposal: Option<&Vec<u8>>,
    ) -> (r: Result<(Vec<String>, Option<Vec<u64>>), ShareError>)
        requires
            old(self).wf(),
        ensures
            final(self).wf(),
            final(self).users_v() == old(self).users_v(),
            final(self).kps_v() == old(self).kps_v(),
            final(self).folders@ == old(self).folders@,
            final(self).next_folder_id == old(self).next_folder_id,
            final(self).next_key_package_id == old(self).next_key_package_id,
            r is Err ==> *final(self) == *old(self),
            r matches Err(e) ==> (e is RowNotFound <==> !is_member(
                old(self).memberships_v(),
                folder_id,
                owner_email@,
            )),
            r matches Err(e) ==> (e is Pending <==> is_member(
                old(self).memberships_v(),
                folder_id,
                owner_email@,
            ) && proposal is Some && count_pending(
                old(self).pending_v(),
                folder_id,
                owner_email@,
            ) > 0),
            r is Ok <==> is_member(old(self).memberships_v(), folder_id, owner_email@) && (
            proposal is Some ==> (count_pending(old(self).pending_v(), folder_id, owner_email@)
                == 0 && old(self).next_message_id + members_except(
                old(self).memberships_v(),
                folder_id,
                owner_email@,
            ).len() <= u64::MAX)),
            r matches Ok((rcpts, mids)) ==> {
                &&& final(self).memberships_v() == add_members(
                    old(self).memberships_v(),
                    old(self).users_v(),
                    folder_id,
                    email_views(user_emails@),
                )
                &&& match proposal {
                    None => {
                        &&& final(self).pending_v() == old(self).pending_v()
                        &&& final(self).apps_v() == old(self).apps_v()
                        &&& final(self).next_message_id == old(self).next_message_id
                        &&& rcpts@.len() == 0
                        &&& mids is None
                    },
                    Some(p) => {
                        &&& email_views(rcpts@) == members_except(
                            old(self).memberships_v(),
                            folder_id,
                            owner_email@,
                        )
                        &&& (mids matches Some(ids) && queue_publish(
                            old(self).pending_v(),
                            final(self).pending_v(),
                            old(self).next_message_id,
                            final(self).next_message_id,
                            owner_email@,
                            folder_id,
                            p@,
                            email_views(rcpts@),
                            ids@,
                        ))
                        &&& final(self).apps_v() == old(self).apps_v()
                    },
                }
            },
    {
        if !is_member_vec(&self.memberships, folder_id, owner_email) {
            return Err(ShareError::RowNotFound);
        }
        let mut rcpts: Vec<String> = Vec::new();
        let mut mids: Option<Vec<u64>> = None;
        match proposal {
            Some(p) => {
                match self.insert_message(owner_email, folder_id, p) {
                    Ok((rc, ids)) => {
                        rcpts = rc;
                        mids = Some(ids);
                    },
                    Err(PublishError::Pending(_)) => {
                        return Err(ShareError::Pending);
                    },
                    Err(PublishError::Internal) => {
                        return Err(ShareError::Internal);
                    },
                }
            },
            None => {},
        }
        let ghost mid_state = *self;
        let ghost given = email_views(user_emails@);
        let ghost users_vv = self.users_v();
        let ghost ms0 = self.memberships_v();
        proof {
            let w = choose|w: int|
                0 <= w < ms0.len() && (#[trigger] ms0[w]).folder_id == folder_id
                    && ms0[w].user_email == owner_email@;
            assert(self.folders@.contains(folder_id));
            assert(given.skip(0) =~= given);
        }
        let mut i: usize = 0;
        while i < user_emails.len()
            invariant
                i <= given.len(),
                given == email_views(user_emails@),
                users_vv == self.users_v(),
                mid_state.wf(),
                self.wf(),
                self.folders@.contains(folder_id),
                add_members(ms0, users_vv, folder_id, given) == add_members(
                    self.memberships_v(),
                    users_vv,
                    folder_id,
                    given.skip(i as int),
                ),
                self.users@ == mid_state.users@,
                self.folders@ == mid_state.folders@,
                self.pending@ == mid_state.pending@,
                self.app_messages@ == mid_state.app_messages@,
                self.key_packages@ == mid_state.key_packages@,
                self.next_folder_id == mid_state.next_folder_id,
                self.next_message_id == mid_state.next_message_id,
                self.next_key_package_id == mid_state.next_key_package_id,
            decreases given.len() - i,
        {
            proof {
                assert(given.skip(i as int).drop_first() =~= given.skip(i + 1));
                assert(given.skip(i as int)[0] == given[i as int]);
            }
            let registered = contains_email(&self.users, &user_emails[i]);
            let already = is_member_vec(&self.memberships, folder_id, &user_emails[i]);
            if registered && !already {
                let ghost prev = *self;
                self.memberships.push(
                    Membership { folder_id, user_email: user_emails[i].clone() },
                );
                proof {
                    assert(self.memberships_v() =~= prev.memberships_v().push(
                        MembershipRow { folder_id, user_email: given[i as int] },
                    ));
                    let msv = self.memberships_v();
                    assert forall|a: int|
                        0 <= a < msv.len() implies self.folders@.contains(
                        (#[trigger] msv[a]).folder_id,
                    ) && has_email(self.users_v(), msv[a].user_email) by {
                        if a < prev.memberships_v().len() {
                            assert(msv[a] == prev.memberships_v()[a]);
                        } else {
                            assert(msv[a].folder_id == folder_id);
                        }
                    }
                    assert forall|a: int|
                        0 <= a < self.folders@.len() implies is_member_of_some(
                        msv,
                        #[trigger] self.folders@[a],
                    ) by {
                        let w = choose|w: int|
                            0 <= w < prev.memberships_v().len()
                                && (#[trigger] prev.memberships_v()[w]).folder_id
                                == self.folders@[a];
                        assert(msv[w].folder_id == self.folders@[a]);
                    }
                }
            }
            i = i + 1;
        }
        proof {
            assert(given.skip(given.len() as int) =~= Seq::<Seq<char>>::empty());
        }
        Ok((rcpts, mids))
    }
}

/// Every folder exists exactly when it has at least one membership row, and
/// every membership row points at an existing folder.
pub proof fn lemma_folder_iff_membership(d: Directory)
    requires
        d.wf(),
    ensures
        forall|i: int|
            0 <= i < d.folders@.len() ==> is_member_of_some(
                d.memberships_v(),
                #[trigger] d.folders@[i],
            ),
        forall|j: int|
            0 <= j < d.memberships_v().len() ==> d.folders@.contains(
                (#[trigger] d.memberships_v()[j]).folder_id,
            ),
{
}

/// Scans a table of emails for one equal to `email`.
pub fn contains_email(users: &Vec<String>, email: &String) -> (b: bool)
    ensures
        b == has_email(email_views(users@), email@),
{
    let mut i: usize = 0;
    while i < users.len()
        invariant
            i <= users@.len(),
            forall|k: int| 0 <= k < i ==> email_views(users@)[k] != email@,
        decreases users@.len() - i,
    {
        if users[i] == *email {
            proof {
                assert(email_views(users@)[i as int] == email@);
            }
            return true;
        }
        i = i + 1;
    }
    false
}

/// Scans the membership relation for the row `(folder_id, email)`.
pub fn is_member_vec(ms: &Vec<Membership>, folder_id: u64, email: &String) -> (b: bool)
    ensures
        b == is_member(membership_views(ms@), folder_id, email@),
{
    let mut i: usize = 0;
    while i < ms.len()
        invariant
            i <= ms@.len(),
            forall|k: int|
                0 <= k < i ==> !((#[trigger] membership_views(ms@)[k]).folder_id == folder_id
                    && membership_views(ms@)[k].user_email == email@),
        decreases ms@.len() - i,
    {
        if ms[i].folder_id == folder_id && ms[i].user_email == *email {
            proof {
                assert(membership_views(ms@)[i as int].folder_id == folder_id);
            }
            return true;
        }
        i = i + 1;
    }
    false
}

/// Scans the membership relation for any row of the folder.
pub fn some_member_vec(ms: &Vec<Membership>, folder_id: u64) -> (b: bool)
    ensures
        b == is_member_of_some(membership_views(ms@), folder_id),
{
    let mut i: usize = 0;
    while i < ms.len()
        invariant
            i <= ms@.len(),
            forall|k: int| 0 <= k < i ==> (#[trigger] membership_views(ms@)[k]).folder_id != folder_id,
        decreases ms@.len() - i,
    {
        if ms[i].folder_id == folder_id {
            proof {
                assert(membership_views(ms@)[i as int].folder_id == folder_id);
            }
            return true;
        }
        i = i + 1;
    }
    false
}

/// Copies a byte string.
pub fn copy_bytes(v: &Vec<u8>) -> (r: Vec<u8>)
    ensures
        r@ == v@,
{
    let mut r: Vec<u8> = Vec::new();
    let mut i: usize = 0;
    while i < v.len()
        invariant
            i <= v@.len(),
            r@ == v@.take(i as int),
        decreases v@.len() - i,
    {
        r.push(v[i]);
        proof {
            assert(r@ =~= v@.take(i + 1));
        }
        i = i + 1;
    }
    proof {
        assert(v@.take(v@.len() as int) =~= v@);
    }
    r
}

/// The membership rows surviving the removal of `(folder_id, email)`.
fn retain_memberships(ms: &Vec<Membership>, folder_id: u64, email: &String) -> (r: Vec<Membership>)
    ensures
        membership_views(r@) == remove_membership(membership_views(ms@), folder_id, email@),
{
    let ghost full = membership_views(ms@);
    let mut r: Vec<Membership> = Vec::new();
    let mut i: usize = 0;
    while i < ms.len()
        invariant
            i <= full.len(),
            full == membership_views(ms@),
            membership_views(r@) == remove_membership(full.take(i as int), folder_id, email@),
        decreases full.len() - i,
    {
        proof {
            assert(full.take(i + 1).drop_last() =~= full.take(i as int));
            assert(full.take(i + 1).last() == full[i as int]);
        }
        let ghost prev = membership_views(r@);
        if !(ms[i].folder_id == folder_id && ms[i].user_email == *email) {
            r.push(
                Membership { folder_id: ms[i].folder_id, user_email: ms[i].user_email.clone() },
            );
            proof {
                assert(membership_views(r@) =~= prev.push(full[i as int]));
            }
        }
        i = i + 1;
    }
    proof {
        assert(full.take(full.len() as int) =~= full);
    }
    r
}

/// The pending rows surviving the removal of the whole queue of
/// `(folder_id, email)`.
fn retain_pending(
    pending: &Vec<PendingGroupMessageEntity>,
    folder_id: u64,
    email: &String,
) -> (r: Vec<PendingGroupMessageEntity>)
    ensures
        pending_views(r@) == remove_all_pending(pending_views(pending@), folder_id, email@),
{
    let ghost full = pending_views(pending@);
    let mut r: Vec<PendingGroupMessageEntity> = Vec::new();
    let mut i: usize = 0;
    while i < pending.len()
        invariant
            i <= full.len(),
            full == pending_views(pending@),
            pending_views(r@) == remove_all_pending(full.take(i as int), folder_id, email@),
        decreases full.len() - i,
    {
        proof {
            assert(full.take(i + 1).drop_last() =~= full.take(i as int));
            assert(full.take(i + 1).last() == full[i as int]);
        }
        let ghost prev = pending_views(r@);
        if !(pending[i].folder_id == folder_id && pending[i].user_email == *email) {
            r.push(
                PendingGroupMessageEntity {
                    message_id: pending[i].message_id,
                    folder_id: pending[i].folder_id,
                    user_email: pending[i].user_email.clone(),
                    payload: copy_bytes(&pending[i].payload),
                    creator: pending[i].creator.clone(),
                },
            );
            proof {
                assert(pending_views(r@) =~= prev.push(full[i as int]));
            }
        }
        i = i + 1;
    }
    proof {
        assert(full.take(full.len() as int) =~= full);
    }
    r
}

/// The application rows whose message id still has a pending row.
pub(crate) fn retain_apps(
    apps: &Vec<ApplicationMessageEntity>,
    pending: &Vec<PendingGroupMessageEntity>,
) -> (r: Vec<ApplicationMessageEntity>)
    ensures
        app_views(r@) == restrict_apps(app_views(apps@), pending_views(pending@)),
{
    let ghost full = app_views(apps@);
    let mut r: Vec<ApplicationMessageEntity> = Vec::new();
    let mut i: usize = 0;
    while i < apps.len()
        invariant
            i <= full.len(),
            full == app_views(apps@),
            app_views(r@) == restrict_apps(full.take(i as int), pending_views(pending@)),
        decreases full.len() - i,
    {
        proof {
            assert(full.take(i + 1).drop_last() =~= full.take(i as int));
            assert(full.take(i + 1).last() == full[i as int]);
        }
        let ghost prev = app_views(r@);
        if has_pending_id_vec(pending, apps[i].message_id) {
            r.push(
                ApplicationMessageEntity {
                    message_id: apps[i].message_id,
                    payload: copy_bytes(&apps[i].payload),
                },
            );
            proof {
                assert(app_views(r@) =~= prev.push(full[i as int]));
            }
        }
        i = i + 1;
    }
    proof {
        assert(full.take(full.len() as int) =~= full);
    }
    r
}

/// The folder rows surviving the removal of `folder_id`.
fn retain_folders(folders: &Vec<u64>, folder_id: u64) -> (r: Vec<u64>)
    ensures
        r@ == remove_folder(folders@, folder_id),
{
    let ghost full = folders@;
    let mut r: Vec<u64> = Vec::new();
    let mut i: usize = 0;
    while i < folders.len()
        invariant
            i <= full.len(),
            full == folders@,
            r@ == remove_folder(full.take(i as int), folder_id),
        decreases full.len() - i,
    {
        proof {
            assert(full.take(i + 1).drop_last() =~= full.take(i as int));
            assert(full.take(i + 1).last() == full[i as int]);
        }
        if folders[i] != folder_id {
            r.push(folders[i]);
        }
        i = i + 1;
    }
    proof {
        assert(full.take(full.len() as int) =~= full);
    }
    r
}

/// Scans the pending table for a row with the given message id.
pub fn has_pending_id_vec(pending: &Vec<PendingGroupMessageEntity>, id: u64) -> (b: bool)
    ensures
        b == pending_has_id(pending_views(pending@), id),
{
    let mut i: usize = 0;
    while i < pending.len()
        invariant
            i <= pending@.len(),
            forall|k: int|
                0 <= k < i ==> (#[trigger] pending_views(pending@)[k]).message_id != id,
        decreases pending@.len() - i,
    {
        if pending[i].message_id == id {
            proof {
                assert(pending_views(pending@)[i as int].message_id == id);
            }
            return true;
        }
        i = i + 1;
    }
    false
}

} // verus!
