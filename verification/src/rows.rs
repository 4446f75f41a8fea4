//! Mathematical views of the table rows.
//!
//! Every executable entity has a row view whose fields are pure values
//! (`u64`, `Seq<char>`, `Seq<u8>`), so that contracts and laws can state
//! table transformations as plain equalities between sequences of rows.

use vstd::prelude::*;

use crate::db::ApplicationMessageEntity;
use crate::db::GroupMessageEntity;
use crate::db::KeyPackageEntity;
use crate::db::Membership;
use crate::db::PendingGroupMessageEntity;

verus! {

/// View of a membership row.
pub struct MembershipRow {
    pub folder_id: u64,
    pub user_email: Seq<char>,
}

/// View of a pending-message row.
pub struct PendingRow {
    pub message_id: u64,
    pub folder_id: u64,
    pub user_email: Seq<char>,
    pub payload: Seq<u8>,
    pub creator: Seq<char>,
}

/// View of an application-message row.
pub struct AppRow {
    pub message_id: u64,
    pub payload: Seq<u8>,
}

/// View of a key-package row.
pub struct KeyPackageRow {
    pub key_package_id: u64,
    pub user_email: Seq<char>,
    pub key_package: Seq<u8>,
}

/// View of a fully readable queue entry.
pub struct GroupMessageRow {
    pub message_id: u64,
    pub folder_id: u64,
    pub user_email: Seq<char>,
    pub payload: Seq<u8>,
    pub application_payload: Seq<u8>,
}

impl View for Membership {
    type V = MembershipRow;

    open spec fn view(&self) -> MembershipRow {
        MembershipRow { folder_id: self.folder_id, user_email: self.user_email@ }
    }
}

impl View for PendingGroupMessageEntity {
    type V = PendingRow;

    open spec fn view(&self) -> PendingRow {
        PendingRow {
            message_id: self.message_id,
            folder_id: self.folder_id,
            user_email: self.user_email@,
            payload: self.payload@,
            creator: self.creator@,
        }
    }
}

impl View for ApplicationMessageEntity {
    type V = AppRow;

    open spec fn view(&self) -> AppRow {
        AppRow { message_id: self.message_id, payload: self.payload@ }
    }
}

impl View for KeyPackageEntity {
    type V = KeyPackageRow;

    open spec fn view(&self) -> KeyPackageRow {
        KeyPackageRow {
            key_package_id: self.key_package_id,
            user_email: self.user_email@,
            key_package: self.key_package@,
        }
    }
}

impl View for GroupMessageEntity {
    type V = GroupMessageRow;

    open spec fn view(&self) -> GroupMessageRow {
        GroupMessageRow {
            message_id: self.message_id,
            folder_id: self.folder_id,
            user_email: self.user_email@,
            payload: self.payload@,
            application_payload: self.application_payload@,
        }
    }
}

/// The email views of a table of emails.
pub open spec fn email_views(s: Seq<String>) -> Seq<Seq<char>> {
    Seq::new(s.len(), |i: int| s[i]@)
}

/// The row views of a membership table.
pub open spec fn membership_views(s: Seq<Membership>) -> Seq<MembershipRow> {
    Seq::new(s.len(), |i: int| s[i]@)
}

/// The row views of a pending-message table.
pub open spec fn pending_views(s: Seq<PendingGroupMessageEntity>) -> Seq<PendingRow> {
    Seq::new(s.len(), |i: int| s[i]@)
}

/// The row views of an application-message table.
pub open spec fn app_views(s: Seq<ApplicationMessageEntity>) -> Seq<AppRow> {
    Seq::new(s.len(), |i: int| s[i]@)
}

/// The row views of a key-package table.
pub open spec fn key_package_views(s: Seq<KeyPackageEntity>) -> Seq<KeyPackageRow> {
    Seq::new(s.len(), |i: int| s[i]@)
}

} // verus!
