//! Specification of the per-(folder, recipient) message queue and of the
//! key-package pool.
//!
//! The executable operations live on [`crate::db::Directory`]; this module
//! holds the mathematical functions their contracts are stated over.  The
//! table functions are all instances of three combinators — keep the rows
//! that satisfy a predicate, find the first row that does, count them — so
//! their properties are proved once, generically.

use vstd::prelude::*;

use crate::db::copy_bytes;
use crate::db::is_member;
use crate::db::ApplicationMessageEntity;
use crate::db::Directory;
use crate::db::GroupMessageEntity;
use crate::db::KeyPackageEntity;
use crate::db::PendingGroupMessageEntity;
use crate::db::same_but_key_packages;
use crate::db::same_but_queue;
use crate::errors::DbError;
use crate::errors::PublishError;
use crate::rows::app_views;
use crate::rows::email_views;
use crate::rows::key_package_views;
use crate::rows::pending_views;
use crate::rows::AppRow;
use crate::rows::KeyPackageRow;
use crate::rows::MembershipRow;
use crate::rows::PendingRow;

verus! {

// ---------------------------------------------------------------------------
// Generic table combinators.
// ---------------------------------------------------------------------------
/// The rows of `s` that satisfy `keep`, in order.
pub open spec fn filtered<A>(s: Seq<A>, keep: spec_fn(A) -> bool) -> Seq<A>
    decreases s.len(),
{
    if s.len() == 0 {
        s
    } else {
        let prefix = filtered(s.drop_last(), keep);
        if keep(s.last()) {
            prefix.push(s.last())
        } else {
            prefix
        }
    }
}

/// The first row of `s` that satisfies `pred`, if any.
pub open spec fn first_where<A>(s: Seq<A>, pred: spec_fn(A) -> bool) -> Option<A>
    decreases s.len(),
{
    if s.len() == 0 {
        None
    } else {
        let prefix = first_where(s.drop_last(), pred);
        if prefix is Some {
            prefix
        } else if pred(s.last()) {
            Some(s.last())
        } else {
            None
        }
    }
}

/// How many rows of `s` satisfy `pred`.
pub open spec fn count_where<A>(s: Seq<A>, pred: spec_fn(A) -> bool) -> int
    decreases s.len(),
{
    if s.len() == 0 {
        0
    } else {
        count_where(s.drop_last(), pred) + if pred(s.last()) {
            1int
        } else {
            0int
        }
    }
}

/// Every filtered row satisfies `keep` and comes from the original table.
pub proof fn lemma_filtered_elem<A>(s: Seq<A>, keep: spec_fn(A) -> bool)
    ensures
        forall|i: int|
            0 <= i < filtered(s, keep).len() ==> keep(#[trigger] filtered(s, keep)[i]) && exists|
                j: int,
            | 0 <= j < s.len() && s[j] == filtered(s, keep)[i],
        filtered(s, keep).len() <= s.len(),
    decreases s.len(),
{
    if s.len() > 0 {
        lemma_filtered_elem(s.drop_last(), keep);
        let prefix = filtered(s.drop_last(), keep);
        assert forall|i: int|
            0 <= i < filtered(s, keep).len() implies keep(#[trigger] filtered(s, keep)[i])
            && exists|j: int| 0 <= j < s.len() && s[j] == filtered(s, keep)[i] by {
            if i < prefix.len() {
                assert(filtered(s, keep)[i] == prefix[i]);
                let j = choose|j: int| 0 <= j < s.drop_last().len() && s.drop_last()[j] == prefix[i];
                assert(s[j] == filtered(s, keep)[i]);
            } else {
                assert(filtered(s, keep)[i] == s.last());
                assert(s[s.len() - 1] == filtered(s, keep)[i]);
            }
        }
    }
}

/// A row that `keep` retains stays in the table.
pub proof fn lemma_filtered_keeps<A>(s: Seq<A>, keep: spec_fn(A) -> bool, j: int)
    requires
        0 <= j < s.len(),
        keep(s[j]),
    ensures
        filtered(s, keep).contains(s[j]),
    decreases s.len(),
{
    if j == s.len() - 1 {
        let prefix = filtered(s.drop_last(), keep);
        assert(filtered(s, keep)[prefix.len() as int] == s.last());
    } else {
        lemma_filtered_keeps(s.drop_last(), keep, j);
        let prefix = filtered(s.drop_last(), keep);
        let k = choose|k: int| 0 <= k < prefix.len() && prefix[k] == s.drop_last()[j];
        if keep(s.last()) {
            assert(filtered(s, keep)[k] == s[j]);
        } else {
            assert(filtered(s, keep)[k] == s[j]);
        }
    }
}

/// Filtering keeps a strictly increasing `u64` key strictly increasing.
pub proof fn lemma_filtered_sorted<A>(s: Seq<A>, keep: spec_fn(A) -> bool, key: spec_fn(A) -> u64)
    requires
        forall|i: int, j: int| 0 <= i < j < s.len() ==> key(#[trigger] s[i]) < key(#[trigger] s[j]),
    ensures
        forall|i: int, j: int|
            0 <= i < j < filtered(s, keep).len() ==> key(#[trigger] filtered(s, keep)[i]) < key(
                #[trigger] filtered(s, keep)[j],
            ),
    decreases s.len(),
{
    if s.len() > 0 {
        lemma_filtered_sorted(s.drop_last(), keep, key);
        lemma_filtered_elem(s.drop_last(), keep);
        let prefix = filtered(s.drop_last(), keep);
        assert forall|i: int, j: int|
            0 <= i < j < filtered(s, keep).len() implies key(#[trigger] filtered(s, keep)[i]) < key(
            #[trigger] filtered(s, keep)[j],
        ) by {
            if j < prefix.len() {
                assert(filtered(s, keep)[i] == prefix[i]);
                assert(filtered(s, keep)[j] == prefix[j]);
            } else {
                assert(filtered(s, keep)[j] == s.last());
                assert(filtered(s, keep)[i] == prefix[i]);
                let k = choose|k: int|
                    0 <= k < s.drop_last().len() && s.drop_last()[k] == prefix[i];
                assert(key(s[k]) < key(s[s.len() - 1]));
            }
        }
    }
}

/// Filtering keeps pairwise distinct keys pairwise distinct.
pub proof fn lemma_filtered_unique<A, K>(s: Seq<A>, keep: spec_fn(A) -> bool, key: spec_fn(A) -> K)
    requires
        forall|i: int, j: int|
            0 <= i < j < s.len() ==> key(#[trigger] s[i]) != key(#[trigger] s[j]),
    ensures
        forall|i: int, j: int|
            0 <= i < j < filtered(s, keep).len() ==> key(#[trigger] filtered(s, keep)[i]) != key(
                #[trigger] filtered(s, keep)[j],
            ),
    decreases s.len(),
{
    if s.len() > 0 {
        lemma_filtered_unique(s.drop_last(), keep, key);
        lemma_filtered_elem(s.drop_last(), keep);
        let prefix = filtered(s.drop_last(), keep);
        assert forall|i: int, j: int|
            0 <= i < j < filtered(s, keep).len() implies key(#[trigger] filtered(s, keep)[i])
            != key(#[trigger] filtered(s, keep)[j]) by {
            if j < prefix.len() {
                assert(filtered(s, keep)[i] == prefix[i]);
                assert(filtered(s, keep)[j] == prefix[j]);
            } else {
                assert(filtered(s, keep)[j] == s.last());
                assert(filtered(s, keep)[i] == prefix[i]);
                let k = choose|k: int|
                    0 <= k < s.drop_last().len() && s.drop_last()[k] == prefix[i];
                assert(key(s[k]) != key(s[s.len() - 1]));
            }
        }
    }
}

/// `first_where` returns `None` exactly when no row satisfies `pred`.
pub proof fn lemma_first_where_none<A>(s: Seq<A>, pred: spec_fn(A) -> bool)
    ensures
        first_where(s, pred) is None <==> forall|i: int| 0 <= i < s.len() ==> !pred(#[trigger] s[i]),
    decreases s.len(),
{
    if s.len() > 0 {
        lemma_first_where_none(s.drop_last(), pred);
        if first_where(s, pred) is None {
            assert forall|i: int| 0 <= i < s.len() implies !pred(#[trigger] s[i]) by {
                if i < s.len() - 1 {
                    assert(s.drop_last()[i] == s[i]);
                }
            }
        } else {
            if first_where(s.drop_last(), pred) is Some {
                let i = choose|i: int| 0 <= i < s.drop_last().len() && pred(s.drop_last()[i]);
                assert(pred(s[i]));
            }
        }
    }
}

/// A found row satisfies `pred`, sits at some index, and no earlier row
/// satisfies `pred`.
pub proof fn lemma_first_where_found<A>(s: Seq<A>, pred: spec_fn(A) -> bool)
    requires
        first_where(s, pred) is Some,
    ensures
        pred(first_where(s, pred)->0),
        exists|j: int|
            0 <= j < s.len() && s[j] == first_where(s, pred)->0 && (forall|i: int|
                0 <= i < j ==> !pred(#[trigger] s[i])),
    decreases s.len(),
{
    let m = first_where(s, pred)->0;
    if first_where(s.drop_last(), pred) is Some {
        lemma_first_where_found(s.drop_last(), pred);
        let j = choose|j: int|
            0 <= j < s.drop_last().len() && s.drop_last()[j] == m && (forall|i: int|
                0 <= i < j ==> !pred(#[trigger] s.drop_last()[i]));
        assert(s[j] == m);
        assert forall|i: int| 0 <= i < j implies !pred(#[trigger] s[i]) by {
            assert(s.drop_last()[i] == s[i]);
        }
    } else {
        lemma_first_where_none(s.drop_last(), pred);
        let j = s.len() - 1;
        assert(s[j] == m);
        assert forall|i: int| 0 <= i < j implies !pred(#[trigger] s[i]) by {
            assert(s.drop_last()[i] == s[i]);
        }
    }
}

/// Once a prefix contains a hit, the whole table returns that same hit.
pub proof fn lemma_first_where_extend<A>(s: Seq<A>, pred: spec_fn(A) -> bool, k: int)
    requires
        0 <= k <= s.len(),
        first_where(s.take(k), pred) is Some,
    ensures
        first_where(s, pred) == first_where(s.take(k), pred),
    decreases s.len() - k,
{
    if k == s.len() {
        assert(s.take(k) =~= s);
    } else {
        assert(s.take(k + 1).drop_last() =~= s.take(k));
        lemma_first_where_extend(s, pred, k + 1);
    }
}

/// `count_where` is zero exactly when no row satisfies `pred`.
pub proof fn lemma_count_where_zero<A>(s: Seq<A>, pred: spec_fn(A) -> bool)
    ensures
        count_where(s, pred) >= 0,
        count_where(s, pred) == 0 <==> forall|i: int|
            0 <= i < s.len() ==> !pred(#[trigger] s[i]),
    decreases s.len(),
{
    if s.len() > 0 {
        lemma_count_where_zero(s.drop_last(), pred);
        if count_where(s, pred) == 0 {
            assert forall|i: int| 0 <= i < s.len() implies !pred(#[trigger] s[i]) by {
                if i < s.len() - 1 {
                    assert(s.drop_last()[i] == s[i]);
                }
            }
        } else {
            if count_where(s.drop_last(), pred) != 0 {
                let i = choose|i: int| 0 <= i < s.drop_last().len() && pred(s.drop_last()[i]);
                assert(pred(s[i]));
            }
        }
    }
}

/// Appending rows that all fail `pred` does not change the count.
pub proof fn lemma_count_where_add<A>(a: Seq<A>, b: Seq<A>, pred: spec_fn(A) -> bool)
    ensures
        count_where(a + b, pred) == count_where(a, pred) + count_where(b, pred),
    decreases b.len(),
{
    if b.len() == 0 {
        assert(a + b =~= a);
    } else {
        assert((a + b).drop_last() =~= a + b.drop_last());
        assert((a + b).last() == b.last());
        lemma_count_where_add(a, b.drop_last(), pred);
    }
}

/// A hit in the suffix when the prefix is clean: `first_where` over a
/// concatenation.
pub proof fn lemma_first_where_add<A>(a: Seq<A>, b: Seq<A>, pred: spec_fn(A) -> bool)
    requires
        first_where(a, pred) is None,
    ensures
        first_where(a + b, pred) == first_where(b, pred),
    decreases b.len(),
{
    if b.len() == 0 {
        assert(a + b =~= a);
    } else {
        assert((a + b).drop_last() =~= a + b.drop_last());
        assert((a + b).last() == b.last());
        lemma_first_where_add(a, b.drop_last(), pred);
    }
}

// ---------------------------------------------------------------------------
// The queue and pool functions, as instances of the combinators.
// ---------------------------------------------------------------------------
// ---------------------------------------------------------------------------
// Named predicate constructors: every use site applies the same term, so
// equalities between table functions and combinator instances are definitional.
// ---------------------------------------------------------------------------
/// Predicate: the row sits in the queue of `(folder_id, user)`.
pub open spec fn pred_in_queue(folder_id: u64, user: Seq<char>) -> spec_fn(PendingRow) -> bool {
    |m: PendingRow| m.folder_id == folder_id && m.user_email == user
}

/// Predicate: the row carries this message id.
pub open spec fn pred_msg_id(id: u64) -> spec_fn(PendingRow) -> bool {
    |m: PendingRow| m.message_id == id
}

/// Predicate: the application row carries this message id.
pub open spec fn pred_app_id(id: u64) -> spec_fn(AppRow) -> bool {
    |a: AppRow| a.message_id == id
}

/// Predicate: the row survives the removal of one message.
pub open spec fn keep_not_msg(id: u64, folder_id: u64, user: Seq<char>) -> spec_fn(
    PendingRow,
) -> bool {
    |m: PendingRow| !(m.message_id == id && m.folder_id == folder_id && m.user_email == user)
}

/// Predicate: the row survives the removal of a whole queue.
pub open spec fn keep_not_queue(folder_id: u64, user: Seq<char>) -> spec_fn(PendingRow) -> bool {
    |m: PendingRow| !(m.folder_id == folder_id && m.user_email == user)
}

/// Predicate: the application row is still attached to a pending row.
pub open spec fn keep_attached(pending: Seq<PendingRow>) -> spec_fn(AppRow) -> bool {
    |a: AppRow| pending_has_id(pending, a.message_id)
}

/// Predicate: the key package is owned by `user`.
pub open spec fn pred_kp_owner(user: Seq<char>) -> spec_fn(KeyPackageRow) -> bool {
    |k: KeyPackageRow| k.user_email == user
}

/// Predicate: the key package survives the removal of one id.
pub open spec fn keep_not_kp(id: u64) -> spec_fn(KeyPackageRow) -> bool {
    |k: KeyPackageRow| k.key_package_id != id
}

/// Key: the membership pair itself.
pub open spec fn key_membership() -> spec_fn(MembershipRow) -> (u64, Seq<char>) {
    |m: MembershipRow| (m.folder_id, m.user_email)
}

/// Key: a folder id.
pub open spec fn key_folder() -> spec_fn(u64) -> u64 {
    |f: u64| f
}

/// Key: the message id of a pending row.
pub open spec fn key_pending() -> spec_fn(PendingRow) -> u64 {
    |m: PendingRow| m.message_id
}

/// Key: the message id of an application row.
pub open spec fn key_app() -> spec_fn(AppRow) -> u64 {
    |a: AppRow| a.message_id
}

/// Key: the id of a key package.
pub open spec fn key_kp() -> spec_fn(KeyPackageRow) -> u64 {
    |k: KeyPackageRow| k.key_package_id
}

/// Whether a pending row belongs to the queue of `(folder_id, user)`.
pub open spec fn row_matches(m: PendingRow, folder_id: u64, user: Seq<char>) -> bool {
    m.folder_id == folder_id && m.user_email == user
}

/// Message ids strictly increase along the table, so they are unique and the
/// first row of a queue is its oldest message.
pub open spec fn pending_sorted(s: Seq<PendingRow>) -> bool {
    forall|i: int, j: int|
        0 <= i < j < s.len() ==> (#[trigger] s[i]).message_id < (#[trigger] s[j]).message_id
}

/// Key-package ids strictly increase along the table.
pub open spec fn key_packages_sorted(s: Seq<KeyPackageRow>) -> bool {
    forall|i: int, j: int|
        0 <= i < j < s.len() ==> (#[trigger] s[i]).key_package_id
            < (#[trigger] s[j]).key_package_id
}

/// Whether some pending row carries the given message id.
pub open spec fn pending_has_id(s: Seq<PendingRow>, id: u64) -> bool {
    exists|i: int| 0 <= i < s.len() && (#[trigger] s[i]).message_id == id
}

/// The pending row carrying the given message id, if any.
pub open spec fn pending_row(s: Seq<PendingRow>, id: u64) -> Option<PendingRow> {
    first_where(s, pred_msg_id(id))
}

/// The oldest pending row of the queue of `(folder_id, user)`, if any.
pub open spec fn first_pending(
    s: Seq<PendingRow>,
    folder_id: u64,
    user: Seq<char>,
) -> Option<PendingRow> {
    first_where(s, pred_in_queue(folder_id, user))
}

/// How many rows sit in the queue of `(folder_id, user)`.
pub open spec fn count_pending(
    s: Seq<PendingRow>,
    folder_id: u64,
    user: Seq<char>,
) -> int {
    count_where(s, pred_in_queue(folder_id, user))
}

/// The table without the row `(id, folder_id, user)`, if it was there.
pub open spec fn remove_pending(
    s: Seq<PendingRow>,
    id: u64,
    folder_id: u64,
    user: Seq<char>,
) -> Seq<PendingRow> {
    filtered(s, keep_not_msg(id, folder_id, user))
}

/// The rows of the queue of `(folder_id, user)`, oldest first.
pub open spec fn pending_in_queue(
    s: Seq<PendingRow>,
    folder_id: u64,
    user: Seq<char>,
) -> Seq<PendingRow> {
    filtered(s, pred_in_queue(folder_id, user))
}

/// The table without any row of the queue of `(folder_id, user)`.
pub open spec fn remove_all_pending(
    s: Seq<PendingRow>,
    folder_id: u64,
    user: Seq<char>,
) -> Seq<PendingRow> {
    filtered(s, keep_not_queue(folder_id, user))
}

/// The application payload attached to a message id, if any.
pub open spec fn app_payload(s: Seq<AppRow>, id: u64) -> Option<Seq<u8>> {
    match first_where(s, pred_app_id(id)) {
        Some(a) => Some(a.payload),
        None => None,
    }
}

/// The application table restricted to ids that still have a pending row.
pub open spec fn restrict_apps(
    apps: Seq<AppRow>,
    pending: Seq<PendingRow>,
) -> Seq<AppRow> {
    filtered(apps, keep_attached(pending))
}

/// Application-message ids are unique.
pub open spec fn apps_unique(s: Seq<AppRow>) -> bool {
    forall|i: int, j: int|
        0 <= i < j < s.len() ==> (#[trigger] s[i]).message_id != (#[trigger] s[j]).message_id
}

/// The emails of the members of `folder_id` other than `sender`, in table
/// order: the recipients of a proposal published by `sender`.
pub open spec fn members_except(ms: Seq<MembershipRow>, folder_id: u64, sender: Seq<char>) -> Seq<
    Seq<char>,
>
    decreases ms.len(),
{
    if ms.len() == 0 {
        Seq::empty()
    } else {
        let prefix = members_except(ms.drop_last(), folder_id, sender);
        if ms.last().folder_id == folder_id && ms.last().user_email != sender {
            prefix.push(ms.last().user_email)
        } else {
            prefix
        }
    }
}

/// The oldest key package owned by `user`, if any.
pub open spec fn first_key_package(s: Seq<KeyPackageRow>, user: Seq<char>) -> Option<
    KeyPackageRow,
> {
    first_where(s, pred_kp_owner(user))
}

/// The pool without any package carrying the given id.
pub open spec fn remove_key_package(s: Seq<KeyPackageRow>, id: u64) -> Seq<KeyPackageRow> {
    filtered(s, keep_not_kp(id))
}

/// Every member email of `members_except` labels a membership row of the
/// folder, and the emails are pairwise distinct when the rows are unique.
pub proof fn lemma_members_except_distinct(ms: Seq<MembershipRow>, folder_id: u64, sender: Seq<char>)
    requires
        forall|i: int, j: int|
            0 <= i < j < ms.len() ==> !((#[trigger] ms[i]).folder_id
                == (#[trigger] ms[j]).folder_id && ms[i].user_email == ms[j].user_email),
    ensures
        forall|i: int|
            0 <= i < members_except(ms, folder_id, sender).len() ==> #[trigger] members_except(
                ms,
                folder_id,
                sender,
            )[i] != sender && exists|k: int|
                0 <= k < ms.len() && (#[trigger] ms[k]).folder_id == folder_id && ms[k].user_email
                    == members_except(ms, folder_id, sender)[i],
        forall|i: int, j: int|
            0 <= i < j < members_except(ms, folder_id, sender).len() ==> #[trigger] members_except(
                ms,
                folder_id,
                sender,
            )[i] != #[trigger] members_except(ms, folder_id, sender)[j],
    decreases ms.len(),
{
    if ms.len() > 0 {
        lemma_members_except_distinct(ms.drop_last(), folder_id, sender);
        let prefix = members_except(ms.drop_last(), folder_id, sender);
        let cur = members_except(ms, folder_id, sender);
        assert forall|i: int|
            0 <= i < cur.len() implies #[trigger] cur[i] != sender && exists|k: int|
            0 <= k < ms.len() && (#[trigger] ms[k]).folder_id == folder_id && ms[k].user_email
                == cur[i] by {
            if i < prefix.len() {
                assert(cur[i] == prefix[i]);
                let k = choose|k: int|
                    0 <= k < ms.drop_last().len() && (#[trigger] ms.drop_last()[k]).folder_id
                        == folder_id && ms.drop_last()[k].user_email == prefix[i];
                assert(ms[k].folder_id == folder_id && ms[k].user_email == cur[i]);
            } else {
                assert(cur[i] == ms.last().user_email);
                assert(ms[ms.len() - 1].folder_id == folder_id && ms[ms.len() - 1].user_email
                    == cur[i]);
            }
        }
        assert forall|i: int, j: int|
            0 <= i < j < cur.len() implies #[trigger] cur[i] != #[trigger] cur[j] by {
            if j < prefix.len() {
                assert(cur[i] == prefix[i] && cur[j] == prefix[j]);
            } else {
                assert(cur[j] == ms.last().user_email);
                assert(cur[i] == prefix[i]);
                let k = choose|k: int|
                    0 <= k < ms.drop_last().len() && (#[trigger] ms.drop_last()[k]).folder_id
                        == folder_id && ms.drop_last()[k].user_email == prefix[i];
                assert(!(ms[k].folder_id == ms[ms.len() - 1].folder_id && ms[k].user_email
                    == ms[ms.len() - 1].user_email));
            }
        }
    }
}


// ---------------------------------------------------------------------------
// Transition predicates.
// ---------------------------------------------------------------------------
/// How a successful publish extends the pending table: one row per recipient,
/// in recipient order, with consecutive fresh message ids.
pub open spec fn queue_publish(
    prep: Seq<PendingRow>,
    postp: Seq<PendingRow>,
    pre_next: u64,
    post_next: u64,
    sender: Seq<char>,
    folder_id: u64,
    payload: Seq<u8>,
    recipients: Seq<Seq<char>>,
    ids: Seq<u64>,
) -> bool {
    &&& count_pending(prep, folder_id, sender) == 0
    &&& ids.len() == recipients.len()
    &&& forall|j: int| 0 <= j < ids.len() ==> #[trigger] ids[j] == pre_next + j
    &&& postp.len() == prep.len() + recipients.len()
    &&& forall|i: int| 0 <= i < prep.len() ==> #[trigger] postp[i] == prep[i]
    &&& forall|j: int|
        0 <= j < recipients.len() ==> #[trigger] postp[prep.len() + j] == (PendingRow {
            message_id: (pre_next + j) as u64,
            folder_id,
            user_email: recipients[j],
            payload,
            creator: sender,
        })
    &&& post_next == pre_next + recipients.len()
}

/// The second phase is allowed: every id names a pending row of this folder
/// created by `sender` and not yet patched, and the ids are distinct.
pub open spec fn patchable(
    prep: Seq<PendingRow>,
    apps: Seq<AppRow>,
    ids: Seq<u64>,
    sender: Seq<char>,
    folder_id: u64,
) -> bool {
    &&& forall|j: int|
        0 <= j < ids.len() ==> ((#[trigger] pending_row(prep, ids[j])) matches Some(m)
            && m.folder_id == folder_id && m.creator == sender && app_payload(apps, ids[j]) is None)
    &&& forall|i: int, j: int| 0 <= i < j < ids.len() ==> #[trigger] ids[i] != #[trigger] ids[j]
}

/// How a successful patch extends the application table: one row per id, in
/// id order, all carrying the same payload.
pub open spec fn queue_patch(
    pre_apps: Seq<AppRow>,
    post_apps: Seq<AppRow>,
    ids: Seq<u64>,
    payload: Seq<u8>,
) -> bool {
    &&& post_apps.len() == pre_apps.len() + ids.len()
    &&& forall|i: int| 0 <= i < pre_apps.len() ==> #[trigger] post_apps[i] == pre_apps[i]
    &&& forall|j: int|
        0 <= j < ids.len() ==> #[trigger] post_apps[pre_apps.len() + j] == (AppRow {
            message_id: ids[j],
            payload,
        })
}

// ---------------------------------------------------------------------------
// Executable scans.
// ---------------------------------------------------------------------------
/// Finds the index of the oldest pending row of `(folder_id, email)`.
pub fn find_first_pending(
    pending: &Vec<PendingGroupMessageEntity>,
    folder_id: u64,
    email: &String,
) -> (r: Option<usize>)
    ensures
        match r {
            None => first_pending(pending_views(pending@), folder_id, email@) is None,
            Some(i) => i < pending@.len() && first_pending(pending_views(pending@), folder_id, email@)
                == Some(pending_views(pending@)[i as int]),
        },
{
    let ghost full = pending_views(pending@);
    let ghost pred = pred_in_queue(folder_id, email@);
    let mut i: usize = 0;
    while i < pending.len()
        invariant
            i <= full.len(),
            full == pending_views(pending@),
            pred == pred_in_queue(folder_id, email@),
            first_where(full.take(i as int), pred) is None,
        decreases full.len() - i,
    {
        proof {
            assert(full.take(i + 1).drop_last() =~= full.take(i as int));
            assert(full.take(i + 1).last() == full[i as int]);
        }
        if pending[i].folder_id == folder_id && pending[i].user_email == *email {
            proof {
                assert(first_where(full.take(i + 1), pred) == Some(full[i as int]));
                lemma_first_where_extend(full, pred, i + 1);
            }
            return Some(i);
        }
        i = i + 1;
    }
    proof {
        assert(full.take(full.len() as int) =~= full);
    }
    None
}

/// Finds the index of the pending row carrying `id`.
pub fn find_pending_by_id(pending: &Vec<PendingGroupMessageEntity>, id: u64) -> (r: Option<usize>)
    ensures
        match r {
            None => pending_row(pending_views(pending@), id) is None,
            Some(i) => i < pending@.len() && pending_row(pending_views(pending@), id) == Some(
                pending_views(pending@)[i as int],
            ),
        },
{
    let ghost full = pending_views(pending@);
    let ghost pred = pred_msg_id(id);
    let mut i: usize = 0;
    while i < pending.len()
        invariant
            i <= full.len(),
            full == pending_views(pending@),
            pred == pred_msg_id(id),
            first_where(full.take(i as int), pred) is None,
        decreases full.len() - i,
    {
        proof {
            assert(full.take(i + 1).drop_last() =~= full.take(i as int));
            assert(full.take(i + 1).last() == full[i as int]);
        }
        if pending[i].message_id == id {
            proof {
                assert(first_where(full.take(i + 1), pred) == Some(full[i as int]));
                lemma_first_where_extend(full, pred, i + 1);
            }
            return Some(i);
        }
        i = i + 1;
    }
    proof {
        assert(full.take(full.len() as int) =~= full);
    }
    None
}

/// Returns a copy of the application payload attached to `id`, if any.
pub fn find_app_payload(apps: &Vec<ApplicationMessageEntity>, id: u64) -> (r: Option<Vec<u8>>)
    ensures
        match r {
            None => app_payload(app_views(apps@), id) is None,
            Some(p) => app_payload(app_views(apps@), id) == Some(p@),
        },
{
    let ghost full = app_views(apps@);
    let ghost pred = pred_app_id(id);
    let mut i: usize = 0;
    while i < apps.len()
        invariant
            i <= full.len(),
            full == app_views(apps@),
            pred == pred_app_id(id),
            first_where(full.take(i as int), pred) is None,
        decreases full.len() - i,
    {
        proof {
            assert(full.take(i + 1).drop_last() =~= full.take(i as int));
            assert(full.take(i + 1).last() == full[i as int]);
        }
        if apps[i].message_id == id {
            proof {
                assert(first_where(full.take(i + 1), pred) == Some(full[i as int]));
                lemma_first_where_extend(full, pred, i + 1);
            }
            return Some(copy_bytes(&apps[i].payload));
        }
        i = i + 1;
    }
    proof {
        assert(full.take(full.len() as int) =~= full);
    }
    None
}

/// Finds the index of the oldest key package owned by `email`.
fn find_first_key_package(kps: &Vec<KeyPackageEntity>, email: &String) -> (r: Option<usize>)
    ensures
        match r {
            None => first_key_package(key_package_views(kps@), email@) is None,
            Some(i) => i < kps@.len() && first_key_package(key_package_views(kps@), email@) == Some(
                key_package_views(kps@)[i as int],
            ),
        },
{
    let ghost full = key_package_views(kps@);
    let ghost pred = pred_kp_owner(email@);
    let mut i: usize = 0;
    while i < kps.len()
        invariant
            i <= full.len(),
            full == key_package_views(kps@),
            pred == pred_kp_owner(email@),
            first_where(full.take(i as int), pred) is None,
        decreases full.len() - i,
    {
        proof {
            assert(full.take(i + 1).drop_last() =~= full.take(i as int));
            assert(full.take(i + 1).last() == full[i as int]);
        }
        if kps[i].user_email == *email {
            proof {
                assert(first_where(full.take(i + 1), pred) == Some(full[i as int]));
                lemma_first_where_extend(full, pred, i + 1);
            }
            return Some(i);
        }
        i = i + 1;
    }
    proof {
        assert(full.take(full.len() as int) =~= full);
    }
    None
}

/// The pending rows surviving the removal of one message.
fn retain_pending_except_msg(
    pending: &Vec<PendingGroupMessageEntity>,
    id: u64,
    folder_id: u64,
    email: &String,
) -> (r: Vec<PendingGroupMessageEntity>)
    ensures
        pending_views(r@) == remove_pending(pending_views(pending@), id, folder_id, email@),
{
    let ghost full = pending_views(pending@);
    let mut r: Vec<PendingGroupMessageEntity> = Vec::new();
    let mut i: usize = 0;
    while i < pending.len()
        invariant
            i <= full.len(),
            full == pending_views(pending@),
            pending_views(r@) == remove_pending(full.take(i as int), id, folder_id, email@),
        decreases full.len() - i,
    {
        proof {
            assert(full.take(i + 1).drop_last() =~= full.take(i as int));
            assert(full.take(i + 1).last() == full[i as int]);
        }
        let ghost prev = pending_views(r@);
        if !(pending[i].message_id == id && pending[i].folder_id == folder_id
            && pending[i].user_email == *email) {
            r.push(
                PendingGroupMessageEntity {
                    message_id: pending[i].message_id,
                    folder_id: pending[i].folder_id,
                    user_email: pending[i].user_email.clone(),
                    payload: copy_bytes(&pending[i].payload),
                    creator: pending[i].creator.clone(),
                },
            );
            proof {
                assert(pending_views(r@) =~= prev.push(full[i as int]));
            }
        }
        i = i + 1;
    }
    proof {
        assert(full.take(full.len() as int) =~= full);
    }
    r
}

/// The key packages surviving the removal of one id.
fn retain_key_packages(kps: &Vec<KeyPackageEntity>, id: u64) -> (r: Vec<KeyPackageEntity>)
    ensures
        key_package_views(r@) == remove_key_package(key_package_views(kps@), id),
{
    let ghost full = key_package_views(kps@);
    let mut r: Vec<KeyPackageEntity> = Vec::new();
    let mut i: usize = 0;
    while i < kps.len()
        invariant
            i <= full.len(),
            full == key_package_views(kps@),
            key_package_views(r@) == remove_key_package(full.take(i as int), id),
        decreases full.len() - i,
    {
        proof {
            assert(full.take(i + 1).drop_last() =~= full.take(i as int));
            assert(full.take(i + 1).last() == full[i as int]);
        }
        let ghost prev = key_package_views(r@);
        if kps[i].key_package_id != id {
            r.push(
                KeyPackageEntity {
                    key_package_id: kps[i].key_package_id,
                    user_email: kps[i].user_email.clone(),
                    key_package: copy_bytes(&kps[i].key_package),
                },
            );
            proof {
                assert(key_package_views(r@) =~= prev.push(full[i as int]));
            }
        }
        i = i + 1;
    }
    proof {
        assert(full.take(full.len() as int) =~= full);
    }
    r
}


impl Directory {
    /// Counts the pending messages in the queue of `(folder_id, user_email)`.
    pub fn count_pending_messages_for_folder_and_user(
        &self,
        folder_id: u64,
        user_email: &String,
    ) -> (r: u64)
        ensures
            r as int == count_pending(self.pending_v(), folder_id, user_email@),
    {
        let ghost full = self.pending_v();
        let ghost pred = pred_in_queue(folder_id, user_email@);
        let mut c: u64 = 0;
        let mut i: usize = 0;
        while i < self.pending.len()
            invariant
                i <= full.len(),
                full == self.pending_v(),
                pred == pred_in_queue(folder_id, user_email@),
                c as int == count_where(full.take(i as int), pred),
                c <= i,
            decreases full.len() - i,
        {
            proof {
                assert(full.take(i + 1).drop_last() =~= full.take(i as int));
                assert(full.take(i + 1).last() == full[i as int]);
            }
            if self.pending[i].folder_id == folder_id && self.pending[i].user_email == *user_email {
                c = c + 1;
            }
            i = i + 1;
        }
        proof {
            assert(full.take(full.len() as int) =~= full);
        }
        c
    }

    /// Lists the pending messages of the queue of `(folder_id, user_email)`,
    /// oldest first.
    pub fn list_pending_messages_by_folder_and_user(
        &self,
        folder_id: u64,
        user_email: &String,
    ) -> (r: Vec<PendingGroupMessageEntity>)
        ensures
            pending_views(r@) == pending_in_queue(self.pending_v(), folder_id, user_email@),
    {
        let ghost full = self.pending_v();
        let mut r: Vec<PendingGroupMessageEntity> = Vec::new();
        let mut i: usize = 0;
        while i < self.pending.len()
            invariant
                i <= full.len(),
                full == self.pending_v(),
                pending_views(r@) == pending_in_queue(full.take(i as int), folder_id, user_email@),
            decreases full.len() - i,
        {
            proof {
                assert(full.take(i + 1).drop_last() =~= full.take(i as int));
                assert(full.take(i + 1).last() == full[i as int]);
            }
            let ghost prev = pending_views(r@);
            if self.pending[i].folder_id == folder_id && self.pending[i].user_email == *user_email {
                r.push(
                    PendingGroupMessageEntity {
                        message_id: self.pending[i].message_id,
                        folder_id: self.pending[i].folder_id,
                        user_email: self.pending[i].user_email.clone(),
                        payload: copy_bytes(&self.pending[i].payload),
                        creator: self.pending[i].creator.clone(),
                    },
                );
                proof {
                    assert(pending_views(r@) =~= prev.push(full[i as int]));
                }
            }
            i = i + 1;
        }
        proof {
            assert(full.take(full.len() as int) =~= full);
        }
        r
    }

    /// Publishes a proposal: one pending row for every member of the folder
    /// other than the sender, in membership order, with fresh consecutive
    /// message ids — but only if the sender's own queue for the folder is
    /// empty.  On success the sender's queue is still empty at commit.
    pub fn insert_message(
        &mut self,
        sender_email: &String,
        folder_id: u64,
        payload: &Vec<u8>,
    ) -> (r: Result<(Vec<String>, Vec<u64>), PublishError>)
        requires
            old(self).wf(),
        ensures
            final(self).wf(),
            same_but_queue(*old(self), *final(self)),
            final(self).apps_v() == old(self).apps_v(),
            r is Ok <==> count_pending(old(self).pending_v(), folder_id, sender_email@) == 0
                && old(self).next_message_id + members_except(
                old(self).memberships_v(),
                folder_id,
                sender_email@,
            ).len() <= u64::MAX,
            r matches Ok((rcpts, mids)) ==> {
                &&& email_views(rcpts@) == members_except(
                    old(self).memberships_v(),
                    folder_id,
                    sender_email@,
                )
                &&& queue_publish(
                    old(self).pending_v(),
                    final(self).pending_v(),
                    old(self).next_message_id,
                    final(self).next_message_id,
                    sender_email@,
                    folder_id,
                    payload@,
                    email_views(rcpts@),
                    mids@,
                )
                &&& count_pending(final(self).pending_v(), folder_id, sender_email@) == 0
            },
            r matches Err(e) ==> *final(self) == *old(self) && (e is Pending <==> count_pending(
                old(self).pending_v(),
                folder_id,
                sender_email@,
            ) > 0) && (e matches PublishError::Pending(n) ==> n as int == count_pending(
                old(self).pending_v(),
                folder_id,
                sender_email@,
            ) && n > 0),
    {
        let cnt = self.count_pending_messages_for_folder_and_user(folder_id, sender_email);
        if cnt > 0 {
            return Err(PublishError::Pending(cnt));
        }
        let ghost msv = self.memberships_v();
        let mut recipients: Vec<String> = Vec::new();
        let mut i: usize = 0;
        while i < self.memberships.len()
            invariant
                i <= msv.len(),
                msv == self.memberships_v(),
                email_views(recipients@) == members_except(
                    msv.take(i as int),
                    folder_id,
                    sender_email@,
                ),
            decreases msv.len() - i,
        {
            proof {
                assert(msv.take(i + 1).drop_last() =~= msv.take(i as int));
                assert(msv.take(i + 1).last() == msv[i as int]);
            }
            let ghost prev = email_views(recipients@);
            if self.memberships[i].folder_id == folder_id && !(self.memberships[i].user_email
                == *sender_email) {
                recipients.push(self.memberships[i].user_email.clone());
                proof {
                    assert(email_views(recipients@) =~= prev.push(msv[i as int].user_email));
                }
            }
            i = i + 1;
        }
        proof {
            assert(msv.take(msv.len() as int) =~= msv);
        }
        let k = recipients.len() as u64;
        if k > u64::MAX - self.next_message_id {
            return Err(PublishError::Internal);
        }
        let ghost pre = *self;
        let mut mids: Vec<u64> = Vec::new();
        let mut j: usize = 0;
        while j < recipients.len()
            invariant
                j <= recipients@.len(),
                email_views(recipients@) == members_except(
                    pre.memberships_v(),
                    folder_id,
                    sender_email@,
                ),
                pre.wf(),
                pre.next_message_id + recipients@.len() <= u64::MAX,
                count_pending(pre.pending_v(), folder_id, sender_email@) == 0,
                self.next_message_id == pre.next_message_id + j,
                mids@.len() == j,
                forall|t: int| 0 <= t < j ==> #[trigger] mids@[t] == pre.next_message_id + t,
                self.pending_v().len() == pre.pending_v().len() + j,
                forall|t: int|
                    0 <= t < pre.pending_v().len() ==> #[trigger] self.pending_v()[t]
                        == pre.pending_v()[t],
                forall|t: int|
                    0 <= t < j ==> #[trigger] self.pending_v()[pre.pending_v().len() + t]
                        == (PendingRow {
                        message_id: (pre.next_message_id + t) as u64,
                        folder_id,
                        user_email: email_views(recipients@)[t],
                        payload: payload@,
                        creator: sender_email@,
                    }),
                self.users@ == pre.users@,
                self.folders@ == pre.folders@,
                self.memberships@ == pre.memberships@,
                self.app_messages@ == pre.app_messages@,
                self.key_packages@ == pre.key_packages@,
                self.next_folder_id == pre.next_folder_id,
                self.next_key_package_id == pre.next_key_package_id,
            decreases recipients@.len() - j,
        {
            let ghost prevp = self.pending_v();
            let id = self.next_message_id;
            self.pending.push(
                PendingGroupMessageEntity {
                    message_id: id,
                    folder_id,
                    user_email: recipients[j].clone(),
                    payload: copy_bytes(payload),
                    creator: sender_email.clone(),
                },
            );
            mids.push(id);
            self.next_message_id = id + 1;
            proof {
                assert(self.pending_v() =~= prevp.push(
                    PendingRow {
                        message_id: id,
                        folder_id,
                        user_email: email_views(recipients@)[j as int],
                        payload: payload@,
                        creator: sender_email@,
                    },
                ));
            }
            j = j + 1;
        }
        proof {
            let postp = self.pending_v();
            let prep = pre.pending_v();
            let kk = recipients@.len() as int;
            assert(pending_sorted(postp)) by {
                assert forall|a: int, b: int|
                    0 <= a < b < postp.len() implies (#[trigger] postp[a]).message_id
                    < (#[trigger] postp[b]).message_id by {
                    if b < prep.len() {
                    } else if a < prep.len() {
                        assert(postp[a] == prep[a]);
                        assert(prep[a].message_id < pre.next_message_id);
                        assert(postp[b] == postp[prep.len() + (b - prep.len())]);
                    } else {
                        assert(postp[a] == postp[prep.len() + (a - prep.len())]);
                        assert(postp[b] == postp[prep.len() + (b - prep.len())]);
                    }
                }
            }
            assert forall|t: int|
                0 <= t < self.apps_v().len() implies pending_has_id(
                postp,
                (#[trigger] self.apps_v()[t]).message_id,
            ) by {
                assert(self.apps_v() == pre.apps_v());
                let w = choose|w: int|
                    0 <= w < prep.len() && (#[trigger] prep[w]).message_id
                        == self.apps_v()[t].message_id;
                assert(postp[w].message_id == self.apps_v()[t].message_id);
            }
            let newseq = Seq::new(
                kk as nat,
                |t: int| PendingRow {
                    message_id: (pre.next_message_id + t) as u64,
                    folder_id,
                    user_email: email_views(recipients@)[t],
                    payload: payload@,
                    creator: sender_email@,
                },
            );
            assert forall|w: int| 0 <= w < postp.len() implies postp[w] == (prep + newseq)[w] by {
                if w < prep.len() {
                } else {
                    let t = w - prep.len();
                    assert(postp[prep.len() + t] == newseq[t]);
                }
            }
            assert(postp =~= prep + newseq);
            lemma_members_except_distinct(pre.memberships_v(), folder_id, sender_email@);
            lemma_count_where_zero(newseq, pred_in_queue(folder_id, sender_email@));
            lemma_count_where_add(prep, newseq, pred_in_queue(folder_id, sender_email@));
        }
        Ok((recipients, mids))
    }

    /// Reads the oldest queue entry of `(folder_id, user_email)`: a missing
    /// queue is a not-found error, an unpatched proposal is `Ok(None)`, and a
    /// patched one comes back whole.
    pub fn get_first_message_by_folder_and_user(&self, folder_id: u64, user_email: &String) -> (r:
        Result<Option<GroupMessageEntity>, DbError>)
        ensures
            r is Err <==> first_pending(self.pending_v(), folder_id, user_email@) is None,
            r is Err ==> r == Err::<Option<GroupMessageEntity>, DbError>(DbError::RowNotFound),
            r matches Ok(opt) ==> (first_pending(self.pending_v(), folder_id, user_email@) matches
                Some(m) && match opt {
                None => app_payload(self.apps_v(), m.message_id) is None,
                Some(g) => app_payload(self.apps_v(), m.message_id) == Some(g.application_payload@)
                    && g.message_id == m.message_id && g.folder_id == m.folder_id && g.user_email@
                    == m.user_email && g.payload@ == m.payload,
            }),
    {
        let idx = match find_first_pending(&self.pending, folder_id, user_email) {
            None => {
                return Err(DbError::RowNotFound);
            },
            Some(i) => i,
        };
        let app = find_app_payload(&self.app_messages, self.pending[idx].message_id);
        match app {
            None => Ok(None),
            Some(p) => Ok(
                Some(
                    GroupMessageEntity {
                        message_id: self.pending[idx].message_id,
                        folder_id: self.pending[idx].folder_id,
                        user_email: self.pending[idx].user_email.clone(),
                        payload: copy_bytes(&self.pending[idx].payload),
                        application_payload: p,
                    },
                ),
            ),
        }
    }

    /// Acknowledges a message: refused while an older message is still
    /// pending, a not-found error on an empty queue; otherwise the row and
    /// its application payload are deleted.
    pub fn delete_message(&mut self, message_id: u64, user_email: &String, folder_id: u64) -> (r:
        Result<bool, DbError>)
        requires
            old(self).wf(),
        ensures
            final(self).wf(),
            same_but_queue(*old(self), *final(self)),
            final(self).next_message_id == old(self).next_message_id,
            r is Err <==> first_pending(old(self).pending_v(), folder_id, user_email@) is None,
            r is Err ==> *final(self) == *old(self) && r == Err::<bool, DbError>(
                DbError::RowNotFound,
            ),
            r matches Ok(b) ==> (first_pending(old(self).pending_v(), folder_id, user_email@)
                matches Some(m) && (b == false <==> m.message_id > message_id) && (b == false
                ==> *final(self) == *old(self)) && (b == true ==> final(self).pending_v()
                == remove_pending(old(self).pending_v(), message_id, folder_id, user_email@)
                && final(self).apps_v() == restrict_apps(
                old(self).apps_v(),
                final(self).pending_v(),
            ))),
    {
        let idx = match find_first_pending(&self.pending, folder_id, user_email) {
            None => {
                return Err(DbError::RowNotFound);
            },
            Some(i) => i,
        };
        if self.pending[idx].message_id > message_id {
            return Ok(false);
        }
        let ghost pre = *self;
        let new_pending = retain_pending_except_msg(&self.pending, message_id, folder_id, user_email);
        self.pending = new_pending;
        let new_apps = crate::db::retain_apps(&self.app_messages, &self.pending);
        self.app_messages = new_apps;
        proof {
            let keep_p = keep_not_msg(message_id, folder_id, user_email@);
            lemma_filtered_sorted(pre.pending_v(), keep_p, key_pending());
            lemma_filtered_elem(pre.pending_v(), keep_p);
            let keep_a = keep_attached(self.pending_v());
            lemma_filtered_unique(pre.apps_v(), keep_a, key_app());
            lemma_filtered_elem(pre.apps_v(), keep_a);
        }
        Ok(true)
    }

    /// Appends a key package to the owner's pool.
    pub fn insert_key_package(&mut self, user_email: &String, key_package: Vec<u8>) -> (r: Result<
        u64,
        DbError,
    >)
        requires
            old(self).wf(),
        ensures
            final(self).wf(),
            same_but_key_packages(*old(self), *final(self)),
            r is Ok <==> old(self).next_key_package_id < u64::MAX,
            r matches Ok(id) ==> {
                &&& id == old(self).next_key_package_id
                &&& final(self).kps_v() == old(self).kps_v().push(
                    KeyPackageRow {
                        key_package_id: id,
                        user_email: user_email@,
                        key_package: key_package@,
                    },
                )
                &&& final(self).next_key_package_id == old(self).next_key_package_id + 1
            },
            r is Err ==> *final(self) == *old(self) && r == Err::<u64, DbError>(DbError::Internal),
    {
        if self.next_key_package_id == u64::MAX {
            return Err(DbError::Internal);
        }
        let ghost pre = *self;
        let id = self.next_key_package_id;
        self.key_packages.push(
            KeyPackageEntity { key_package_id: id, user_email: user_email.clone(), key_package },
        );
        self.next_key_package_id = id + 1;
        proof {
            assert(self.kps_v() =~= pre.kps_v().push(
                KeyPackageRow {
                    key_package_id: id,
                    user_email: user_email@,
                    key_package: self.key_packages@.last().key_package@,
                },
            ));
        }
        Ok(id)
    }

    /// Hands out the oldest key package of `user_email` and deletes it, but
    /// only when owner and requestor are both members of the folder; a
    /// package is never handed out twice.
    pub fn consume_key_package(
        &mut self,
        user_email: &String,
        requestor: &String,
        folder_id: u64,
    ) -> (r: Result<KeyPackageEntity, DbError>)
        requires
            old(self).wf(),
        ensures
            final(self).wf(),
            same_but_key_packages(*old(self), *final(self)),
            final(self).next_key_package_id == old(self).next_key_package_id,
            r is Ok <==> is_member(old(self).memberships_v(), folder_id, user_email@) && is_member(
                old(self).memberships_v(),
                folder_id,
                requestor@,
            ) && first_key_package(old(self).kps_v(), user_email@) is Some,
            r matches Ok(kp) ==> Some(kp@) == first_key_package(old(self).kps_v(), user_email@)
                && final(self).kps_v() == remove_key_package(old(self).kps_v(), kp.key_package_id),
            r is Err ==> *final(self) == *old(self) && r == Err::<KeyPackageEntity, DbError>(
                DbError::RowNotFound,
            ),
    {
        if !crate::db::is_member_vec(&self.memberships, folder_id, user_email) {
            return Err(DbError::RowNotFound);
        }
        if !crate::db::is_member_vec(&self.memberships, folder_id, requestor) {
            return Err(DbError::RowNotFound);
        }
        let idx = match find_first_key_package(&self.key_packages, user_email) {
            None => {
                return Err(DbError::RowNotFound);
            },
            Some(i) => i,
        };
        let ghost pre = *self;
        let entity = KeyPackageEntity {
            key_package_id: self.key_packages[idx].key_package_id,
            user_email: self.key_packages[idx].user_email.clone(),
            key_package: copy_bytes(&self.key_packages[idx].key_package),
        };
        let new_kps = retain_key_packages(&self.key_packages, entity.key_package_id);
        self.key_packages = new_kps;
        proof {
            let keep = keep_not_kp(entity.key_package_id);
            lemma_filtered_sorted(pre.kps_v(), keep, key_kp());
            lemma_filtered_elem(pre.kps_v(), keep);
        }
        Ok(entity)
    }

    /// Attaches an application payload to every message of a published batch:
    /// allowed exactly when each id names a pending row of this folder created
    /// by the sender and not yet patched, and the ids are distinct.  Returns
    /// the recipients of the patched rows.
    pub fn insert_application_message(
        &mut self,
        message_ids: &Vec<u64>,
        sender_email: &String,
        folder_id: u64,
        payload: &Vec<u8>,
    ) -> (r: Result<Vec<String>, DbError>)
        requires
            old(self).wf(),
        ensures
            final(self).wf(),
            same_but_queue(*old(self), *final(self)),
            final(self).pending_v() == old(self).pending_v(),
            final(self).next_message_id == old(self).next_message_id,
            r is Ok <==> patchable(
                old(self).pending_v(),
                old(self).apps_v(),
                message_ids@,
                sender_email@,
                folder_id,
            ),
            r matches Ok(rcpts) ==> {
                &&& queue_patch(old(self).apps_v(), final(self).apps_v(), message_ids@, payload@)
                &&& rcpts@.len() == message_ids@.len()
                &&& forall|t: int|
                    0 <= t < rcpts@.len() ==> (#[trigger] rcpts@[t])@ == pending_row(
                        old(self).pending_v(),
                        message_ids@[t],
                    )->0.user_email
            },
            r is Err ==> *final(self) == *old(self) && r == Err::<Vec<String>, DbError>(
                DbError::RowNotFound,
            ),
    {
        let ghost prep = self.pending_v();
        let ghost apps0 = self.apps_v();
        let mut t: usize = 0;
        while t < message_ids.len()
            invariant
                t <= message_ids@.len(),
                *self == *old(self),
                old(self).wf(),
                prep == self.pending_v(),
                apps0 == self.apps_v(),
                forall|u: int|
                    0 <= u < t ==> ((#[trigger] pending_row(prep, message_ids@[u])) matches Some(m)
                        && m.folder_id == folder_id && m.creator == sender_email@ && app_payload(
                        apps0,
                        message_ids@[u],
                    ) is None),
                forall|u: int, v: int|
                    0 <= u < v < t ==> #[trigger] message_ids@[u] != #[trigger] message_ids@[v],
            decreases message_ids@.len() - t,
        {
            let id = message_ids[t];
            let idx = match find_pending_by_id(&self.pending, id) {
                None => {
                    return Err(DbError::RowNotFound);
                },
                Some(i) => i,
            };
            if !(self.pending[idx].folder_id == folder_id) || !(self.pending[idx].creator
                == *sender_email) {
                return Err(DbError::RowNotFound);
            }
            match find_app_payload(&self.app_messages, id) {
                Some(_) => {
                    return Err(DbError::RowNotFound);
                },
                None => {},
            }
            let mut u: usize = 0;
            while u < t
                invariant
                    u <= t,
                    t < message_ids@.len(),
                    *self == *old(self),
                    old(self).wf(),
                    forall|v: int| 0 <= v < u ==> #[trigger] message_ids@[v] != message_ids@[t as int],
                decreases t - u,
            {
                if message_ids[u] == message_ids[t] {
                    return Err(DbError::RowNotFound);
                }
                u = u + 1;
            }
            t = t + 1;
        }
        let ghost pre = *self;
        proof {
            assert(patchable(prep, apps0, message_ids@, sender_email@, folder_id));
        }
        let mut rcpts: Vec<String> = Vec::new();
        let mut j: usize = 0;
        while j < message_ids.len()
            invariant
                j <= message_ids@.len(),
                pre.wf(),
                patchable(
                    pre.pending_v(),
                    pre.apps_v(),
                    message_ids@,
                    sender_email@,
                    folder_id,
                ),
                self.pending_v() == pre.pending_v(),
                rcpts@.len() == j,
                forall|v: int|
                    0 <= v < j ==> (#[trigger] rcpts@[v])@ == pending_row(
                        pre.pending_v(),
                        message_ids@[v],
                    )->0.user_email,
                self.apps_v().len() == pre.apps_v().len() + j,
                forall|v: int|
                    0 <= v < pre.apps_v().len() ==> #[trigger] self.apps_v()[v] == pre.apps_v()[v],
                forall|v: int|
                    0 <= v < j ==> #[trigger] self.apps_v()[pre.apps_v().len() + v] == (AppRow {
                        message_id: message_ids@[v],
                        payload: payload@,
                    }),
                self.users@ == pre.users@,
                self.folders@ == pre.folders@,
                self.memberships@ == pre.memberships@,
                self.pending@ == pre.pending@,
                self.key_packages@ == pre.key_packages@,
                self.next_folder_id == pre.next_folder_id,
                self.next_message_id == pre.next_message_id,
                self.next_key_package_id == pre.next_key_package_id,
                pre == *old(self),
            decreases message_ids@.len() - j,
        {
            let id = message_ids[j];
            let idx = match find_pending_by_id(&self.pending, id) {
                None => {
                    proof {
                        assert((pending_row(pre.pending_v(), message_ids@[j as int])) is Some);
                    }
                    return Err(DbError::RowNotFound);
                },
                Some(i) => i,
            };
            let ghost preva = self.apps_v();
            rcpts.push(self.pending[idx].user_email.clone());
            self.app_messages.push(
                ApplicationMessageEntity { message_id: id, payload: copy_bytes(payload) },
            );
            proof {
                assert(self.apps_v() =~= preva.push(AppRow { message_id: id, payload: payload@ }));
            }
            j = j + 1;
        }
        proof {
            let posta = self.apps_v();
            let apps = pre.apps_v();
            assert(apps_unique(posta)) by {
                assert forall|a: int, b: int|
                    0 <= a < b < posta.len() implies (#[trigger] posta[a]).message_id
                    != (#[trigger] posta[b]).message_id by {
                    if b < apps.len() {
                    } else if a < apps.len() {
                        let vb = b - apps.len();
                        assert(posta[b] == posta[apps.len() + vb]);
                        assert(posta[b].message_id == message_ids@[vb]);
                        assert((pending_row(pre.pending_v(), message_ids@[vb])) is Some);
                        assert(app_payload(apps, message_ids@[vb]) is None);
                        lemma_first_where_none(apps, pred_app_id(message_ids@[vb]));
                    } else {
                        let va = a - apps.len();
                        let vb = b - apps.len();
                        assert(posta[a] == posta[apps.len() + va]);
                        assert(posta[b] == posta[apps.len() + vb]);
                    }
                }
            }
            assert forall|v: int|
                0 <= v < posta.len() implies pending_has_id(
                self.pending_v(),
                (#[trigger] posta[v]).message_id,
            ) by {
                if v < apps.len() {
                    let w = choose|w: int|
                        0 <= w < pre.pending_v().len() && (#[trigger] pre.pending_v()[w]).message_id
                            == apps[v].message_id;
                    assert(self.pending_v()[w].message_id == posta[v].message_id);
                } else {
                    let vv = v - apps.len();
                    assert(posta[v] == posta[apps.len() + vv]);
                    assert((pending_row(pre.pending_v(), message_ids@[vv])) is Some);
                    lemma_first_where_found(pre.pending_v(), pred_msg_id(message_ids@[vv]));
                    let w = choose|w: int|
                        0 <= w < pre.pending_v().len() && pre.pending_v()[w] == pending_row(
                            pre.pending_v(),
                            message_ids@[vv],
                        )->0 && (forall|q: int|
                            0 <= q < w ==> !(pred_msg_id(message_ids@[vv])(
                                #[trigger] pre.pending_v()[q],
                            )));
                    assert(self.pending_v()[w].message_id == posta[v].message_id);
                }
            }
        }
        Ok(rcpts)
    }
}


// ---------------------------------------------------------------------------
// Delivery laws.
// ---------------------------------------------------------------------------
/// Successive reads are strictly monotone in the message id: after a read of
/// the oldest queue entry and its acknowledgement, the next read of the same
/// queue returns a strictly larger id.
pub proof fn lemma_get_first_strictly_monotone(
    pre: Directory,
    post: Directory,
    folder_id: u64,
    user: Seq<char>,
    m1: PendingRow,
    m2: PendingRow,
)
    requires
        pre.wf(),
        first_pending(pre.pending_v(), folder_id, user) == Some(m1),
        post.pending_v() == remove_pending(pre.pending_v(), m1.message_id, folder_id, user),
        first_pending(post.pending_v(), folder_id, user) == Some(m2),
    ensures
        m2.message_id > m1.message_id,
{
    let prep = pre.pending_v();
    let postp = post.pending_v();
    let pred = pred_in_queue(folder_id, user);
    lemma_first_where_found(prep, pred);
    let j1 = choose|j: int|
        0 <= j < prep.len() && prep[j] == m1 && (forall|q: int| 0 <= q < j ==> !pred(#[trigger] prep[q]));
    lemma_first_where_found(postp, pred);
    let j2 = choose|j: int|
        0 <= j < postp.len() && postp[j] == m2 && (forall|q: int|
            0 <= q < j ==> !pred(#[trigger] postp[q]));
    lemma_filtered_elem(prep, keep_not_msg(m1.message_id, folder_id, user));
    let w = choose|w: int| 0 <= w < prep.len() && prep[w] == postp[j2];
    assert(m2.message_id != m1.message_id);
    assert(pred(prep[w]));
    assert(w > j1) by {
        if w < j1 {
            assert(!pred(prep[w]));
        } else if w == j1 {
            assert(m2 == m1);
        }
    }
    assert(prep[j1].message_id < prep[w].message_id);
}

/// A key package is handed out at most once: after one successful consume
/// removed a package from the pool, no later consume can return it again.
pub proof fn lemma_key_package_one_shot(
    s0: Directory,
    s1: Directory,
    owner1: Seq<char>,
    owner2: Seq<char>,
    k1: KeyPackageRow,
    k2: KeyPackageRow,
)
    requires
        first_key_package(s0.kps_v(), owner1) == Some(k1),
        s1.kps_v() == remove_key_package(s0.kps_v(), k1.key_package_id),
        first_key_package(s1.kps_v(), owner2) == Some(k2),
    ensures
        k1.key_package_id != k2.key_package_id,
{
    lemma_first_where_found(s1.kps_v(), pred_kp_owner(owner2));
    let j = choose|j: int| 0 <= j < s1.kps_v().len() && s1.kps_v()[j] == k2;
    lemma_filtered_elem(s0.kps_v(), keep_not_kp(k1.key_package_id));
}

/// Two-phase delivery: after a successful publish by `sender` and the patch
/// of its batch, every recipient whose queue for the folder was empty reads
/// exactly the published proposal, under the fresh id assigned to them, with
/// the patched application payload attached.  Together with the monotone-read
/// law this is delivery exactly once per recipient.
pub proof fn lemma_two_phase_delivery(
    pre: Directory,
    mid: Directory,
    post: Directory,
    sender: Seq<char>,
    folder_id: u64,
    proposal: Seq<u8>,
    app: Seq<u8>,
    recipients: Seq<Seq<char>>,
    ids: Seq<u64>,
    t: int,
)
    requires
        pre.wf(),
        queue_publish(
            pre.pending_v(),
            mid.pending_v(),
            pre.next_message_id,
            mid.next_message_id,
            sender,
            folder_id,
            proposal,
            recipients,
            ids,
        ),
        recipients == members_except(pre.memberships_v(), folder_id, sender),
        mid.apps_v() == pre.apps_v(),
        patchable(mid.pending_v(), mid.apps_v(), ids, sender, folder_id),
        post.pending_v() == mid.pending_v(),
        queue_patch(mid.apps_v(), post.apps_v(), ids, app),
        0 <= t < recipients.len(),
        count_pending(pre.pending_v(), folder_id, recipients[t]) == 0,
    ensures
        first_pending(post.pending_v(), folder_id, recipients[t]) == Some(
            PendingRow {
                message_id: ids[t],
                folder_id,
                user_email: recipients[t],
                payload: proposal,
                creator: sender,
            },
        ),
        app_payload(post.apps_v(), ids[t]) == Some(app),
{
    let prep = pre.pending_v();
    let postp = post.pending_v();
    let r = recipients[t];
    let k = recipients.len() as int;
    let newseq = Seq::new(
        k as nat,
        |v: int| PendingRow {
            message_id: (pre.next_message_id + v) as u64,
            folder_id,
            user_email: recipients[v],
            payload: proposal,
            creator: sender,
        },
    );
    assert forall|w: int| 0 <= w < postp.len() implies postp[w] == (prep + newseq)[w] by {
        if w < prep.len() {
        } else {
            let v = w - prep.len();
            assert(postp[prep.len() + v] == newseq[v]);
        }
    }
    assert(postp =~= prep + newseq);
    let pred = pred_in_queue(folder_id, r);
    lemma_count_where_zero(prep, pred);
    lemma_first_where_none(prep, pred);
    lemma_first_where_add(prep, newseq, pred);
    lemma_members_except_distinct(pre.memberships_v(), folder_id, sender);
    assert forall|q: int| 0 <= q < t implies !pred(#[trigger] newseq.take(t)[q]) by {
        assert(newseq.take(t)[q] == newseq[q]);
        assert(recipients[q] != recipients[t]);
    }
    lemma_first_where_none(newseq.take(t), pred);
    assert(newseq.take(t + 1).drop_last() =~= newseq.take(t));
    assert(newseq.take(t + 1).last() == newseq[t]);
    assert(first_where(newseq.take(t + 1), pred) == Some(newseq[t]));
    lemma_first_where_extend(newseq, pred, t + 1);
    assert(first_pending(postp, folder_id, r) == Some(newseq[t]));
    assert(ids[t] == pre.next_message_id + t);
    let apps = mid.apps_v();
    let posta = post.apps_v();
    let appseq = Seq::new(ids.len(), |v: int| AppRow { message_id: ids[v], payload: app });
    assert forall|w: int| 0 <= w < posta.len() implies posta[w] == (apps + appseq)[w] by {
        if w < apps.len() {
        } else {
            let v = w - apps.len();
            assert(posta[apps.len() + v] == appseq[v]);
        }
    }
    assert(posta =~= apps + appseq);
    let preda = pred_app_id(ids[t]);
    assert((pending_row(mid.pending_v(), ids[t])) is Some);
    assert(app_payload(apps, ids[t]) is None);
    lemma_first_where_add(apps, appseq, preda);
    assert forall|q: int| 0 <= q < t implies !preda(#[trigger] appseq.take(t)[q]) by {
        assert(appseq.take(t)[q] == appseq[q]);
        assert(ids[q] == pre.next_message_id + q);
    }
    lemma_first_where_none(appseq.take(t), preda);
    assert(appseq.take(t + 1).drop_last() =~= appseq.take(t));
    assert(appseq.take(t + 1).last() == appseq[t]);
    assert(first_where(appseq.take(t + 1), preda) == Some(appseq[t]));
    lemma_first_where_extend(appseq, preda, t + 1);
}

} // verus!



