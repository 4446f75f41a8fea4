//! Ordering and error behaviour of the message queue, exercised both
//! through the request surface and directly on the relational state.

use ssf_ds::db::Directory;
use ssf_ds::server::ApplicationMessageRequest;
use ssf_ds::server::CertificateWithEmails;
use ssf_ds::server::CreateFolderRequest;
use ssf_ds::server::CreateUserRequest;
use ssf_ds::server::Notification;
use ssf_ds::server::ProposalMessageRequest;
use ssf_ds::server::SSFResponder;
use ssf_ds::server::ServerState;
use ssf_ds::server::ShareFolderRequest;
use ssf_ds::server::sse;

fn cert(emails: &[&str]) -> CertificateWithEmails {
    CertificateWithEmails { emails: emails.iter().map(|e| e.to_string()).collect() }
}

fn register(server: &mut ServerState, email: &str) {
    let req = CreateUserRequest { email: email.to_string() };
    assert_eq!(server.create_user(&cert(&[email]), &req).status(), 201);
}

fn setup_two_member_folder(server: &mut ServerState) -> u64 {
    register(server, "a@test.com");
    register(server, "b@test.com");
    let req = CreateFolderRequest { metadata: b"m".to_vec() };
    let folder_id = match server.create_folder(&cert(&["a@test.com"]), &req) {
        SSFResponder::Created(resp) => resp.id,
        other => panic!("folder creation failed with status {}", other.status()),
    };
    let share = ShareFolderRequest { emails: vec!["b@test.com".to_string()] };
    let (resp, _) = server.share_folder(&cert(&["a@test.com"]), folder_id, &share);
    assert_eq!(resp.status(), 200);
    folder_id
}

fn publish_and_patch(server: &mut ServerState, folder_id: u64, payload: &[u8]) -> Vec<u64> {
    let proposal = ProposalMessageRequest { proposal: payload.to_vec() };
    let (resp, _) = server.try_publish_proposal(&cert(&["a@test.com"]), folder_id, &proposal);
    let ids = match resp {
        SSFResponder::OkJson(r) => r.message_ids,
        other => panic!("publish failed with status {}", other.status()),
    };
    let patch = ApplicationMessageRequest { payload: b"q".to_vec(), message_ids: ids.clone() };
    let (resp, _) = server.try_publish_application_msg(&cert(&["a@test.com"]), folder_id, &patch);
    assert_eq!(resp.status(), 201);
    ids
}

#[test]
fn reads_are_strictly_monotone_across_acks() {
    let mut server = ServerState::new();
    let folder_id = setup_two_member_folder(&mut server);
    let first_ids = publish_and_patch(&mut server, folder_id, b"first proposal");
    // B reads and acknowledges the first message, then A publishes again.
    let m1 = match server.get_pending_proposal(&cert(&["b@test.com"]), folder_id) {
        SSFResponder::OkJson(m) => m,
        other => panic!("read failed with status {}", other.status()),
    };
    assert_eq!(m1.message_id, first_ids[0]);
    assert_eq!(server.ack_message(&cert(&["b@test.com"]), folder_id, m1.message_id).status(), 200);
    let second_ids = publish_and_patch(&mut server, folder_id, b"second proposal");
    let m2 = match server.get_pending_proposal(&cert(&["b@test.com"]), folder_id) {
        SSFResponder::OkJson(m) => m,
        other => panic!("read failed with status {}", other.status()),
    };
    assert_eq!(m2.message_id, second_ids[0]);
    assert!(m2.message_id > m1.message_id);
}

#[test]
fn publishing_into_a_foreign_folder_is_not_found() {
    let mut server = ServerState::new();
    let folder_id = setup_two_member_folder(&mut server);
    register(&mut server, "outsider@test.com");
    let proposal = ProposalMessageRequest { proposal: b"p".to_vec() };
    let (resp, notifications) =
        server.try_publish_proposal(&cert(&["outsider@test.com"]), folder_id, &proposal);
    assert_eq!(resp.status(), 404);
    assert!(notifications.is_empty());
}

#[test]
fn patching_foreign_or_unknown_ids_is_not_found() {
    let mut server = ServerState::new();
    let folder_id = setup_two_member_folder(&mut server);
    let proposal = ProposalMessageRequest { proposal: b"p".to_vec() };
    let (resp, _) = server.try_publish_proposal(&cert(&["a@test.com"]), folder_id, &proposal);
    let ids = match resp {
        SSFResponder::OkJson(r) => r.message_ids,
        other => panic!("publish failed with status {}", other.status()),
    };
    // An id that does not exist.
    let bogus = ApplicationMessageRequest {
        payload: b"q".to_vec(),
        message_ids: vec![ids[0] + 1000],
    };
    let (resp, _) = server.try_publish_application_msg(&cert(&["a@test.com"]), folder_id, &bogus);
    assert_eq!(resp.status(), 404);
    // The creator's batch patched by someone else.
    let stolen = ApplicationMessageRequest { payload: b"q".to_vec(), message_ids: ids.clone() };
    let (resp, _) = server.try_publish_application_msg(&cert(&["b@test.com"]), folder_id, &stolen);
    assert_eq!(resp.status(), 404);
    // A duplicated id within the request.
    let doubled = ApplicationMessageRequest {
        payload: b"q".to_vec(),
        message_ids: vec![ids[0], ids[0]],
    };
    let (resp, _) = server.try_publish_application_msg(&cert(&["a@test.com"]), folder_id, &doubled);
    assert_eq!(resp.status(), 404);
    // The correct patch still works afterwards, but only once.
    let patch = ApplicationMessageRequest { payload: b"q".to_vec(), message_ids: ids.clone() };
    let (resp, _) = server.try_publish_application_msg(&cert(&["a@test.com"]), folder_id, &patch);
    assert_eq!(resp.status(), 201);
    let again = ApplicationMessageRequest { payload: b"q".to_vec(), message_ids: ids };
    let (resp, _) = server.try_publish_application_msg(&cert(&["a@test.com"]), folder_id, &again);
    assert_eq!(resp.status(), 404);
}

#[test]
fn leaving_a_folder_clears_the_queue_of_the_leaver() {
    let mut server = ServerState::new();
    let folder_id = setup_two_member_folder(&mut server);
    publish_and_patch(&mut server, folder_id, b"pending for b");
    assert_eq!(server.get_pending_proposal(&cert(&["b@test.com"]), folder_id).status(), 200);
    assert_eq!(server.remove_self_from_folder(&cert(&["b@test.com"]), folder_id).status(), 200);
    // B's queue is gone with the membership; a second leave is not found.
    assert_eq!(server.remove_self_from_folder(&cert(&["b@test.com"]), folder_id).status(), 404);
    // The folder survives for A, whose queue was empty all along.
    assert_eq!(server.get_folder(&cert(&["a@test.com"]), folder_id).status(), 200);
    assert_eq!(server.get_pending_proposal(&cert(&["a@test.com"]), folder_id).status(), 404);
}

#[test]
fn sse_events_are_filtered_and_rendered() {
    let me = "me@test.com".to_string();
    let for_me = Notification { folder_id: Some(907), receiver: "me@test.com".to_string() };
    let key_request = Notification { folder_id: None, receiver: "me@test.com".to_string() };
    let for_other = Notification { folder_id: Some(907), receiver: "other@test.com".to_string() };
    assert_eq!(sse(&for_me, &me), Some("907".to_string()));
    assert_eq!(sse(&key_request, &me), Some("-1".to_string()));
    assert_eq!(sse(&for_other, &me), None);
}

#[test]
fn directory_lookups_and_counts() {
    let mut db = Directory::new();
    let alice = "alice@test.com".to_string();
    assert!(db.get_user_by_email(&alice).is_err());
    assert!(db.insert_user(&alice).is_ok());
    assert!(db.insert_user(&alice).is_err());
    assert_eq!(db.get_user_by_email(&alice).unwrap().user_email, alice);
    let folder_id = db.insert_folder_and_relation(&alice).unwrap();
    assert_eq!(folder_id, 1);
    assert_eq!(db.get_folder_by_id(&alice, folder_id).unwrap().folder_id, folder_id);
    assert_eq!(db.count_pending_messages_for_folder_and_user(folder_id, &alice), 0);
    let listed = db.list_users_for_folder(&vec![alice.clone()], folder_id);
    assert_eq!(listed.len(), 1);
    assert_eq!(listed[0].user_email, alice);
    let pending = db.list_pending_messages_by_folder_and_user(folder_id, &alice);
    assert!(pending.is_empty());
}
