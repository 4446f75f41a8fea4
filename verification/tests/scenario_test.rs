//! The seed scenarios: reserved file name, optimistic concurrency, two-phase
//! proposal delivery, the pending-messages fence and the one-shot key
//! packages.

use ssf_ds::server::ApplicationMessageRequest;
use ssf_ds::server::CertificateWithEmails;
use ssf_ds::server::CreateFolderRequest;
use ssf_ds::server::CreateKeyPackageRequest;
use ssf_ds::server::CreateUserRequest;
use ssf_ds::server::FetchKeyPackageRequest;
use ssf_ds::server::ProposalMessageRequest;
use ssf_ds::server::SSFResponder;
use ssf_ds::server::ServerState;
use ssf_ds::server::ShareFolderRequest;
use ssf_ds::server::Upload;

fn cert(emails: &[&str]) -> CertificateWithEmails {
    CertificateWithEmails { emails: emails.iter().map(|e| e.to_string()).collect() }
}

fn register(server: &mut ServerState, email: &str) {
    let req = CreateUserRequest { email: email.to_string() };
    assert_eq!(server.create_user(&cert(&[email]), &req).status(), 201);
}

fn create_folder(server: &mut ServerState, user: &str) -> (u64, Option<String>, Option<String>) {
    let req = CreateFolderRequest { metadata: b"initial folder metadata".to_vec() };
    match server.create_folder(&cert(&[user]), &req) {
        SSFResponder::Created(resp) => (resp.id, resp.etag, resp.version),
        other => panic!("folder creation failed with status {}", other.status()),
    }
}

fn share(server: &mut ServerState, owner: &str, folder_id: u64, invitees: &[&str]) {
    let req = ShareFolderRequest { emails: invitees.iter().map(|e| e.to_string()).collect() };
    let (resp, _) = server.share_folder(&cert(&[owner]), folder_id, &req);
    assert_eq!(resp.status(), 200);
}

#[test]
fn reserved_file_id_is_rejected() {
    let mut server = ServerState::new();
    register(&mut server, "member@test.com");
    let (folder_id, etag, version) = create_folder(&mut server, "member@test.com");
    let upload = Upload {
        file: b"anything".to_vec(),
        metadata: b"anything".to_vec(),
        parent_etag: etag,
        parent_version: version,
    };
    let file_id = "metadata".to_string();
    let response =
        server.upload_file(&cert(&["member@test.com"]), folder_id, &file_id, &upload);
    assert_eq!(response.status(), 400);
}

#[test]
fn optimistic_metadata_concurrency_single_winner() {
    let mut server = ServerState::new();
    register(&mut server, "w1@test.com");
    register(&mut server, "w2@test.com");
    let (folder_id, e0, v0) = create_folder(&mut server, "w1@test.com");
    share(&mut server, "w1@test.com", folder_id, &["w2@test.com"]);
    let file_id = "f1".to_string();
    // Two writers race against the same parent token; the first wins.
    let first = Upload {
        file: b"body from writer one".to_vec(),
        metadata: b"metadata from writer one".to_vec(),
        parent_etag: e0.clone(),
        parent_version: v0.clone(),
    };
    let winner = match server.upload_file(&cert(&["w1@test.com"]), folder_id, &file_id, &first) {
        SSFResponder::Created(resp) => resp,
        other => panic!("first write failed with status {}", other.status()),
    };
    assert!(winner.etag.is_some() || winner.version.is_some());
    assert_ne!(winner.etag, e0);
    let second = Upload {
        file: b"body from writer two".to_vec(),
        metadata: b"metadata from writer two".to_vec(),
        parent_etag: e0.clone(),
        parent_version: v0.clone(),
    };
    let loser = server.upload_file(&cert(&["w2@test.com"]), folder_id, &file_id, &second);
    assert_eq!(loser.status(), 409);
    // The stored file is the winner's body.
    let file_back = match server.get_file(&cert(&["w2@test.com"]), folder_id, &file_id) {
        SSFResponder::OkJson(resp) => resp,
        other => panic!("file read failed with status {}", other.status()),
    };
    assert_eq!(file_back.file, b"body from writer one".to_vec());
}

#[test]
fn proposal_two_phase_delivery() {
    let mut server = ServerState::new();
    for email in ["a@test.com", "b@test.com", "c@test.com"] {
        register(&mut server, email);
    }
    let (folder_id, _, _) = create_folder(&mut server, "a@test.com");
    share(&mut server, "a@test.com", folder_id, &["b@test.com", "c@test.com"]);
    // Phase one: the proposal goes to B and C.
    let proposal = ProposalMessageRequest { proposal: b"proposal P".to_vec() };
    let (resp, notifications) =
        server.try_publish_proposal(&cert(&["a@test.com"]), folder_id, &proposal);
    let message_ids = match resp {
        SSFResponder::OkJson(r) => r.message_ids,
        other => panic!("publish failed with status {}", other.status()),
    };
    assert_eq!(message_ids.len(), 2);
    assert_eq!(notifications.len(), 2);
    // Reading before the application payload arrives asks to retry.
    assert_eq!(server.get_pending_proposal(&cert(&["b@test.com"]), folder_id).status(), 429);
    // Phase two: the payload is attached.
    let patch = ApplicationMessageRequest {
        payload: b"application payload Q".to_vec(),
        message_ids: message_ids.clone(),
    };
    let (resp, _) =
        server.try_publish_application_msg(&cert(&["a@test.com"]), folder_id, &patch);
    assert_eq!(resp.status(), 201);
    // B reads and acknowledges its copy.
    let b_msg = match server.get_pending_proposal(&cert(&["b@test.com"]), folder_id) {
        SSFResponder::OkJson(m) => m,
        other => panic!("read failed with status {}", other.status()),
    };
    assert_eq!(b_msg.payload, b"proposal P".to_vec());
    assert_eq!(b_msg.application_payload, b"application payload Q".to_vec());
    assert_eq!(b_msg.message_id, message_ids[0]);
    let ack = server.ack_message(&cert(&["b@test.com"]), folder_id, b_msg.message_id);
    assert_eq!(ack.status(), 200);
    assert_eq!(server.get_pending_proposal(&cert(&["b@test.com"]), folder_id).status(), 404);
    // C's copy is unaffected by B's acknowledgement.
    let c_msg = match server.get_pending_proposal(&cert(&["c@test.com"]), folder_id) {
        SSFResponder::OkJson(m) => m,
        other => panic!("read failed with status {}", other.status()),
    };
    assert_eq!(c_msg.payload, b"proposal P".to_vec());
    assert_eq!(c_msg.application_payload, b"application payload Q".to_vec());
    assert_eq!(c_msg.message_id, message_ids[1]);
}

#[test]
fn pending_messages_block_new_proposal() {
    let mut server = ServerState::new();
    for email in ["a@test.com", "b@test.com", "c@test.com"] {
        register(&mut server, email);
    }
    let (folder_id, _, _) = create_folder(&mut server, "a@test.com");
    share(&mut server, "a@test.com", folder_id, &["b@test.com", "c@test.com"]);
    let proposal = ProposalMessageRequest { proposal: b"proposal P".to_vec() };
    let (resp, _) = server.try_publish_proposal(&cert(&["a@test.com"]), folder_id, &proposal);
    let message_ids = match resp {
        SSFResponder::OkJson(r) => r.message_ids,
        other => panic!("publish failed with status {}", other.status()),
    };
    let patch = ApplicationMessageRequest {
        payload: b"application payload Q".to_vec(),
        message_ids: message_ids.clone(),
    };
    let (resp, _) =
        server.try_publish_application_msg(&cert(&["a@test.com"]), folder_id, &patch);
    assert_eq!(resp.status(), 201);
    // B still has pending messages in the folder, so B cannot publish.
    let blocked = ProposalMessageRequest { proposal: b"another proposal".to_vec() };
    let (resp, notifications) =
        server.try_publish_proposal(&cert(&["b@test.com"]), folder_id, &blocked);
    assert_eq!(resp.status(), 409);
    assert_eq!(notifications.len(), 1);
    // A has no pending copy of its own proposal, so A may publish again
    // only after the recipients consumed theirs; B and C acknowledge.
    assert_eq!(
        server.ack_message(&cert(&["b@test.com"]), folder_id, message_ids[0]).status(),
        200
    );
    assert_eq!(
        server.ack_message(&cert(&["c@test.com"]), folder_id, message_ids[1]).status(),
        200
    );
    let (resp, _) = server.try_publish_proposal(&cert(&["b@test.com"]), folder_id, &blocked);
    assert_eq!(resp.status(), 200);
}

#[test]
fn acknowledging_out_of_order_is_rejected() {
    let mut server = ServerState::new();
    for email in ["a@test.com", "b@test.com"] {
        register(&mut server, email);
    }
    let (folder_id, _, _) = create_folder(&mut server, "a@test.com");
    share(&mut server, "a@test.com", folder_id, &["b@test.com"]);
    let proposal = ProposalMessageRequest { proposal: b"first".to_vec() };
    let (resp, _) = server.try_publish_proposal(&cert(&["a@test.com"]), folder_id, &proposal);
    let first_ids = match resp {
        SSFResponder::OkJson(r) => r.message_ids,
        other => panic!("publish failed with status {}", other.status()),
    };
    // Acknowledging an id older than the oldest pending message is refused.
    assert_eq!(
        server.ack_message(&cert(&["b@test.com"]), folder_id, first_ids[0] - 1).status(),
        400
    );
    // Acknowledging the oldest pending message works.
    assert_eq!(
        server.ack_message(&cert(&["b@test.com"]), folder_id, first_ids[0]).status(),
        200
    );
    // Nothing left: a further acknowledgement is a not-found answer.
    assert_eq!(
        server.ack_message(&cert(&["b@test.com"]), folder_id, first_ids[0]).status(),
        404
    );
}

#[test]
fn key_package_one_shot_consumption() {
    let mut server = ServerState::new();
    for email in ["a@test.com", "b@test.com", "d@test.com"] {
        register(&mut server, email);
    }
    let (folder_id, _, _) = create_folder(&mut server, "a@test.com");
    share(&mut server, "a@test.com", folder_id, &["b@test.com"]);
    // B publishes two key packages.
    let k1 = CreateKeyPackageRequest { key_package: b"key package one".to_vec() };
    let k2 = CreateKeyPackageRequest { key_package: b"key package two".to_vec() };
    assert_eq!(server.publish_key_package(&cert(&["b@test.com"]), &k1).status(), 201);
    assert_eq!(server.publish_key_package(&cert(&["b@test.com"]), &k2).status(), 201);
    // A, a co-member, consumes them in order; each is handed out once.
    let want_b = FetchKeyPackageRequest { user_email: "b@test.com".to_string() };
    let (resp, notifications) =
        server.fetch_key_package(&cert(&["a@test.com"]), folder_id, &want_b);
    match resp {
        SSFResponder::OkJson(r) => assert_eq!(r.payload, b"key package one".to_vec()),
        other => panic!("fetch failed with status {}", other.status()),
    }
    assert_eq!(notifications.len(), 1);
    assert_eq!(notifications[0].folder_id, None);
    assert_eq!(notifications[0].receiver, "b@test.com".to_string());
    let (resp, _) = server.fetch_key_package(&cert(&["a@test.com"]), folder_id, &want_b);
    match resp {
        SSFResponder::OkJson(r) => assert_eq!(r.payload, b"key package two".to_vec()),
        other => panic!("fetch failed with status {}", other.status()),
    }
    // The pool is empty now.
    let (resp, _) = server.fetch_key_package(&cert(&["a@test.com"]), folder_id, &want_b);
    assert_eq!(resp.status(), 404);
    // A non-member gets the same not-found answer.
    let (resp, _) = server.fetch_key_package(&cert(&["d@test.com"]), folder_id, &want_b);
    assert_eq!(resp.status(), 404);
}

#[test]
fn share_with_proposal_skips_the_invitee() {
    let mut server = ServerState::new();
    for email in ["a@test.com", "b@test.com", "c@test.com"] {
        register(&mut server, email);
    }
    let (folder_id, _, _) = create_folder(&mut server, "a@test.com");
    share(&mut server, "a@test.com", folder_id, &["b@test.com"]);
    // A invites C with a proposal: it goes to the old members except A,
    // that is to B alone, never to C.
    let req = ssf_ds::server::ShareFolderRequestWithProposal {
        email: "c@test.com".to_string(),
        proposal: b"add C".to_vec(),
    };
    let (resp, notifications) = server.v2_share_folder(&cert(&["a@test.com"]), folder_id, &req);
    let ids = match resp {
        SSFResponder::OkJson(r) => r.message_ids,
        other => panic!("share failed with status {}", other.status()),
    };
    assert_eq!(ids.len(), 1);
    assert_eq!(notifications.len(), 1);
    assert_eq!(notifications[0].receiver, "b@test.com".to_string());
    // C is now a member but has an empty queue.
    assert_eq!(server.get_folder(&cert(&["c@test.com"]), folder_id).status(), 200);
    assert_eq!(server.get_pending_proposal(&cert(&["c@test.com"]), folder_id).status(), 404);
    // B's queue holds the proposal, still unpatched.
    assert_eq!(server.get_pending_proposal(&cert(&["b@test.com"]), folder_id).status(), 429);
}

#[test]
fn share_with_proposal_conflicts_while_pending() {
    let mut server = ServerState::new();
    for email in ["a@test.com", "b@test.com", "c@test.com"] {
        register(&mut server, email);
    }
    let (folder_id, _, _) = create_folder(&mut server, "a@test.com");
    share(&mut server, "a@test.com", folder_id, &["b@test.com"]);
    // A publishes; B now has a pending message in the folder.
    let proposal = ProposalMessageRequest { proposal: b"p".to_vec() };
    let (resp, _) = server.try_publish_proposal(&cert(&["a@test.com"]), folder_id, &proposal);
    assert_eq!(resp.status(), 200);
    // B may not share with a riding proposal until its queue is empty.
    let req = ssf_ds::server::ShareFolderRequestWithProposal {
        email: "c@test.com".to_string(),
        proposal: b"add C".to_vec(),
    };
    let (resp, _) = server.v2_share_folder(&cert(&["b@test.com"]), folder_id, &req);
    assert_eq!(resp.status(), 409);
    // A non-member cannot share at all.
    let (resp, _) = server.v2_share_folder(&cert(&["c@test.com"]), folder_id, &req);
    assert_eq!(resp.status(), 404);
}
