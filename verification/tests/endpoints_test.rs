//! End-to-end exercises of the request surface: registration, folders,
//! sharing, uploads and the access-control fences between users.

use ssf_ds::server::CertificateWithEmails;
use ssf_ds::server::CreateFolderRequest;
use ssf_ds::server::CreateUserRequest;
use ssf_ds::server::SSFResponder;
use ssf_ds::server::ServerState;
use ssf_ds::server::ShareFolderRequest;
use ssf_ds::server::Upload;

fn cert(emails: &[&str]) -> CertificateWithEmails {
    CertificateWithEmails { emails: emails.iter().map(|e| e.to_string()).collect() }
}

fn create_user(server: &mut ServerState, cert_emails: &[&str], email: &str) -> u16 {
    let c = cert(cert_emails);
    let req = CreateUserRequest { email: email.to_string() };
    server.create_user(&c, &req).status()
}

fn create_folder(server: &mut ServerState, user: &str) -> (u64, Option<String>, Option<String>) {
    let c = cert(&[user]);
    let req = CreateFolderRequest { metadata: b"METADATA CONTENT".to_vec() };
    match server.create_folder(&c, &req) {
        SSFResponder::Created(resp) => {
            assert!(resp.etag.is_some() || resp.version.is_some());
            (resp.id, resp.etag, resp.version)
        }
        other => panic!("folder creation failed with status {}", other.status()),
    }
}

fn list_folder_ids(server: &ServerState, user: &str) -> Vec<u64> {
    match server.list_folders_for_user(&cert(&[user])) {
        SSFResponder::OkJson(resp) => resp.folders,
        other => panic!("listing folders failed with status {}", other.status()),
    }
}

#[test]
fn post_users_unhautorized() {
    let mut server = ServerState::new();
    // A client that presents no usable identity cannot register and cannot
    // list users.
    let status = create_user(&mut server, &[], "a@x.com");
    assert_eq!(status, 400);
    assert_eq!(server.list_users(&cert(&[])).status(), 401);
}

#[test]
fn post_users_bad_request() {
    let mut server = ServerState::new();
    // The email to register is not bound to the presented certificate.
    let status = create_user(&mut server, &["someone-else@test.com"], "a@x.com");
    assert_eq!(status, 400);
}

#[test]
fn users_create_list_conflict() {
    let mut server = ServerState::new();
    let email = "a@x.com";
    assert_eq!(create_user(&mut server, &[email], email), 201);
    let listed = match server.list_users(&cert(&[email])) {
        SSFResponder::OkJson(resp) => resp.emails,
        other => panic!("listing users failed with status {}", other.status()),
    };
    assert!(listed.contains(&email.to_string()));
    assert_eq!(create_user(&mut server, &[email], email), 409);
    let listed2 = match server.list_users(&cert(&[email])) {
        SSFResponder::OkJson(resp) => resp.emails,
        other => panic!("listing users failed with status {}", other.status()),
    };
    assert_eq!(listed2.iter().filter(|e| e.as_str() == email).count(), 1);
}

#[test]
fn folders_unauthorized() {
    let mut server = ServerState::new();
    let req = CreateFolderRequest { metadata: b"METADATA CONTENT".to_vec() };
    let response = server.create_folder(&cert(&[]), &req);
    assert_eq!(response.status(), 401);
}

#[test]
fn folders_create_list() {
    let mut server = ServerState::new();
    let email = "owner@test.com";
    assert_eq!(create_user(&mut server, &[email], email), 201);
    let (id1, _, _) = create_folder(&mut server, email);
    let folders = list_folder_ids(&server, email);
    assert!(folders.iter().any(|f| *f == id1));
    assert!(folders.len() == 1);
    let (id2, _, _) = create_folder(&mut server, email);
    let folders = list_folder_ids(&server, email);
    assert!(folders.len() == 2);
    assert!(folders.iter().all(|f| *f == id1 || *f == id2));
}

#[test]
fn user_cannot_see_other_users_folder_but_shared_and_remove() {
    let mut server = ServerState::new();
    let email = "a@test.com";
    let email_2 = "b@test.com";
    assert_eq!(create_user(&mut server, &[email], email), 201);
    assert_eq!(create_user(&mut server, &[email_2], email_2), 201);
    let (id1, _, _) = create_folder(&mut server, email);
    let (id2, _, _) = create_folder(&mut server, email_2);
    let folders = list_folder_ids(&server, email);
    assert!(folders.iter().any(|f| *f == id1));
    assert_eq!(folders.len(), 1);
    let folders2 = list_folder_ids(&server, email_2);
    assert!(folders2.iter().any(|f| *f == id2));
    assert_eq!(folders2.len(), 1);
    // The second user cannot see the first user's folder.
    assert_eq!(server.get_folder(&cert(&[email]), id2).status(), 404);
    assert_eq!(server.get_folder(&cert(&[email]), id1).status(), 200);
    // Share folder 1 with the second user.
    let share = ShareFolderRequest { emails: vec![email_2.to_string()] };
    let (resp, _notifications) = server.share_folder(&cert(&[email]), id1, &share);
    assert_eq!(resp.status(), 200);
    assert_eq!(server.get_folder(&cert(&[email_2]), id1).status(), 200);
    let folders2 = list_folder_ids(&server, email_2);
    assert_eq!(folders2.len(), 2);
    // The second user leaves folder 1 again.
    assert_eq!(server.remove_self_from_folder(&cert(&[email_2]), id1).status(), 200);
    let folders2 = list_folder_ids(&server, email_2);
    assert_eq!(folders2.len(), 1);
    // The owner leaves too; the folder is gone for everyone.
    assert_eq!(server.remove_self_from_folder(&cert(&[email]), id1).status(), 200);
    assert_eq!(server.get_folder(&cert(&[email_2]), id1).status(), 404);
    assert_eq!(server.get_folder(&cert(&[email]), id1).status(), 404);
}

#[test]
fn upload_file_and_read_it_back_with_metadata_and_update() {
    let mut server = ServerState::new();
    let email = "uploader@test.com";
    assert_eq!(create_user(&mut server, &[email], email), 201);
    let (folder_id, etag0, version0) = create_folder(&mut server, email);
    let file_id = "readme-file-id".to_string();
    // Without parent tokens the write conflicts with the metadata object
    // created together with the folder.
    let conflicting = Upload {
        file: b"README CONTENT".to_vec(),
        metadata: b"METADATA CONTENT".to_vec(),
        parent_etag: None,
        parent_version: None,
    };
    let response = server.upload_file(&cert(&[email]), folder_id, &file_id, &conflicting);
    assert_eq!(response.status(), 409);
    // With the tokens from the folder creation the write goes through.
    let upload = Upload {
        file: b"README CONTENT".to_vec(),
        metadata: b"METADATA CONTENT".to_vec(),
        parent_etag: etag0.clone(),
        parent_version: version0.clone(),
    };
    let put_response = match server.upload_file(&cert(&[email]), folder_id, &file_id, &upload) {
        SSFResponder::Created(resp) => resp,
        other => panic!("upload failed with status {}", other.status()),
    };
    assert!(put_response.etag.is_some() || put_response.version.is_some());
    // Read the file back.
    let file_back = match server.get_file(&cert(&[email]), folder_id, &file_id) {
        SSFResponder::OkJson(resp) => resp,
        other => panic!("file read failed with status {}", other.status()),
    };
    assert_eq!(file_back.file, b"README CONTENT".to_vec());
    // The file comes back under the very token the write response carried.
    assert_eq!(file_back.etag, put_response.etag);
    assert_eq!(file_back.version, put_response.version);
    // Read the metadata back: same content and the very tokens the upload
    // response carried.
    let metadata_back = match server.get_metadata(&cert(&[email]), folder_id) {
        SSFResponder::OkJson(resp) => resp,
        other => panic!("metadata read failed with status {}", other.status()),
    };
    assert_eq!(String::from_utf8(metadata_back.file).unwrap(), "METADATA CONTENT".to_string());
    assert!(metadata_back.etag.is_some() || metadata_back.version.is_some());
    assert_eq!(put_response.version, metadata_back.version);
    assert_eq!(put_response.etag, metadata_back.etag);
    // Update both under the fresh token.
    let update = Upload {
        file: b"README CONTENT UPDATED".to_vec(),
        metadata: b"METADATA CONTENT UPDATED".to_vec(),
        parent_etag: put_response.etag.clone(),
        parent_version: put_response.version.clone(),
    };
    let update_response = match server.upload_file(&cert(&[email]), folder_id, &file_id, &update) {
        SSFResponder::Created(resp) => resp,
        other => panic!("update failed with status {}", other.status()),
    };
    assert!(update_response.etag.is_some() || update_response.version.is_some());
    let file_back = match server.get_file(&cert(&[email]), folder_id, &file_id) {
        SSFResponder::OkJson(resp) => resp,
        other => panic!("file read failed with status {}", other.status()),
    };
    assert_eq!(file_back.file, b"README CONTENT UPDATED".to_vec());
    let metadata_back = match server.get_metadata(&cert(&[email]), folder_id) {
        SSFResponder::OkJson(resp) => resp,
        other => panic!("metadata read failed with status {}", other.status()),
    };
    assert_eq!(metadata_back.file, b"METADATA CONTENT UPDATED".to_vec());
}
