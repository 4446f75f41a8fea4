//! The metadata codec: encoding round trip and rejection of malformed
//! documents.

use ssf_ds::metadata::deserialize;
use ssf_ds::metadata::serialize;
use ssf_ds::metadata::FileMetadataEntry;
use ssf_ds::metadata::FolderKeyEntry;
use ssf_ds::metadata::Metadata;

fn sample() -> Metadata {
    Metadata {
        folder_keys_by_user: vec![
            FolderKeyEntry {
                user_identity: b"alice@test.com".to_vec(),
                encrypted_folder_key: b"alice folder key ciphertext".to_vec(),
            },
            FolderKeyEntry {
                user_identity: b"bob@test.com".to_vec(),
                encrypted_folder_key: b"bob folder key ciphertext".to_vec(),
            },
        ],
        file_metadatas: vec![FileMetadataEntry {
            file_id: b"9c0f3ed2".to_vec(),
            encrypted_file_metadata: b"file metadata ciphertext".to_vec(),
        }],
    }
}

#[test]
fn serialize_deserialize_round_trip() {
    let bytes = serialize(sample()).unwrap();
    let back = deserialize(&bytes).unwrap();
    let original = sample();
    assert_eq!(back.folder_keys_by_user.len(), original.folder_keys_by_user.len());
    for (a, b) in back.folder_keys_by_user.iter().zip(original.folder_keys_by_user.iter()) {
        assert_eq!(a.user_identity, b.user_identity);
        assert_eq!(a.encrypted_folder_key, b.encrypted_folder_key);
    }
    assert_eq!(back.file_metadatas.len(), original.file_metadatas.len());
    for (a, b) in back.file_metadatas.iter().zip(original.file_metadatas.iter()) {
        assert_eq!(a.file_id, b.file_id);
        assert_eq!(a.encrypted_file_metadata, b.encrypted_file_metadata);
    }
}

#[test]
fn empty_document_round_trip() {
    let empty = Metadata { folder_keys_by_user: vec![], file_metadatas: vec![] };
    let bytes = serialize(empty).unwrap();
    assert_eq!(bytes.len(), 16);
    let back = deserialize(&bytes).unwrap();
    assert!(back.folder_keys_by_user.is_empty());
    assert!(back.file_metadatas.is_empty());
}

#[test]
fn truncated_documents_are_rejected() {
    assert!(deserialize(&[]).is_err());
    assert!(deserialize(&[1, 2, 3]).is_err());
    // A count of one entry but no entry bytes behind it.
    let lying = 1u64.to_le_bytes().to_vec();
    assert!(deserialize(&lying).is_err());
    // A valid document with trailing garbage is rejected too.
    let mut bytes = serialize(sample()).unwrap();
    bytes.push(0);
    assert!(deserialize(&bytes).is_err());
}
