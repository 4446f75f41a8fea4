//! Direct exercises of the object-store model, the decimal tokens and the
//! store path helpers.

use ssf_ds::db::FolderEntity;
use ssf_ds::decimal::u64_to_string;
use ssf_ds::errors::StoreError;
use ssf_ds::storage::get_folder_name_prefix;
use ssf_ds::storage::get_location_for_file;
use ssf_ds::storage::is_metadata_file_name;
use ssf_ds::storage::DynamicStore;
use ssf_ds::storage::WriteInput;

#[test]
fn test_write_file_with_metadata() {
    let mut store = DynamicStore::new();
    let folder_id = 42u64;
    let folder_entity = FolderEntity { folder_id };
    let write_input = WriteInput {
        folder_entity: FolderEntity { folder_id },
        file_id: "stored-file".to_string(),
        file_to_write: Some(b"test-file".to_vec()),
        metadata_file: b"test-metadata".to_vec(),
        parent_etag: None,
        parent_version: None,
    };
    let result = store.write(write_input).unwrap();
    assert!(result.0.is_some() || result.1.is_some());
    // The metadata object now carries exactly the token the write returned.
    let (metadata_bytes, meta) = store.read_metadata(&folder_entity).unwrap();
    assert_eq!(metadata_bytes, b"test-metadata".to_vec());
    assert_eq!(meta.e_tag, result.0);
    assert_eq!(meta.version, result.1);
    // A write against made-up parent tokens is refused.
    let conflict_write = WriteInput {
        folder_entity: FolderEntity { folder_id },
        file_id: "stored-file".to_string(),
        file_to_write: Some(b"test-file-updated".to_vec()),
        metadata_file: b"test-metadata-updated".to_vec(),
        parent_etag: Some("some-etag".to_string()),
        parent_version: Some("some-version".to_string()),
    };
    let result_2 = store.write(conflict_write);
    assert!(result_2.is_err());
    match result_2 {
        Err(StoreError::Precondition) => (),
        otherwise => {
            panic!("expected a precondition failure, got {:?}", otherwise.is_ok());
        }
    }
}

#[test]
fn create_twice_is_refused() {
    let mut store = DynamicStore::new();
    let first = WriteInput {
        folder_entity: FolderEntity { folder_id: 7 },
        file_id: String::new(),
        file_to_write: None,
        metadata_file: b"v1".to_vec(),
        parent_etag: None,
        parent_version: None,
    };
    assert!(store.write(first).is_ok());
    let again = WriteInput {
        folder_entity: FolderEntity { folder_id: 7 },
        file_id: String::new(),
        file_to_write: None,
        metadata_file: b"v2".to_vec(),
        parent_etag: None,
        parent_version: None,
    };
    assert!(matches!(store.write(again), Err(StoreError::AlreadyExists)));
}

#[test]
fn missing_objects_are_not_found() {
    let store = DynamicStore::new();
    let folder = FolderEntity { folder_id: 3 };
    assert!(matches!(store.read_metadata(&folder), Err(StoreError::NotFound)));
    let name = "nothing-here".to_string();
    assert!(matches!(store.read_file(&folder, &name), Err(StoreError::NotFound)));
}

#[test]
fn successive_writes_get_distinct_tokens() {
    let mut store = DynamicStore::new();
    let init = WriteInput {
        folder_entity: FolderEntity { folder_id: 1 },
        file_id: String::new(),
        file_to_write: None,
        metadata_file: b"v1".to_vec(),
        parent_etag: None,
        parent_version: None,
    };
    let (e1, v1) = store.write(init).unwrap();
    let update = WriteInput {
        folder_entity: FolderEntity { folder_id: 1 },
        file_id: String::new(),
        file_to_write: None,
        metadata_file: b"v2".to_vec(),
        parent_etag: e1.clone(),
        parent_version: v1.clone(),
    };
    let (e2, _) = store.write(update).unwrap();
    assert!(e1.is_some() && e2.is_some());
    assert_ne!(e1, e2);
    // The old token no longer matches: the replay is refused.
    let replay = WriteInput {
        folder_entity: FolderEntity { folder_id: 1 },
        file_id: String::new(),
        file_to_write: None,
        metadata_file: b"v3".to_vec(),
        parent_etag: e1,
        parent_version: v1,
    };
    assert!(matches!(store.write(replay), Err(StoreError::Precondition)));
}

#[test]
fn decimal_rendering_is_exact() {
    assert_eq!(u64_to_string(0), "0".to_string());
    assert_eq!(u64_to_string(9), "9".to_string());
    assert_eq!(u64_to_string(10), "10".to_string());
    assert_eq!(u64_to_string(907), "907".to_string());
    assert_eq!(u64_to_string(u64::MAX), "18446744073709551615".to_string());
}

#[test]
fn folder_prefix_and_reserved_name() {
    let prefix = get_folder_name_prefix(&FolderEntity { folder_id: 1234 });
    assert_eq!(prefix, "/1234".to_string());
    let file_name = "notes".to_string();
    let location = get_location_for_file(&FolderEntity { folder_id: 1234 }, &file_name);
    assert_eq!(location, "/1234/notes".to_string());
    let reserved = "metadata".to_string();
    let ordinary = "metadata2".to_string();
    assert!(is_metadata_file_name(&reserved));
    assert!(!is_metadata_file_name(&ordinary));
}
