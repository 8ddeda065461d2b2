use autoreply::auth::credentials::Credentials;
use autoreply::auth::storage::{
    session_key, update_account_list, CredentialStorage, FileStorage, StorageBackend, StoredAccount,
};
use autoreply::auth::types::AuthError;

#[test]
fn test_storage_backend() {
    let storage = CredentialStorage::new().unwrap();
    // Should be either Keyring or File
    assert!(matches!(storage.backend(), StorageBackend::Keyring | StorageBackend::File));
}

#[test]
fn keyring_is_preferred_when_available() {
    let storage = CredentialStorage::from_probe(true, Some("/home/u/.config".to_string())).unwrap();
    assert_eq!(storage.backend(), StorageBackend::Keyring);
    assert_eq!(storage.file_path(), None);
    assert_eq!(storage.backend_label(), "OS keyring");
}

#[test]
fn file_fallback_lives_in_the_config_directory() {
    let storage = CredentialStorage::from_probe(false, Some("/home/u/.config".to_string())).unwrap();
    assert_eq!(storage.backend(), StorageBackend::File);
    assert_eq!(storage.file_path(), Some("/home/u/.config/autoreply/credentials.json"));
    assert_eq!(storage.backend_label(), "file");
    let path = storage.file_path().unwrap();
    assert!(path.contains("autoreply"));
    assert!(path.ends_with("credentials.json"));
}

#[test]
fn no_config_directory_is_an_error() {
    match CredentialStorage::from_probe(false, None) {
        Err(AuthError::ConfigError(m)) => assert_eq!(m, "Could not find config directory"),
        _ => panic!("expected a configuration error"),
    }
}

#[test]
fn stored_credentials_are_read_back() {
    let mut file = FileStorage::empty();
    file.store_credentials("alice.bsky.social", Credentials::new("alice.bsky.social", "pw-1"));
    file.store_credentials("bob.bsky.social", Credentials::with_service("bob", "pw-2", "https://pds.example"));
    let c = file.get_credentials("bob.bsky.social").unwrap();
    assert_eq!(c.identifier, "bob");
    assert_eq!(c.password, "pw-2");
    assert_eq!(c.service, "https://pds.example");
    // Storing again replaces the account.
    file.store_credentials("bob.bsky.social", Credentials::new("bob", "pw-3"));
    let c = file.get_credentials("bob.bsky.social").unwrap();
    assert_eq!(c.password, "pw-3");
    assert_eq!(c.service, "https://bsky.social");
    let mut listed = file.list_accounts();
    listed.sort();
    assert_eq!(listed, vec!["alice.bsky.social".to_string(), "bob.bsky.social".to_string()]);
}

#[test]
fn unknown_account_has_no_credentials() {
    let file = FileStorage::empty();
    match file.get_credentials("nobody.bsky.social") {
        Err(AuthError::AccountNotFound(h)) => assert_eq!(h, "nobody.bsky.social"),
        _ => panic!("expected AccountNotFound"),
    }
}

#[test]
fn sessions_belong_to_stored_accounts() {
    let mut file = FileStorage::empty();
    assert!(matches!(file.store_session("alice", "{}".to_string()), Err(AuthError::AccountNotFound(_))));
    file.store_credentials("alice", Credentials::new("alice", "pw"));
    assert_eq!(file.get_session("alice"), None);
    file.store_session("alice", "{\"did\":\"did:plc:a\"}".to_string()).unwrap();
    assert_eq!(file.get_session("alice").as_deref(), Some("{\"did\":\"did:plc:a\"}"));
    assert_eq!(file.get_credentials("alice").unwrap().password, "pw");
    file.put_account("carol", StoredAccount { credentials: Credentials::new("carol", "x"), session: Some("s".to_string()) });
    assert_eq!(file.get_session("carol").as_deref(), Some("s"));
    assert_eq!(file.entries().len(), 2);
}

#[test]
fn deleting_the_default_clears_it() {
    let mut file = FileStorage::empty();
    file.store_credentials("alice", Credentials::new("alice", "pw"));
    file.store_credentials("bob", Credentials::new("bob", "pw"));
    file.set_default_account("alice");
    assert_eq!(file.get_default_account().as_deref(), Some("alice"));
    file.delete_credentials("bob");
    assert_eq!(file.get_default_account().as_deref(), Some("alice"));
    file.delete_credentials("alice");
    assert_eq!(file.get_default_account(), None);
    assert!(file.list_accounts().is_empty());
    assert!(file.get_credentials("alice").is_err());
}

#[test]
fn keyring_account_list_updates() {
    let list = vec!["alice".to_string(), "bob".to_string()];
    let added = update_account_list(list.clone(), "carol", true);
    assert_eq!(added, vec!["alice".to_string(), "bob".to_string(), "carol".to_string()]);
    let again = update_account_list(added.clone(), "carol", true);
    assert_eq!(again, added);
    let removed = update_account_list(vec!["bob".to_string(), "alice".to_string(), "bob".to_string()], "bob", false);
    assert_eq!(removed, vec!["alice".to_string()]);
    assert_eq!(session_key("alice"), "alice_session");
}
