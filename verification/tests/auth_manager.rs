use autoreply::auth::manager::CredentialManager;
use autoreply::auth::types::{Account, AuthError, Config};
use std::collections::HashMap;
use std::time::SystemTime;

fn account(handle: &str, storage: &str) -> Account {
    Account {
        handle: handle.to_string(),
        did: format!("did:plc:{}", handle),
        pds: "https://pds.example".to_string(),
        storage_ref: storage.to_string(),
        created_at: SystemTime::UNIX_EPOCH,
        last_used: SystemTime::UNIX_EPOCH,
        metadata: HashMap::new(),
    }
}

#[test]
fn storing_without_a_keyring_fails_and_changes_nothing() {
    let mut m = CredentialManager::with_config(Config::default());
    assert!(matches!(m.store_credentials("alice.bsky.social", false), Err(AuthError::KeyringUnavailable(_))));
    assert!(m.config.accounts.is_empty());
}

#[test]
fn storing_adds_a_fresh_account_then_touches_it() {
    let mut m = CredentialManager::with_config(Config::default());
    m.store_credentials("alice.bsky.social", true).unwrap();
    assert_eq!(m.config.accounts.len(), 1);
    let a = &m.config.accounts[0];
    assert_eq!(a.handle, "alice.bsky.social");
    assert_eq!(a.did, "");
    assert_eq!(a.pds, "");
    assert_eq!(a.storage_ref, "keyring");

    let mut config = Config::default();
    config.accounts.push(account("bob.test", "keyring"));
    let mut m = CredentialManager::with_config(config);
    m.store_credentials("bob.test", true).unwrap();
    assert_eq!(m.config.accounts.len(), 1);
    assert_eq!(m.config.accounts[0].did, "did:plc:bob.test");
    assert!(m.config.accounts[0].last_used > SystemTime::UNIX_EPOCH);
}

#[test]
fn credentials_source_by_storage() {
    let mut config = Config::default();
    config.accounts.push(account("k.test", "keyring"));
    config.accounts.push(account("f.test", "file"));
    let m = CredentialManager::with_config(config);
    assert!(m.credentials_source("k.test").is_ok());
    match m.credentials_source("f.test") {
        Err(AuthError::ConfigError(msg)) => assert_eq!(msg, "Storage backend file not yet implemented"),
        other => panic!("unexpected {:?}", other),
    }
    match m.credentials_source("nobody.test") {
        Err(AuthError::AccountNotFound(h)) => assert_eq!(h, "nobody.test"),
        other => panic!("unexpected {:?}", other),
    }
}

#[test]
fn deleting_forgets_the_account_and_the_default() {
    let mut config = Config::default();
    config.accounts.push(account("a.test", "keyring"));
    config.accounts.push(account("b.test", "file"));
    config.default_account = Some("a.test".to_string());
    let mut m = CredentialManager::with_config(config);
    assert_eq!(m.delete_credentials("a.test").unwrap(), true);
    assert_eq!(m.config.accounts.len(), 1);
    assert_eq!(m.config.accounts[0].handle, "b.test");
    assert_eq!(m.get_default_account(), None);
    assert_eq!(m.delete_credentials("b.test").unwrap(), false);
    assert!(matches!(m.delete_credentials("b.test"), Err(AuthError::AccountNotFound(_))));
}

#[test]
fn deleting_another_account_keeps_the_default() {
    let mut config = Config::default();
    config.accounts.push(account("a.test", "keyring"));
    config.accounts.push(account("b.test", "keyring"));
    config.default_account = Some("a.test".to_string());
    let mut m = CredentialManager::with_config(config);
    m.delete_credentials("b.test").unwrap();
    assert_eq!(m.get_default_account(), Some("a.test".to_string()));
}

#[test]
fn setting_the_default_needs_a_known_account() {
    let mut config = Config::default();
    config.accounts.push(account("a.test", "keyring"));
    let mut m = CredentialManager::with_config(config);
    assert!(matches!(m.set_default_account("x.test"), Err(AuthError::AccountNotFound(_))));
    assert_eq!(m.get_default_account(), None);
    m.set_default_account("a.test").unwrap();
    assert_eq!(m.get_default_account(), Some("a.test".to_string()));
}

#[test]
fn listing_gives_every_account_in_order() {
    let mut config = Config::default();
    let mut a = account("alice.test", "keyring");
    a.metadata.insert("k".to_string(), "v".to_string());
    config.accounts.push(a);
    config.accounts.push(account("bob.test", "file"));
    let m = CredentialManager::with_config(config);
    let listed = m.list_accounts();
    assert_eq!(listed.len(), 2);
    assert_eq!(listed[0].handle, "alice.test");
    assert_eq!(listed[0].did, "did:plc:alice.test");
    assert_eq!(listed[0].metadata.get("k").map(String::as_str), Some("v"));
    assert_eq!(listed[1].handle, "bob.test");
    assert_eq!(listed[1].storage_ref, "file");
    assert!(CredentialManager::with_config(Config::default()).list_accounts().is_empty());
}
