//! Tests for the in-memory registry: creation, deletion, renaming,
//! listing, and their error taxonomy.

use rustotpony::{JsonDatabase, RusTOTPony, VaultError};

fn fresh(passphrase: &str) -> RusTOTPony {
    let db = JsonDatabase::new(passphrase.to_string());
    RusTOTPony::new(db, None).expect("an absent file opens as an empty vault")
}

#[test]
fn fresh_vault_is_empty() {
    let app = fresh("hunter2");
    assert_eq!(app.get_applications().unwrap_err(), VaultError::EmptyVault);
}

#[test]
fn create_then_list() {
    let mut app = fresh("hunter2");
    app.create_application("github", "alice", "JBSWY3DPEHPK3PXP").unwrap();
    let apps = app.get_applications().unwrap();
    assert_eq!(apps.len(), 1);
    assert_eq!(apps[0].get_name(), "github");
    assert_eq!(apps[0].get_username(), "alice");
    assert_eq!(apps[0].get_secret(), "JBSWY3DPEHPK3PXP");
}

#[test]
fn secret_bytes_are_the_base32_decoding() {
    let mut app = fresh("hunter2");
    app.create_application("github", "alice", "JBSWY3DPEHPK3PXP").unwrap();
    let entry = app.get_application("github").unwrap();
    assert_eq!(
        entry.get_secret_bytes().as_slice(),
        &[72, 101, 108, 108, 111, 33, 222, 173, 190, 239]
    );
}

#[test]
fn duplicate_name_is_refused() {
    let mut app = fresh("hunter2");
    app.create_application("a", "", "JBSWY3DPEHPK3PXP").unwrap();
    let err = app.create_application("a", "", "GEZDGNBVGY3TQOJQGEZDGNBVGY3TQOJQ").unwrap_err();
    assert_eq!(err, VaultError::DuplicateName);
    // The failed creation must not have changed the registry.
    assert_eq!(app.get_applications().unwrap().len(), 1);
    assert_eq!(
        app.get_application("a").unwrap().get_secret(),
        "JBSWY3DPEHPK3PXP"
    );
}

#[test]
fn invalid_secret_is_refused() {
    let mut app = fresh("hunter2");
    // '1', '8', '9' and '0' are not in the RFC 4648 Base32 alphabet.
    let err = app.create_application("bad", "", "NOT A SECRET 189").unwrap_err();
    assert_eq!(err, VaultError::InvalidSecret);
    assert_eq!(app.get_applications().unwrap_err(), VaultError::EmptyVault);
}

#[test]
fn invalid_secret_wins_over_duplicate_name() {
    let mut app = fresh("hunter2");
    app.create_application("a", "", "JBSWY3DPEHPK3PXP").unwrap();
    // The secret is checked before the name.
    let err = app.create_application("a", "", "!!!").unwrap_err();
    assert_eq!(err, VaultError::InvalidSecret);
}

#[test]
fn delete_missing_is_not_found() {
    let mut app = fresh("hunter2");
    assert_eq!(app.delete_application("missing").unwrap_err(), VaultError::NotFound);
}

#[test]
fn delete_removes_the_entry() {
    let mut app = fresh("hunter2");
    app.create_application("a", "", "JBSWY3DPEHPK3PXP").unwrap();
    app.create_application("b", "", "JBSWY3DPEHPK3PXP").unwrap();
    app.delete_application("a").unwrap();
    let apps = app.get_applications().unwrap();
    assert_eq!(apps.len(), 1);
    assert_eq!(apps[0].get_name(), "b");
    assert_eq!(app.get_application("a").unwrap_err(), VaultError::NotFound);
}

#[test]
fn rename_moves_the_name() {
    let mut app = fresh("hunter2");
    app.create_application("a", "u", "JBSWY3DPEHPK3PXP").unwrap();
    app.rename_application("a", "b").unwrap();
    let apps = app.get_applications().unwrap();
    assert_eq!(apps.len(), 1);
    assert_eq!(apps[0].get_name(), "b");
    assert_eq!(apps[0].get_username(), "u");
    assert_eq!(app.get_application("a").unwrap_err(), VaultError::NotFound);
    assert!(app.get_application("b").is_ok());
}

#[test]
fn rename_missing_is_not_found() {
    let mut app = fresh("hunter2");
    assert_eq!(app.rename_application("a", "b").unwrap_err(), VaultError::NotFound);
}

#[test]
fn rename_onto_existing_name_is_refused() {
    let mut app = fresh("hunter2");
    app.create_application("a", "", "JBSWY3DPEHPK3PXP").unwrap();
    app.create_application("b", "", "JBSWY3DPEHPK3PXP").unwrap();
    assert_eq!(app.rename_application("a", "b").unwrap_err(), VaultError::DuplicateName);
    // Both entries still present under their old names.
    assert_eq!(app.get_applications().unwrap().len(), 2);
    assert!(app.get_application("a").is_ok());
    assert!(app.get_application("b").is_ok());
}

#[test]
fn rename_to_own_name_is_allowed() {
    let mut app = fresh("hunter2");
    app.create_application("a", "", "JBSWY3DPEHPK3PXP").unwrap();
    app.rename_application("a", "a").unwrap();
    assert_eq!(app.get_applications().unwrap().len(), 1);
    assert!(app.get_application("a").is_ok());
}

#[test]
fn delete_all_empties_the_registry() {
    let mut app = fresh("hunter2");
    app.create_application("a", "", "JBSWY3DPEHPK3PXP").unwrap();
    app.create_application("b", "", "JBSWY3DPEHPK3PXP").unwrap();
    app.delete_all_applications();
    assert_eq!(app.get_applications().unwrap_err(), VaultError::EmptyVault);
}

#[test]
fn entry_code_is_six_digits() {
    let mut app = fresh("hunter2");
    app.create_application("github", "alice", "JBSWY3DPEHPK3PXP").unwrap();
    let code = app.get_application("github").unwrap().get_code();
    assert_eq!(code.len(), 6);
    assert!(code.chars().all(|c| c.is_ascii_digit()));
}

#[test]
fn export_json_is_canonical() {
    let mut app = fresh("hunter2");
    app.create_application("github", "alice", "JBSWY3DPEHPK3PXP").unwrap();
    let expected = "{\"github\":{\"name\":\"github\",\"secret\":\"JBSWY3DPEHPK3PXP\",\"username\":\"alice\",\"secret_bytes\":[72,101,108,108,111,33,222,173,190,239]}}";
    assert_eq!(app.export_json(), expected);
}

#[test]
fn export_json_empty_vault() {
    let app = fresh("hunter2");
    assert_eq!(app.export_json(), "{}");
}

#[test]
fn error_messages_are_fixed_texts() {
    assert_eq!(VaultError::EmptyVault.message(), "There are no applications");
    assert_eq!(VaultError::InvalidSecret.message(), "Couldn't decode secret key");
}
