//! Tests for the encrypted store: the encrypt/decrypt round trip, the IV
//! freshness, wrong-passphrase behaviour, and the full open → mutate →
//! flush → reopen cycle.

use rustotpony::{JsonDatabase, RusTOTPony, VaultError, DATABASE_VERSION};

#[test]
fn encrypt_decrypt_round_trip() {
    let blob = JsonDatabase::encrypt_data("the payload", "hunter2");
    let back = JsonDatabase::decrypt_data(&blob, "hunter2").unwrap();
    assert_eq!(back, "the payload");
}

#[test]
fn encrypting_twice_gives_different_blobs() {
    // A fresh random IV is drawn for every encryption, so even the same
    // plaintext under the same key yields a different blob.
    let one = JsonDatabase::encrypt_data("same text", "hunter2");
    let two = JsonDatabase::encrypt_data("same text", "hunter2");
    assert_ne!(one, two);
    assert_ne!(one[0..16], two[0..16]);
}

#[test]
fn wrong_passphrase_is_an_error_not_a_wrong_value() {
    let blob = JsonDatabase::encrypt_data("the payload", "hunter2");
    match JsonDatabase::decrypt_data(&blob, "wrongpass") {
        Ok(text) => panic!("wrong passphrase decrypted to {:?}", text),
        Err(e) => assert!(e == VaultError::Decryption || e == VaultError::Corruption),
    }
}

#[test]
fn truncated_blob_is_a_decryption_error() {
    assert_eq!(
        JsonDatabase::decrypt_data(&[1, 2, 3], "hunter2").unwrap_err(),
        VaultError::Decryption
    );
    assert_eq!(
        JsonDatabase::decrypt_data(&[], "hunter2").unwrap_err(),
        VaultError::Decryption
    );
    // Exactly the IV and nothing after it: no ciphertext block to decrypt.
    assert_eq!(
        JsonDatabase::decrypt_data(&[0u8; 16], "hunter2").unwrap_err(),
        VaultError::Decryption
    );
    // A ciphertext that is not whole blocks.
    assert_eq!(
        JsonDatabase::decrypt_data(&[0u8; 33], "hunter2").unwrap_err(),
        VaultError::Decryption
    );
}

#[test]
fn whole_block_plaintext_round_trips() {
    // A 16-byte plaintext forces a full extra padding block.
    let blob = JsonDatabase::encrypt_data("0123456789abcdef", "k");
    assert_eq!(blob.len(), 48);
    assert_eq!(JsonDatabase::decrypt_data(&blob, "k").unwrap(), "0123456789abcdef");
}

#[test]
fn oversized_padding_length_is_rejected_not_a_crash() {
    // A 16-byte plaintext makes the final decrypted block sixteen 0x10
    // padding bytes. Flipping bits of the middle ciphertext block turns
    // that block into sixteen 0x20 bytes under CBC: a claimed padding
    // length beyond the block size. Stripping must refuse it as a value,
    // not read past the block.
    let blob = JsonDatabase::encrypt_data("0123456789abcdef", "k");
    let mut tampered = blob.clone();
    for b in &mut tampered[16..32] {
        *b ^= 0x30;
    }
    assert_eq!(
        JsonDatabase::decrypt_data(&tampered, "k").unwrap_err(),
        VaultError::Decryption
    );
}

#[test]
fn empty_schema_is_current_version_no_entries() {
    let schema = JsonDatabase::get_empty_schema();
    assert_eq!(schema.version, DATABASE_VERSION);
    assert_eq!(schema.content.applications.len(), 0);
}

#[test]
fn flush_and_reopen_round_trip() {
    let db = JsonDatabase::new("hunter2".to_string());
    let mut app = RusTOTPony::new(db, None).unwrap();
    app.create_application("github", "alice", "JBSWY3DPEHPK3PXP").unwrap();
    app.create_application("mail", "bob", "GEZDGNBVGY3TQOJQGEZDGNBVGY3TQOJQ").unwrap();
    let blob = app.flush();

    let db2 = JsonDatabase::new("hunter2".to_string());
    let reopened = RusTOTPony::new(db2, Some(&blob)).unwrap();
    let apps = reopened.get_applications().unwrap();
    assert_eq!(apps.len(), 2);
    assert_eq!(apps[0].get_name(), "github");
    assert_eq!(apps[0].get_username(), "alice");
    assert_eq!(apps[0].get_secret(), "JBSWY3DPEHPK3PXP");
    assert_eq!(apps[1].get_name(), "mail");
}

#[test]
fn reopen_with_wrong_passphrase_fails() {
    let db = JsonDatabase::new("hunter2".to_string());
    let mut app = RusTOTPony::new(db, None).unwrap();
    app.create_application("github", "alice", "JBSWY3DPEHPK3PXP").unwrap();
    let blob = app.flush();

    let db2 = JsonDatabase::new("wrongpass".to_string());
    match RusTOTPony::new(db2, Some(&blob)) {
        Ok(_) => panic!("a wrong passphrase must not open the vault"),
        Err(e) => assert!(e == VaultError::Decryption || e == VaultError::Corruption),
    }
}

#[test]
fn corrupted_payload_is_reported() {
    // A blob sealed over text that is not a canonical vault decrypts fine
    // but fails schema validation.
    let blob = JsonDatabase::encrypt_data("not a vault at all", "hunter2");
    let db = JsonDatabase::new("hunter2".to_string());
    match RusTOTPony::new(db, Some(&blob)) {
        Ok(_) => panic!("a non-vault payload must not open"),
        Err(e) => assert_eq!(e, VaultError::Corruption),
    }
}

#[test]
fn reopen_preserves_escaped_names() {
    // Names and usernames with quotes, backslashes and control characters
    // survive the serialize/encrypt/decrypt/parse cycle unchanged.
    let name = "we\"ird\\na\u{1}me\n";
    let username = "line\r\nbreak\tand \u{7} bell";
    let db = JsonDatabase::new("pass phrase".to_string());
    let mut app = RusTOTPony::new(db, None).unwrap();
    app.create_application(name, username, "JBSWY3DPEHPK3PXP").unwrap();
    let blob = app.flush();

    let db2 = JsonDatabase::new("pass phrase".to_string());
    let reopened = RusTOTPony::new(db2, Some(&blob)).unwrap();
    let entry = reopened.get_application(name).unwrap();
    assert_eq!(entry.get_name(), name);
    assert_eq!(entry.get_username(), username);
}

#[test]
fn reopen_preserves_boundary_byte_values() {
    // Base32 "AA" decodes to [0] and "74" to [255]: one- and three-digit
    // byte values must survive the serialize/parse cycle exactly.
    let db = JsonDatabase::new("k".to_string());
    let mut app = RusTOTPony::new(db, None).unwrap();
    app.create_application("zero", "", "AA").unwrap();
    app.create_application("max", "", "74").unwrap();
    let blob = app.flush();

    let db2 = JsonDatabase::new("k".to_string());
    let reopened = RusTOTPony::new(db2, Some(&blob)).unwrap();
    assert_eq!(
        reopened.get_application("zero").unwrap().get_secret_bytes().as_slice(),
        &[0u8]
    );
    assert_eq!(
        reopened.get_application("max").unwrap().get_secret_bytes().as_slice(),
        &[255u8]
    );
}

#[test]
fn end_to_end_scenario() {
    // Open a vault that has no file yet: succeeds, and is empty.
    let db = JsonDatabase::new("hunter2".to_string());
    let mut app = RusTOTPony::new(db, None).unwrap();
    assert_eq!(app.get_applications().unwrap_err(), VaultError::EmptyVault);

    // Add one generator and flush: the blob stands for the file contents.
    app.create_application("github", "alice", "JBSWY3DPEHPK3PXP").unwrap();
    let blob = app.flush();
    assert!(blob.len() > 16);

    // Re-open with the right passphrase: one entry named github whose
    // current code matches an independent TOTP computation.
    let db2 = JsonDatabase::new("hunter2".to_string());
    let reopened = RusTOTPony::new(db2, Some(&blob)).unwrap();
    let apps = reopened.get_applications().unwrap();
    assert_eq!(apps.len(), 1);
    assert_eq!(apps[0].get_name(), "github");
    let now = std::time::SystemTime::now()
        .duration_since(std::time::SystemTime::UNIX_EPOCH)
        .unwrap()
        .as_secs();
    let code = apps[0].get_code();
    let expected_now = rustotpony::code_at(apps[0].get_secret_bytes(), now);
    let expected_next = rustotpony::code_at(apps[0].get_secret_bytes(), now + 30);
    // The clock may tick across a window boundary between the two reads.
    assert!(code == expected_now || code == expected_next);

    // Re-open with a wrong passphrase: refused.
    let db3 = JsonDatabase::new("wrongpass".to_string());
    match RusTOTPony::new(db3, Some(&blob)) {
        Ok(_) => panic!("a wrong passphrase must not open the vault"),
        Err(e) => assert!(e == VaultError::Decryption || e == VaultError::Corruption),
    }
}

#[test]
fn save_database_file_round_trips_through_read() {
    let db = JsonDatabase::new("k".to_string());
    let schema = JsonDatabase::get_empty_schema();
    let blob = db.save_database_file(&schema);
    let back = db.read_database_file(Some(&blob)).unwrap();
    assert_eq!(back.version, DATABASE_VERSION);
    assert_eq!(back.content.applications.len(), 0);
}

#[test]
fn secret_is_kept_by_the_store() {
    let db = JsonDatabase::new("hunter2".to_string());
    assert_eq!(db.get_secret(), "hunter2");
}
