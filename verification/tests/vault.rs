use pwm::db_encrypted::DatabaseEncrypted;
use pwm::gui::vault::Vault;

#[test]
fn vault_new_is_empty_and_changed() {
    let mut v = Vault::new("New Vault", b"test", "/opt/pwm").unwrap();
    assert!(v.changed);
    assert_eq!(v.path, "/opt/pwm/New Vault");
    assert_eq!(v.name_buffer, "New Vault");
    assert!(v.list().unwrap().is_empty());
    // renaming an entry to its own name does nothing, even with a wrong password
    assert!(v.rename("x", "x", b"wrong").is_ok());
    v.mark_saved("/tmp/vaults/Saved");
    assert!(!v.changed);
    assert_eq!(v.path, "/tmp/vaults/Saved");
    assert_eq!(v.name_buffer, "Saved");
}

#[test]
fn encrypted_db_new_is_empty() {
    let db = DatabaseEncrypted::new(b"test").unwrap();
    assert!(db.list().unwrap().is_empty());
    assert!(db.list_fuzzy_match("").unwrap().is_empty());
}
