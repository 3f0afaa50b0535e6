use notevault::note::Note;
use notevault::vault::Vault;

#[test]
fn test_create_vault() {
    let vault_name = "TestVault";
    let mut vault = Vault::create_vault(vault_name, "Vaults").expect("Failed to create test vault");
    assert_eq!(vault.name, vault_name, "Vault name mismatch");
    assert_eq!(vault.path, "Vaults/TestVault", "Vault path mismatch");
    assert!(Note::list_notes(&vault).is_empty());

    // Cleanup
    vault.delete_vault().expect("Failed to delete vault");
    assert!(Note::list_notes(&vault).is_empty(), "Vault contents were not deleted");
    assert_eq!(vault.indexed_count(), 0, "Vault index was not deleted");
}

#[test]
fn test_delete_vault() {
    let vault_name = "TestVaultToDelete";
    let mut vault = Vault::create_vault(vault_name, "Vaults").expect("Failed to create test vault");
    let note = Note::new("Some Note", "vault deletion test content");
    note.create_note(&mut vault).expect("Vault should hold a note before deletion");
    assert_eq!(Note::list_notes(&vault).len(), 1);

    // Cleanup
    vault.delete_vault().expect("Vault deletion failed");
    assert!(Note::list_notes(&vault).is_empty(), "Vault contents were not deleted");
    assert_eq!(vault.indexed_count(), 0, "Vault index was not deleted");
}

#[test]
fn vault_name_is_sanitized() {
    let vault = Vault::create_vault("My Vault!", "base").unwrap();
    assert_eq!(vault.name, "MyVault");
    assert_eq!(vault.path, "base/MyVault");
}

#[test]
fn note_path_layout() {
    let vault = Vault::create_vault("Demo", "/tmp/x").unwrap();
    assert_eq!(vault.note_path("Hello-world-example"), "/tmp/x/Demo/Hello-world-example.md");
}

#[test]
fn index_note_and_delete_note_index() {
    let mut vault = Vault::create_vault("IndexOps", "base").unwrap();
    vault.index_note("SomeId", "content   here").unwrap();
    assert_eq!(vault.indexed_count(), 1);
    assert_eq!(vault.search_note("SomeId"), vec!["SomeId".to_string()]);
    vault.delete_note_index("SomeId").unwrap();
    assert_eq!(vault.indexed_count(), 0);
    assert!(vault.search_note("SomeId").is_empty());
    // deleting an absent key is a no-op success
    vault.delete_note_index("SomeId").unwrap();
    assert_eq!(vault.indexed_count(), 0);
}
