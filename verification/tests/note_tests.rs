use notevault::errors::StoreError;
use notevault::note::Note;
use notevault::vault::Vault;

fn fresh_vault_name(tag: &str) -> String {
    let suffix = nanoid::format(nanoid::rngs::default, &nanoid::alphabet::SAFE, 21);
    format!("test_vault_{}_{}", tag, suffix)
}

#[test]
fn test_create_note() {
    let vault_name = fresh_vault_name("create");
    let mut vault = Vault::create_vault(&vault_name, "Vaults").unwrap();
    let note = Note::new("Test Note", "This is a test note content.");
    assert!(note.create_note(&mut vault).is_ok());

    // Cleanup
    vault.delete_vault().expect("Failed to delete vault");
}

#[test]
fn test_read_note() {
    let vault_name = fresh_vault_name("read");
    let mut vault = Vault::create_vault(&vault_name, "Vaults").unwrap();

    let title = "Test Note";
    let content = "This is a test note content.";

    let note = Note::new(title, content);
    note.create_note(&mut vault).unwrap();

    let file_name = Note::generate_file_name(content);

    assert!(Note::read_note(&vault, &file_name).is_ok(), "Note file does not exist");

    let read_content = Note::read_note(&vault, &file_name).unwrap();
    assert_eq!(read_content, content);

    // Cleanup
    vault.delete_vault().expect("Failed to delete vault");
}

#[test]
fn test_delete_note() {
    let vault_name = fresh_vault_name("delete");
    let mut vault = Vault::create_vault(&vault_name, "Vaults").unwrap();
    let note = Note::new("Test Note", "This is a test note content.");
    note.create_note(&mut vault).unwrap();
    assert!(note.delete_note(&mut vault).is_ok());

    // Cleanup
    vault.delete_vault().expect("Failed to delete vault");
}

#[test]
fn create_note_round_trip_normalizes() {
    let mut vault = Vault::create_vault("RoundTrip", "base").unwrap();
    let note = Note::new("T", "  alpha   beta\tgamma  delta ");
    note.create_note(&mut vault).unwrap();
    let id = Note::generate_file_name(&note.content);
    assert_eq!(id, "alpha-beta-gamma");
    let read = Note::read_note(&vault, &id).unwrap();
    assert_eq!(read, "alpha beta gamma delta");
}

#[test]
fn short_content_uses_whole_content_as_id() {
    assert_eq!(Note::generate_file_name("two words"), "twowords");
    assert_eq!(Note::generate_file_name("one"), "one");
    assert_eq!(Note::generate_file_name("a b c"), "a-b-c");
}

#[test]
fn delete_is_irreversible_and_total() {
    let mut vault = Vault::create_vault("DeleteTotal", "base").unwrap();
    let note = Note::new("Title", "some searchable note body");
    note.create_note(&mut vault).unwrap();
    let id = Note::generate_file_name(&note.content);
    assert!(Note::read_note(&vault, &id).is_ok());
    assert_eq!(vault.search_note(&id).len(), 1);

    note.delete_note(&mut vault).unwrap();
    assert_eq!(Note::read_note(&vault, &id), Err(StoreError::NotFound));
    assert_eq!(vault.search_note(&id).len(), 0);
}

#[test]
fn index_stays_consistent_over_operations() {
    let mut vault = Vault::create_vault("Consistent", "base").unwrap();
    let a = Note::new("A", "first note body text");
    let b = Note::new("B", "second note body text");
    let mut c = Note::new("C", "third note body text");
    a.create_note(&mut vault).unwrap();
    b.create_note(&mut vault).unwrap();
    c.create_note(&mut vault).unwrap();
    c.rename_note(&mut vault, "C renamed").unwrap();
    b.delete_note(&mut vault).unwrap();

    let ids = Note::list_notes(&vault);
    assert_eq!(ids.len(), 2);
    assert_eq!(vault.indexed_count(), ids.len());
    for id in &ids {
        assert_eq!(vault.search_note(id).len(), 1, "indexed document missing for stored file");
    }
}

#[test]
fn rename_keeps_content_and_id() {
    let mut vault = Vault::create_vault("Rename", "base").unwrap();
    let mut note = Note::new("Old Title", "stable content of the note");
    note.create_note(&mut vault).unwrap();
    let id = Note::generate_file_name(&note.content);

    note.rename_note(&mut vault, "New Title").unwrap();
    assert_eq!(note.title, "New Title");
    assert_eq!(note.content, "stable content of the note");
    assert_eq!(Note::read_note(&vault, &id).unwrap(), "stable content of the note");
    assert_eq!(vault.indexed_count(), 1);
}

#[test]
fn rename_missing_note_fails() {
    let mut vault = Vault::create_vault("RenameMissing", "base").unwrap();
    let mut note = Note::new("T", "never created note body");
    assert_eq!(note.rename_note(&mut vault, "New"), Err(StoreError::NotFound));
    assert_eq!(note.title, "T");
}

#[test]
fn read_missing_note_fails() {
    let vault = Vault::create_vault("ReadMissing", "base").unwrap();
    assert_eq!(Note::read_note(&vault, "NoSuchNote"), Err(StoreError::NotFound));
}

#[test]
fn blank_content_fails_write_verification() {
    let mut vault = Vault::create_vault("BlankContent", "base").unwrap();
    let note = Note::new("Has Title", "   \t  ");
    assert_eq!(note.create_note(&mut vault), Err(StoreError::WriteVerification));
    assert_eq!(vault.indexed_count(), 0);
}

#[test]
fn display_title_for_blank_titles() {
    let named = Note::new("Kept Title", "body");
    assert_eq!(named.display_title(), "Kept Title");

    let unnamed = Note::new("", "body");
    let shown = unnamed.display_title();
    assert_eq!(shown.chars().count(), "untitled_".len() + 21);
    assert!(shown.starts_with("untitled_"));
    let suffix = &shown["untitled_".len()..];
    assert!(suffix.chars().all(|c| c.is_ascii_alphanumeric() || c == '_' || c == '-'));
}

#[test]
fn render_html_of_stored_note() {
    let mut vault = Vault::create_vault("Render", "base").unwrap();
    // stored content is whitespace-normalized, so it renders as one line
    let note = Note::new("T", "# Head line with **bold** text");
    note.create_note(&mut vault).unwrap();
    let html = note.render_html(&vault).unwrap();
    assert!(html.contains("<h1>Head line with <strong>bold</strong> text</h1>"));

    let missing = Note::new("T", "content that was never stored");
    let err = missing.render_html(&vault).unwrap_err();
    assert_eq!(err, "note file does not exist");
}

#[test]
fn error_messages() {
    assert_eq!(StoreError::NotFound.message(), "note file does not exist");
    assert_eq!(StoreError::WriteVerification.message(), "note file was not written");
    assert_eq!(StoreError::Index.message(), "index operation failed");
    assert_eq!(StoreError::Io.message(), "filesystem operation failed");
}

#[test]
fn end_to_end_demo_scenario() {
    let mut vault = Vault::create_vault("Demo", "/tmp/x").unwrap();
    assert_eq!(vault.path, "/tmp/x/Demo");

    let note = Note::new("", "Hello world example with [[Link]]");
    note.create_note(&mut vault).unwrap();

    let id = Note::generate_file_name(&note.content);
    assert_eq!(id, "Hello-world-example");
    assert_eq!(Note::read_note(&vault, &id).unwrap(), "Hello world example with [[Link]]");
    assert_eq!(vault.indexed_count(), 1);
    assert_eq!(vault.search_note(&id), vec!["Hello-world-example".to_string()]);
    assert_eq!(notevault::markdown::extract_links(&note.content), vec!["Link"]);

    note.delete_note(&mut vault).unwrap();
    assert_eq!(Note::read_note(&vault, &id), Err(StoreError::NotFound));
    assert_eq!(vault.indexed_count(), 0);
    assert!(vault.search_note(&id).is_empty());
}
