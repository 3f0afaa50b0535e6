//! Notes: a title and a body of Markdown text, and the canonical
//! identifier derived from the content.

use vstd::prelude::*;
use vstd::string::StringExecFns;
use crate::errors::StoreError;
use crate::errors::store_error_text;
use crate::markdown::clean_html_of;
use crate::markdown::html_of;
use crate::markdown::render_markdown;
use crate::string_utils::all_ident_chars;
use crate::string_utils::file_name_text;
use crate::string_utils::is_blank;
use crate::string_utils::lemma_file_name_sanitized;
use crate::string_utils::normalize_text;
use crate::string_utils::normalize_whitespace;
use crate::string_utils::sanitize_filename;
use crate::string_utils::sanitize_text;
use crate::string_utils::split_words;
use crate::string_utils::trim_text;
use crate::string_utils::words_text;
use crate::vault::Vault;

verus! {

/// Relies on `nanoid::format` with the url-safe alphabet: the returned
/// identifier has exactly `size` characters, each drawn from
/// `[A-Za-z0-9_-]`; the characters are chosen at random.
#[verifier::external_body]
fn random_ident(size: usize) -> (r: String)
    ensures
        r@.len() == size as nat,
        all_ident_chars(r@),
{
    nanoid::format(nanoid::rngs::default, &nanoid::alphabet::SAFE, size)
}

/// A note: a human-supplied title (may be blank) and Markdown content.
/// The stored filename is derived from the content alone; the title is
/// used only for display.
#[derive(Debug)]
pub struct Note {
    pub title: String,
    pub content: String,
}

impl Note {
    /// Builds a note from a title and Markdown content.
    pub fn new(title: &str, content: &str) -> (r: Note)
        ensures
            r.title@ == title@,
            r.content@ == content@,
    {
        Note { title: title.to_owned(), content: content.to_owned() }
    }

    /// Derives the canonical file name (without extension) from the
    /// content: the first three whitespace-delimited words joined with
    /// `-` when there are at least three, otherwise the whole content,
    /// sanitized either way.
    pub fn generate_file_name(content: &str) -> (r: String)
        ensures
            r@ == file_name_text(content@),
    {
        let words = split_words(content, 3);
        if words.len() == 3 {
            let mut joined = words[0].clone();
            joined.push('-');
            joined.append(words[1].as_str());
            joined.push('-');
            joined.append(words[2].as_str());
            proof {
                assert(words.deep_view()[0] == words@[0]@);
                assert(words.deep_view()[1] == words@[1]@);
                assert(words.deep_view()[2] == words@[2]@);
                assert(joined@ =~= words_text(content@)[0] + seq!['-'] + words_text(content@)[1]
                    + seq!['-'] + words_text(content@)[2]);
            }
            sanitize_filename(joined.as_str())
        } else {
            proof {
                if words_text(content@).len() >= 3 {
                    assert(words.deep_view().len() == 3);
                }
            }
            sanitize_filename(content)
        }
    }

    /// The title shown for this note: the title itself when it is not
    /// blank, otherwise a fresh `untitled_` name with a random suffix.
    pub fn display_title(&self) -> (r: String)
        ensures
            trim_text(self.title@).len() > 0 ==> r@ == self.title@,
            trim_text(self.title@).len() == 0 ==> (r@.len() == "untitled_"@.len() + 21
                && r@.subrange(0, "untitled_"@.len() as int) == "untitled_"@),
    {
        if is_blank(self.title.as_str()) {
            let mut name = String::from_str("untitled_");
            let suffix = random_ident(21);
            name.append(suffix.as_str());
            proof {
                assert(name@.subrange(0, "untitled_"@.len() as int) =~= "untitled_"@);
            }
            name
        } else {
            self.title.clone()
        }
    }

    /// Creates the note in the vault: derives the canonical id from the
    /// content, normalizes the content, writes the file under
    /// `<id>.md`, verifies the write, and indexes the note under the
    /// same id. A note whose normalized content is empty fails the
    /// post-write verification: the file stays written (the filesystem
    /// is never rolled back) but the note is not indexed.
    pub fn create_note(&self, vault: &mut Vault) -> (r: Result<(), StoreError>)
        requires
            old(vault).wf(),
        ensures
            final(vault).wf(),
            final(vault).files() == old(vault).files().insert(
                file_name_text(self.content@),
                normalize_text(self.content@),
            ),
            final(vault).spec_name() == old(vault).spec_name(),
            final(vault).spec_path() == old(vault).spec_path(),
            normalize_text(self.content@).len() > 0 ==> r is Ok && final(vault).index_docs()
                == old(vault).index_docs().insert(
                file_name_text(self.content@),
                normalize_text(self.content@),
            ),
            normalize_text(self.content@).len() == 0 ==> r == Err::<(), StoreError>(
                StoreError::WriteVerification,
            ) && final(vault).index_docs() == old(vault).index_docs(),
            (old(vault).consistent() && normalize_text(self.content@).len() > 0)
                ==> final(vault).consistent(),
    {
        let _display_title = self.display_title();
        let file_name = Self::generate_file_name(self.content.as_str());
        let clean_content = normalize_whitespace(self.content.as_str());
        let empty_after_write = clean_content.as_str().is_empty();
        vault.write_file(file_name.as_str(), clean_content);
        if empty_after_write {
            return Err(StoreError::WriteVerification);
        }
        let r = vault.index_note(file_name.as_str(), self.content.as_str());
        proof {
            if old(vault).consistent() {
                assert(final(vault).files().dom() =~= final(vault).index_docs().dom());
            }
        }
        r
    }

    /// Reads a note's raw stored content by file name; the name is
    /// sanitized first. Fails with `NotFound` when no such file exists.
    pub fn read_note(vault: &Vault, file_name: &str) -> (r: Result<String, StoreError>)
        requires
            vault.wf(),
        ensures
            vault.files().contains_key(sanitize_text(file_name@)) ==> (r matches Ok(c) && c@
                == vault.files()[sanitize_text(file_name@)]),
            !vault.files().contains_key(sanitize_text(file_name@)) ==> r == Err::<
                String,
                StoreError,
            >(StoreError::NotFound),
    {
        let safe_file_name = sanitize_filename(file_name);
        match vault.read_file(safe_file_name.as_str()) {
            Some(content) => Ok(content.clone()),
            None => Err(StoreError::NotFound),
        }
    }

    /// Deletes the note's file (absence at the filesystem step is not
    /// itself an error) and then its index document, in that order.
    /// Afterwards neither the file nor the index document exists; the
    /// filesystem deletion is irreversible.
    pub fn delete_note(&self, vault: &mut Vault) -> (r: Result<(), StoreError>)
        requires
            old(vault).wf(),
        ensures
            r is Ok,
            final(vault).wf(),
            final(vault).files() == old(vault).files().remove(file_name_text(self.content@)),
            final(vault).index_docs() == old(vault).index_docs().remove(
                file_name_text(self.content@),
            ),
            !final(vault).files().contains_key(file_name_text(self.content@)),
            !final(vault).index_docs().contains_key(file_name_text(self.content@)),
            old(vault).consistent() ==> final(vault).consistent(),
            final(vault).spec_name() == old(vault).spec_name(),
            final(vault).spec_path() == old(vault).spec_path(),
    {
        let file_name = Self::generate_file_name(self.content.as_str());
        vault.delete_file(file_name.as_str());
        let r = vault.delete_note_index(file_name.as_str());
        proof {
            lemma_file_name_sanitized(self.content@);
            if old(vault).consistent() {
                assert(final(vault).files().dom() =~= final(vault).index_docs().dom());
            }
        }
        r
    }

    /// Renames the note. The canonical id derives from the content,
    /// which a rename does not touch, so the file keeps its name; the
    /// title is updated, and the index document is deleted and written
    /// afresh under the same id. Renaming a note that has no file fails
    /// with `NotFound` and changes nothing.
    pub fn rename_note(&mut self, vault: &mut Vault, new_title: &str) -> (r: Result<
        (),
        StoreError,
    >)
        requires
            old(vault).wf(),
        ensures
            final(vault).wf(),
            final(self).content == old(self).content,
            final(vault).files() == old(vault).files(),
            final(vault).spec_name() == old(vault).spec_name(),
            final(vault).spec_path() == old(vault).spec_path(),
            old(vault).files().contains_key(file_name_text(old(self).content@)) ==> r is Ok
                && final(self).title@ == new_title@ && final(vault).index_docs()
                == old(vault).index_docs().insert(
                file_name_text(old(self).content@),
                normalize_text(old(self).content@),
            ),
            !old(vault).files().contains_key(file_name_text(old(self).content@)) ==> r == Err::<
                (),
                StoreError,
            >(StoreError::NotFound) && *final(self) == *old(self) && *final(vault) == *old(vault),
            old(vault).consistent() ==> final(vault).consistent(),
    {
        let old_file_name = Self::generate_file_name(self.content.as_str());
        let exists = vault.read_file(old_file_name.as_str()).is_some();
        if !exists {
            return Err(StoreError::NotFound);
        }
        self.title = new_title.to_owned();
        let new_file_name = Self::generate_file_name(self.content.as_str());
        let r1 = vault.delete_note_index(old_file_name.as_str());
        let r2 = vault.index_note(new_file_name.as_str(), self.content.as_str());
        proof {
            lemma_file_name_sanitized(self.content@);
            let id = file_name_text(self.content@);
            assert(old(vault).index_docs().remove(id).insert(id, normalize_text(self.content@))
                =~= old(vault).index_docs().insert(id, normalize_text(self.content@)));
            if old(vault).consistent() {
                assert(final(vault).files().dom() =~= final(vault).index_docs().dom());
            }
        }
        r2
    }

    /// Every canonical id with a stored `.md` file, each exactly once,
    /// in storage order.
    pub fn list_notes(vault: &Vault) -> (r: Vec<String>)
        requires
            vault.wf(),
        ensures
            r.deep_view().no_duplicates(),
            forall|k: Seq<char>| vault.files().contains_key(k) <==> r.deep_view().contains(k),
            r.deep_view().len() == vault.files().dom().len(),
    {
        vault.list_files()
    }

    /// Reads the note's stored content and renders it to sanitized
    /// HTML. Fails, with the error rendered as text, when the note has
    /// no file.
    pub fn render_html(&self, vault: &Vault) -> (r: Result<String, String>)
        requires
            vault.wf(),
        ensures
            vault.files().contains_key(file_name_text(self.content@)) ==> (r matches Ok(h) && h@
                == clean_html_of(html_of(vault.files()[file_name_text(self.content@)]))),
            !vault.files().contains_key(file_name_text(self.content@)) ==> (r matches Err(m) && m@
                == store_error_text(StoreError::NotFound)),
    {
        let file_name = Self::generate_file_name(self.content.as_str());
        proof {
            lemma_file_name_sanitized(self.content@);
        }
        match Self::read_note(vault, file_name.as_str()) {
            Ok(content) => Ok(render_markdown(content.as_str())),
            Err(e) => Err(e.message().to_owned()),
        }
    }
}

/// Round trip: once a note is created, reading it back under its
/// canonical id yields exactly the normalized content that was written,
/// whatever the vault held before.
pub proof fn lemma_create_read_round_trip(files: Map<Seq<char>, Seq<char>>, content: Seq<char>)
    ensures
        ({
            let id = file_name_text(content);
            let written = files.insert(id, normalize_text(content));
            written.contains_key(sanitize_text(id)) && written[sanitize_text(id)]
                == normalize_text(content)
        }),
{
    lemma_file_name_sanitized(content);
}

/// Delete is irreversible and total: once the note's file and index
/// document are removed, the canonical id no longer resolves — a read
/// by that id misses the file, and a search for the id's exact title
/// term misses the index.
pub proof fn lemma_deleted_note_gone(
    files: Map<Seq<char>, Seq<char>>,
    docs: Map<Seq<char>, Seq<char>>,
    content: Seq<char>,
)
    ensures
        ({
            let id = file_name_text(content);
            !files.remove(id).contains_key(sanitize_text(id)) && !docs.remove(id).contains_key(
                sanitize_text(id),
            )
        }),
{
    lemma_file_name_sanitized(content);
}

} // verus!
