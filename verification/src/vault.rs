//! Vaults: a named root holding a set of notes and its own search
//! index. The vault owns the index for its whole lifetime; deleting the
//! vault deletes the index with it.

use vstd::prelude::*;
use vstd::string::StringExecFns;
use crate::errors::StoreError;
use crate::errors::VaultError;
use crate::search::SearchIndex;
use crate::string_utils::normalize_text;
use crate::string_utils::sanitize_filename;
use crate::string_utils::sanitize_text;
use crate::table::Table;

verus! {

/// A vault: a sanitized name, the root path the notes live under, the
/// stored notes themselves, and the vault's search index.
pub struct Vault {
    pub name: String,
    pub path: String,
    notes: Table,
    index: SearchIndex,
}

impl Vault {
    /// The vault's name, as a sequence of characters.
    pub closed spec fn spec_name(&self) -> Seq<char> {
        self.name@
    }

    /// The vault's root path, as a sequence of characters.
    pub closed spec fn spec_path(&self) -> Seq<char> {
        self.path@
    }

    /// The stored notes: canonical id to normalized content, one entry
    /// per `.md` file under the vault root.
    pub closed spec fn files(&self) -> Map<Seq<char>, Seq<char>> {
        self.notes@
    }

    /// The documents of the vault's search index, keyed by canonical id.
    pub closed spec fn index_docs(&self) -> Map<Seq<char>, Seq<char>> {
        self.index@
    }

    /// The vault's internal invariant.
    pub closed spec fn wf(&self) -> bool {
        self.notes.wf() && self.index.wf()
    }

    /// The central consistency invariant: a note file exists exactly
    /// when the index holds a document under the same canonical id.
    pub open spec fn consistent(&self) -> bool {
        self.files().dom() == self.index_docs().dom()
    }

    /// Creates a vault: sanitizes the name, roots the vault at
    /// `base_path/<name>`, and gives it a fresh, empty index.
    pub fn create_vault(name: &str, base_path: &str) -> (r: Result<Vault, VaultError>)
        ensures
            r is Ok,
            r matches Ok(v) ==> v.spec_name() == sanitize_text(name@),
            r matches Ok(v) ==> v.spec_path() == base_path@ + seq!['/'] + sanitize_text(name@),
            r matches Ok(v) ==> v.files() == Map::<Seq<char>, Seq<char>>::empty(),
            r matches Ok(v) ==> v.index_docs() == Map::<Seq<char>, Seq<char>>::empty(),
            r matches Ok(v) ==> v.wf() && v.consistent(),
    {
        let sanitized_name = sanitize_filename(name);
        let mut vault_path = base_path.to_owned();
        vault_path.push('/');
        vault_path.append(sanitized_name.as_str());
        proof {
            assert(vault_path@ =~= base_path@ + seq!['/'] + sanitize_text(name@));
            assert(Map::<Seq<char>, Seq<char>>::empty().dom() =~= Map::<
                Seq<char>,
                Seq<char>,
            >::empty().dom());
        }
        Ok(
            Vault {
                name: sanitized_name,
                path: vault_path,
                notes: Table::new(),
                index: SearchIndex::new(),
            },
        )
    }

    /// Deletes the vault's contents: every note and, with them, every
    /// document of its index. Deleting an already-empty vault succeeds.
    pub fn delete_vault(&mut self) -> (r: Result<(), VaultError>)
        ensures
            r is Ok,
            final(self).files() == Map::<Seq<char>, Seq<char>>::empty(),
            final(self).index_docs() == Map::<Seq<char>, Seq<char>>::empty(),
            final(self).spec_name() == old(self).spec_name(),
            final(self).spec_path() == old(self).spec_path(),
            final(self).wf() && final(self).consistent(),
    {
        self.notes.clear();
        let mut fresh = SearchIndex::new();
        core::mem::swap(&mut self.index, &mut fresh);
        Ok(())
    }

    /// Stores a note file: `content` becomes the file named by `id`.
    pub fn write_file(&mut self, id: &str, content: String)
        requires
            old(self).wf(),
        ensures
            final(self).wf(),
            final(self).files() == old(self).files().insert(id@, content@),
            final(self).index_docs() == old(self).index_docs(),
            final(self).spec_name() == old(self).spec_name(),
            final(self).spec_path() == old(self).spec_path(),
    {
        self.notes.insert(id.to_owned(), content);
    }

    /// Reads the note file named by `id`, if it exists.
    pub fn read_file(&self, id: &str) -> (r: Option<&String>)
        requires
            self.wf(),
        ensures
            match r {
                Some(c) => self.files().contains_key(id@) && c@ == self.files()[id@],
                None => !self.files().contains_key(id@),
            },
    {
        self.notes.get(id)
    }

    /// Removes the note file named by `id`; absence is a no-op.
    pub fn delete_file(&mut self, id: &str)
        requires
            old(self).wf(),
        ensures
            final(self).wf(),
            final(self).files() == old(self).files().remove(id@),
            final(self).index_docs() == old(self).index_docs(),
            final(self).spec_name() == old(self).spec_name(),
            final(self).spec_path() == old(self).spec_path(),
    {
        self.notes.remove(id);
    }

    /// Every stored canonical id, each exactly once, in storage order.
    pub fn list_files(&self) -> (r: Vec<String>)
        requires
            self.wf(),
        ensures
            r.deep_view().no_duplicates(),
            forall|k: Seq<char>| self.files().contains_key(k) <==> r.deep_view().contains(k),
            r.deep_view().len() == self.files().dom().len(),
    {
        self.notes.keys()
    }

    /// Indexes one note: writes a document with `title` as its key and
    /// the whitespace-normalized content, replacing any document under
    /// the same key, and commits.
    pub fn index_note(&mut self, title: &str, content: &str) -> (r: Result<(), StoreError>)
        requires
            old(self).wf(),
        ensures
            r is Ok,
            final(self).wf(),
            final(self).index_docs() == old(self).index_docs().insert(
                title@,
                normalize_text(content@),
            ),
            final(self).files() == old(self).files(),
            final(self).spec_name() == old(self).spec_name(),
            final(self).spec_path() == old(self).spec_path(),
    {
        self.index.upsert(title, content);
        Ok(())
    }

    /// Deletes the index document whose key is the sanitized title, and
    /// commits; a missing document is a no-op success.
    pub fn delete_note_index(&mut self, title: &str) -> (r: Result<(), StoreError>)
        requires
            old(self).wf(),
        ensures
            r is Ok,
            final(self).wf(),
            final(self).index_docs() == old(self).index_docs().remove(sanitize_text(title@)),
            final(self).files() == old(self).files(),
            final(self).spec_name() == old(self).spec_name(),
            final(self).spec_path() == old(self).spec_path(),
    {
        self.index.delete(title);
        Ok(())
    }

    /// Searches the index for the exact sanitized term in the title
    /// field: one match or none.
    pub fn search_note(&self, term: &str) -> (r: Vec<String>)
        requires
            self.wf(),
        ensures
            self.index_docs().contains_key(sanitize_text(term@)) ==> r.deep_view() == seq![
                sanitize_text(term@),
            ],
            !self.index_docs().contains_key(sanitize_text(term@)) ==> r.deep_view() == Seq::<
                Seq<char>,
            >::empty(),
    {
        self.index.search_title(term)
    }

    /// The full path of the note file named by `id`:
    /// `<vault path>/<id>.md`.
    pub fn note_path(&self, id: &str) -> (r: String)
        ensures
            r@ == self.spec_path() + "/"@ + id@ + ".md"@,
    {
        let mut p = self.path.clone();
        p.push('/');
        p.append(id);
        p.append(".md");
        proof {
            reveal_strlit("/");
            assert(p@ =~= self.spec_path() + "/"@ + id@ + ".md"@);
        }
        p
    }

    /// The number of documents the vault's index holds.
    pub fn indexed_count(&self) -> (r: usize)
        requires
            self.wf(),
        ensures
            r == self.index_docs().dom().len(),
    {
        self.index.doc_count()
    }
}

} // verus!
