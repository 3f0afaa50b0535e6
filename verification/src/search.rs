//! The search index engine's document store: one document per note,
//! keyed by the note's canonical identifier in its `title` field.

use vstd::prelude::*;
use crate::string_utils::normalize_text;
use crate::string_utils::normalize_whitespace;
use crate::string_utils::sanitize_filename;
use crate::string_utils::sanitize_text;
use crate::table::Table;

verus! {

/// The documents of one vault's search index. Every write commits at
/// once: a change is visible as soon as the call returns. The engine
/// never retries; retry policy belongs to the caller.
pub struct SearchIndex {
    docs: Table,
}

impl View for SearchIndex {
    type V = Map<Seq<char>, Seq<char>>;

    closed spec fn view(&self) -> Map<Seq<char>, Seq<char>> {
        self.docs@
    }
}

impl SearchIndex {
    /// The index's internal invariant.
    pub closed spec fn wf(&self) -> bool {
        self.docs.wf()
    }

    /// Creates a new, empty index.
    pub fn new() -> (r: SearchIndex)
        ensures
            r@ == Map::<Seq<char>, Seq<char>>::empty(),
            r.wf(),
    {
        SearchIndex { docs: Table::new() }
    }

    /// Writes one document with `title = id` and the whitespace-normalized
    /// content, then commits. This is an add: a document under the same
    /// title is replaced, never duplicated.
    pub fn upsert(&mut self, id: &str, content: &str)
        requires
            old(self).wf(),
        ensures
            final(self).wf(),
            final(self)@ == old(self)@.insert(id@, normalize_text(content@)),
    {
        let norm = normalize_whitespace(content);
        self.docs.insert(id.to_owned(), norm);
    }

    /// Deletes the document whose title equals the sanitized id exactly,
    /// then commits. Deleting an absent key is a no-op success.
    pub fn delete(&mut self, id: &str)
        requires
            old(self).wf(),
        ensures
            final(self).wf(),
            final(self)@ == old(self)@.remove(sanitize_text(id@)),
    {
        let key = sanitize_filename(id);
        self.docs.remove(key.as_str());
    }

    /// Whether the index holds a document with this exact title.
    pub fn contains(&self, id: &str) -> (r: bool)
        ensures
            r == self@.contains_key(id@),
    {
        self.docs.contains_key(id)
    }

    /// The titles matching the sanitized search term exactly: one match
    /// or none.
    pub fn search_title(&self, term: &str) -> (r: Vec<String>)
        requires
            self.wf(),
        ensures
            self@.contains_key(sanitize_text(term@)) ==> r.deep_view() == seq![
                sanitize_text(term@),
            ],
            !self@.contains_key(sanitize_text(term@)) ==> r.deep_view() == Seq::<
                Seq<char>,
            >::empty(),
    {
        let key = sanitize_filename(term);
        let mut r: Vec<String> = Vec::new();
        proof {
            assert(r.deep_view() =~= Seq::<Seq<char>>::empty());
        }
        if self.docs.contains_key(key.as_str()) {
            let ghost pre = r.deep_view();
            r.push(key);
            proof {
                assert(r.deep_view() =~= pre.push(r@[r@.len() - 1].deep_view()));
                assert(r.deep_view() =~= seq![sanitize_text(term@)]);
            }
        }
        r
    }

    /// The number of documents in the index.
    pub fn doc_count(&self) -> (r: usize)
        requires
            self.wf(),
        ensures
            r == self@.dom().len(),
    {
        self.docs.len()
    }
}

} // verus!
