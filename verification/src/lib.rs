//! Core of a local, file-backed Markdown note vault.
//!
//! A vault keeps a set of Markdown notes together with a full-text search
//! index. Every note is named by a canonical identifier derived from its
//! content, and the same identifier keys the note's document in the index;
//! the central invariant is that the set of stored notes and the set of
//! indexed documents never diverge once an operation has completed.

pub mod errors;
pub mod markdown;
pub mod metadata;
pub mod note;
pub mod search;
pub mod string_utils;
pub mod table;
pub mod vault;
