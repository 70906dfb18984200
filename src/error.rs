use vstd::prelude::*;

verus! {

#[verifier::external_type_specification]
#[verifier::external_body]
pub struct ExSledError(sled::Error);

#[verifier::external_type_specification]
#[verifier::external_body]
pub struct ExTantivyError(tantivy::TantivyError);

#[verifier::external_type_specification]
#[verifier::external_body]
pub struct ExRegexError(regex::Error);

/// Every failure the library reports.
#[derive(Debug)]
pub enum AppError {
    /// No note is stored under this key.
    KeyNotFound(String),
    /// A note is already stored under this key.
    KeyExists(String),
    /// The key cannot name a note: it lies in the task or counter namespace,
    /// or is too long to be indexed whole.
    InvalidKey(String),
    /// No task carries this id.
    TaskNotFound(u64),
    /// The store holds something the library cannot read (a damaged counter).
    Database(String),
    /// The key-value store failed.
    Sled(sled::Error),
    /// The search index failed, or a query could not be parsed.
    Tantivy(tantivy::TantivyError),
    /// The search index does not have the fields notes are indexed under.
    Search(String),
    /// A link pattern could not be compiled.
    Regexp(regex::Error),
}

} // verus!
