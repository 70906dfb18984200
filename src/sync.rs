//! Keeping the store and the search index in step. The store is written
//! first and is the source of truth; the index follows it inside a single
//! writer commit, and `reindex_all` rebuilds it from the notes alone.
use vstd::prelude::*;
use vstd::multiset::Multiset;
use crate::db::{delete_note, note_store_key, save_note, valid_note_key};
use crate::error::AppError;
use crate::index::{commit, delete_all, index_ident, open_writer, writer_docs, writer_ident};
use crate::note::Note;
use crate::index::first_text;
use crate::search::{
    add_note_to_index, delete_note_from_index, key_once, keys_unique, lemma_doc_key,
    lemma_replace_keeps_keys_unique, lemma_replace_leaves_key_once, replaced, without_key,
    SearchIndex,
};
use crate::store::entries;

verus! {

/// The document of each note, in order.
pub open spec fn docs_seq(si: &SearchIndex, notes: Seq<Note>) -> Seq<Seq<(u32, Seq<char>)>> {
    Seq::new(notes.len(), |i: int| si.doc_of(notes[i]))
}

/// The documents of a list of notes.
pub open spec fn notes_docs(si: &SearchIndex, notes: Seq<Note>) -> Multiset<Seq<(u32, Seq<char>)>> {
    docs_seq(si, notes).to_multiset()
}

/// Saves the note's record in the store, then replaces the note's document
/// in the index within one commit. A key that cannot name a note is
/// refused before anything is written. When the store fails the index is
/// not touched; when the index fails the store keeps the new record and the
/// index keeps its last commit, stale until `reindex_all`.
pub fn save_note_with_index(
    db: &mut sled::Db,
    note: &Note,
    record: &Vec<u8>,
    si: &mut SearchIndex,
) -> (r: Result<(), AppError>)
    requires
        old(si).wf(),
    ensures
        final(si).wf(),
        final(si).same_fields(old(si)),
        r is Ok ==> valid_note_key(note.key@) && entries(*final(db)) == entries(*old(db)).insert(
            note_store_key(note.key@),
            record@,
        ) && replaced(
            old(si).docs(),
            final(si).docs(),
            old(si).key_field,
            note.key@,
            old(si).doc_of(*note),
        ) && key_once(final(si).docs(), old(si).key_field, note.key@) && (keys_unique(
            old(si).docs(),
            old(si).key_field,
        ) ==> keys_unique(final(si).docs(), old(si).key_field)),
        r matches Err(e) ==> *final(si) == *old(si) && (e is Sled || (e is InvalidKey
            && !valid_note_key(note.key@) && entries(*final(db)) == entries(*old(db))) || (
        e is Tantivy && entries(*final(db)) == entries(*old(db)).insert(
            note_store_key(note.key@),
            record@,
        ))),
        !valid_note_key(note.key@) ==> r is Err,
{
    match save_note(db, note, record) {
        Ok(()) => {},
        Err(e) => return Err(e),
    }
    let mut w = match open_writer(&si.index) {
        Ok(w) => w,
        Err(e) => return Err(AppError::Tantivy(e)),
    };
    let ghost w0 = writer_docs(w);
    delete_note_from_index(si, note.key.as_str(), &mut w);
    let ghost w1 = writer_docs(w);
    match add_note_to_index(si, note, &mut w) {
        Ok(()) => {},
        Err(e) => return Err(e),
    }
    let ghost w2 = writer_docs(w);
    match commit(&mut w, &mut si.index) {
        Ok(()) => {},
        Err(e) => return Err(AppError::Tantivy(e)),
    }
    proof {
        let d = si.doc_of(*note);
        assert forall|x: Seq<(u32, Seq<char>)>| #[trigger] w2.count(x) == w1.count(x) + (if x == d {
            1nat
        } else {
            0nat
        }) by {}
        lemma_doc_key(si, *note, note.key@);
        lemma_replace_leaves_key_once(w0, w2, si.key_field, note.key@, d);
        if keys_unique(w0, si.key_field) {
            lemma_replace_keeps_keys_unique(w0, w2, si.key_field, note.key@, d);
        }
    }
    Ok(())
}

/// Removes the note from the store, then its documents from the index
/// within one commit. A key the store does not hold is reported as
/// `KeyNotFound`, a key that cannot name a note as `InvalidKey`; then
/// neither the store nor the index is touched. When the index fails the
/// store removal stands and the index keeps its last commit.
pub fn delete_note_with_index(db: &mut sled::Db, key: &str, si: &mut SearchIndex) -> (r: Result<(), AppError>)
    requires
        old(si).wf(),
    ensures
        final(si).wf(),
        final(si).same_fields(old(si)),
        r is Ok ==> valid_note_key(key@) && entries(*old(db)).contains_key(note_store_key(key@))
            && entries(*final(db)) == entries(*old(db)).remove(note_store_key(key@)) && without_key(
            old(si).docs(),
            final(si).docs(),
            old(si).key_field,
            key@,
        ),
        r matches Err(e) ==> *final(si) == *old(si) && (e is Sled || (((e matches AppError::KeyNotFound(
            k,
        ) && k@ == key@ && !entries(*old(db)).contains_key(note_store_key(key@))) || (
        e matches AppError::InvalidKey(k) && k@ == key@ && !valid_note_key(key@))) && entries(
            *final(db),
        ) == entries(*old(db))) || (e is Tantivy && valid_note_key(key@) && entries(
            *old(db),
        ).contains_key(note_store_key(key@)) && entries(*final(db)) == entries(*old(db)).remove(
            note_store_key(key@),
        ))),
        !entries(*old(db)).contains_key(note_store_key(key@)) || !valid_note_key(key@) ==> r is Err,
{
    match delete_note(db, key) {
        Ok(()) => {},
        Err(e) => return Err(e),
    }
    let mut w = match open_writer(&si.index) {
        Ok(w) => w,
        Err(e) => return Err(AppError::Tantivy(e)),
    };
    delete_note_from_index(si, key, &mut w);
    match commit(&mut w, &mut si.index) {
        Ok(()) => Ok(()),
        Err(e) => Err(AppError::Tantivy(e)),
    }
}

/// Rebuilds the index from `notes`, the notes of the store: one writer
/// drops every document, adds one per note, and commits once.
pub fn reindex_all(si: &mut SearchIndex, notes: &Vec<Note>) -> (r: Result<(), AppError>)
    requires
        old(si).wf(),
    ensures
        final(si).wf(),
        final(si).same_fields(old(si)),
        r is Ok ==> final(si).docs() == notes_docs(old(si), notes@),
        r matches Err(e) ==> e is Tantivy && *final(si) == *old(si),
{
    broadcast use vstd::seq_lib::group_to_multiset_ensures;

    let mut w = match open_writer(&si.index) {
        Ok(w) => w,
        Err(e) => return Err(AppError::Tantivy(e)),
    };
    match delete_all(&mut w) {
        Ok(()) => {},
        Err(e) => return Err(AppError::Tantivy(e)),
    }
    assert(docs_seq(si, notes@.subrange(0, 0)) =~= Seq::<Seq<(u32, Seq<char>)>>::empty());
    let mut i: usize = 0;
    while i < notes.len()
        invariant
            i <= notes.len(),
            si.wf(),
            si == old(si),
            writer_ident(w) == index_ident(si.index),
            writer_docs(w) == notes_docs(si, notes@.subrange(0, i as int)),
        decreases notes.len() - i,
    {
        match add_note_to_index(si, &notes[i], &mut w) {
            Ok(()) => {},
            Err(e) => return Err(e),
        }
        proof {
            let prev = docs_seq(si, notes@.subrange(0, i as int));
            assert(docs_seq(si, notes@.subrange(0, i + 1)) =~= prev.push(si.doc_of(notes@[i as int])));
            vstd::seq_lib::to_multiset_build(prev, si.doc_of(notes@[i as int]));
        }
        i = i + 1;
    }
    assert(notes@.subrange(0, notes.len() as int) =~= notes@);
    match commit(&mut w, &mut si.index) {
        Ok(()) => Ok(()),
        Err(e) => Err(AppError::Tantivy(e)),
    }
}

/// After a save, the index holds exactly one document with the note's key,
/// the note's own; after a delete, none.
pub proof fn lemma_index_mirrors_store(
    si: &SearchIndex,
    note: Note,
    before: Multiset<Seq<(u32, Seq<char>)>>,
    saved: Multiset<Seq<(u32, Seq<char>)>>,
    deleted: Multiset<Seq<(u32, Seq<char>)>>,
)
    requires
        si.wf(),
        replaced(before, saved, si.key_field, note.key@, si.doc_of(note)),
        without_key(saved, deleted, si.key_field, note.key@),
    ensures
        saved.count(si.doc_of(note)) == 1,
        forall|x: Seq<(u32, Seq<char>)>|
            #[trigger] saved.count(x) > 0 && crate::index::has_value(x, si.key_field, note.key@)
                ==> x == si.doc_of(note),
        forall|x: Seq<(u32, Seq<char>)>|
            crate::index::has_value(x, si.key_field, note.key@) ==> #[trigger] deleted.count(x) == 0,
{
    lemma_doc_key(si, note, note.key@);
}

/// Two rebuilds from the same notes leave the index with the same
/// documents.
pub proof fn lemma_reindex_idempotent(
    si: &SearchIndex,
    notes: Seq<Note>,
    first: Multiset<Seq<(u32, Seq<char>)>>,
    second: Multiset<Seq<(u32, Seq<char>)>>,
)
    requires
        first == notes_docs(si, notes),
        second == notes_docs(si, notes),
    ensures
        first == second,
{
}

/// No two of the notes share a key.
pub open spec fn distinct_keys(notes: Seq<Note>) -> bool {
    forall|i: int, j: int|
        0 <= i < notes.len() && 0 <= j < notes.len() && i != j ==> #[trigger] notes[i].key@
            != #[trigger] notes[j].key@
}

/// A rebuild from notes with distinct keys leaves one document per key,
/// the state from which saves keep keys unique.
pub proof fn lemma_reindex_keys_unique(si: &SearchIndex, notes: Seq<Note>)
    requires
        si.wf(),
        distinct_keys(notes),
    ensures
        keys_unique(notes_docs(si, notes), si.key_field),
{
    broadcast use vstd::seq_lib::group_to_multiset_ensures;

    let ds = docs_seq(si, notes);
    let kf = si.key_field;
    assert forall|i: int| 0 <= i < ds.len() implies first_text(#[trigger] ds[i], kf) == Some(notes[i].key@) by {
        lemma_doc_key(si, notes[i], notes[i].key@);
    }
    assert(ds.no_duplicates()) by {
        assert forall|i: int, j: int| 0 <= i < ds.len() && 0 <= j < ds.len() && i != j implies ds[i] != ds[j] by {
            assert(first_text(ds[i], kf) == Some(notes[i].key@));
            assert(first_text(ds[j], kf) == Some(notes[j].key@));
        }
    }
    ds.lemma_multiset_has_no_duplicates();
    let m = ds.to_multiset();
    assert forall|x: Seq<(u32, Seq<char>)>, y: Seq<(u32, Seq<char>)>|
        #[trigger] m.count(x) > 0 && #[trigger] m.count(y) > 0 && first_text(x, kf) is Some
            && first_text(x, kf) == first_text(y, kf) implies x == y && m.count(x) == 1 by {
        assert(ds.contains(x));
        assert(ds.contains(y));
        let i = choose|i: int| 0 <= i < ds.len() && ds[i] == x;
        let j = choose|j: int| 0 <= j < ds.len() && ds[j] == y;
        assert(first_text(ds[i], kf) == Some(notes[i].key@));
        assert(first_text(ds[j], kf) == Some(notes[j].key@));
        assert(m.contains(x));
    }
}

} // verus!
