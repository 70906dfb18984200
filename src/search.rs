//! The search index of notes: one document per note, with its key (an
//! exact-match field), title, content and tags.
use vstd::prelude::*;
use vstd::multiset::Multiset;
use crate::error::AppError;
use crate::index::{
    add_document, add_text, delete_term, field_exists, field_info, field_named, field_stored,
    field_tokenizer, first_text, has_value, index_docs, index_ident, index_layout, max_term_bytes,
    new_document, open_searcher, ranked_hits, searcher_docs, searcher_over, stored_text, top_hits,
    writer_docs, writer_ident, Writer,
};
use crate::note::Note;

verus! {

/// The most keys a search returns.
pub const SEARCH_LIMIT: usize = 10;

/// An open index together with the ids of the four fields notes use.
pub struct SearchIndex {
    pub index: tantivy::Index,
    pub key_field: u32,
    pub title_field: u32,
    pub content_field: u32,
    pub tags_field: u32,
}

/// Every document of `m` with key `k` (a value `k` in field `kf`) is gone;
/// the others are kept.
pub open spec fn without_key(
    old_docs: Multiset<Seq<(u32, Seq<char>)>>,
    new_docs: Multiset<Seq<(u32, Seq<char>)>>,
    kf: u32,
    k: Seq<char>,
) -> bool {
    forall|x: Seq<(u32, Seq<char>)>|
        #[trigger] new_docs.count(x) == if has_value(x, kf, k) {
            0
        } else {
            old_docs.count(x)
        }
}

/// The documents with key `k` are replaced by the one document `d`.
pub open spec fn replaced(
    old_docs: Multiset<Seq<(u32, Seq<char>)>>,
    new_docs: Multiset<Seq<(u32, Seq<char>)>>,
    kf: u32,
    k: Seq<char>,
    d: Seq<(u32, Seq<char>)>,
) -> bool {
    forall|x: Seq<(u32, Seq<char>)>|
        #[trigger] new_docs.count(x) == (if has_value(x, kf, k) {
            0
        } else {
            old_docs.count(x)
        }) + (if x == d {
            1nat
        } else {
            0nat
        })
}

/// At most one document of `m` has key `k`, and it is held once.
pub open spec fn key_once(m: Multiset<Seq<(u32, Seq<char>)>>, kf: u32, k: Seq<char>) -> bool {
    forall|x: Seq<(u32, Seq<char>)>, y: Seq<(u32, Seq<char>)>|
        #[trigger] m.count(x) > 0 && #[trigger] m.count(y) > 0 && first_text(x, kf) == Some(k)
            && first_text(y, kf) == Some(k) ==> x == y && m.count(x) == 1
}

/// The keys of the hits' documents, in hit order; a hit whose document has
/// no key is skipped.
pub open spec fn hit_keys(
    layout: Map<(u32, u32), Seq<(u32, Seq<char>)>>,
    hits: Seq<(u32, u32)>,
    kf: u32,
) -> Seq<Seq<char>>
    decreases hits.len(),
{
    if hits.len() == 0 {
        Seq::empty()
    } else {
        let rest = hit_keys(layout, hits.drop_last(), kf);
        match first_text(layout[hits.last()], kf) {
            Some(k) => rest.push(k),
            None => rest,
        }
    }
}

/// The schema fields `k`, `t`, `c`, `g` are distinct and stored, and `k` is
/// indexed whole, with the `raw` tokenizer.
pub open spec fn fields_fit(ident: int, k: u32, t: u32, c: u32, g: u32) -> bool {
    &&& k != t && k != c && k != g && t != c && t != g && c != g
    &&& field_exists(ident, k) && field_exists(ident, t) && field_exists(ident, c)
        && field_exists(ident, g)
    &&& field_stored(ident, k) && field_stored(ident, t) && field_stored(ident, c)
        && field_stored(ident, g)
    &&& field_tokenizer(ident, k) == Some(seq!['r', 'a', 'w'])
}

/// No two documents of `m` share a key, and none is held twice.
pub open spec fn keys_unique(m: Multiset<Seq<(u32, Seq<char>)>>, kf: u32) -> bool {
    forall|x: Seq<(u32, Seq<char>)>, y: Seq<(u32, Seq<char>)>|
        #[trigger] m.count(x) > 0 && #[trigger] m.count(y) > 0 && first_text(x, kf) is Some
            && first_text(x, kf) == first_text(y, kf) ==> x == y && m.count(x) == 1
}

/// Some document of `m` has key `k`.
pub open spec fn key_held(m: Multiset<Seq<(u32, Seq<char>)>>, kf: u32, k: Seq<char>) -> bool {
    exists|x: Seq<(u32, Seq<char>)>| m.count(x) > 0 && #[trigger] first_text(x, kf) == Some(k)
}

/// Each key of `keys` is the key of a document of `m`.
pub open spec fn hits_in(m: Multiset<Seq<(u32, Seq<char>)>>, kf: u32, keys: Seq<Seq<char>>) -> bool {
    forall|i: int| 0 <= i < keys.len() ==> key_held(m, kf, #[trigger] keys[i])
}

pub open spec fn strings_view(v: Seq<String>) -> Seq<Seq<char>> {
    v.map_values(|s: String| s@)
}

pub open spec fn tag_values(tags: Seq<String>, f: u32) -> Seq<(u32, Seq<char>)> {
    tags.map_values(|t: String| (f, t@))
}

impl SearchIndex {
    /// The four fields are distinct and stored, and the key is indexed whole.
    pub open spec fn wf(&self) -> bool {
        fields_fit(index_ident(self.index), self.key_field, self.title_field, self.content_field, self.tags_field)
    }

    /// The documents a search sees.
    pub open spec fn docs(&self) -> Multiset<Seq<(u32, Seq<char>)>> {
        index_docs(self.index)
    }

    pub open spec fn same_fields(&self, other: &SearchIndex) -> bool {
        &&& self.key_field == other.key_field
        &&& self.title_field == other.title_field
        &&& self.content_field == other.content_field
        &&& self.tags_field == other.tags_field
    }

    /// The document of a note: key, title, content, then each tag.
    pub open spec fn doc_of(&self, note: Note) -> Seq<(u32, Seq<char>)> {
        seq![
            (self.key_field, note.key@),
            (self.title_field, note.title@),
            (self.content_field, note.content@),
        ] + tag_values(note.tags@, self.tags_field)
    }

    /// Looks up the fields `key`, `title`, `content` and `tags` of the index's
    /// schema. A missing name is a `Tantivy` error; fields that do not fit
    /// (repeated, not stored, or a key that is not indexed whole) are a
    /// `Search` error.
    pub fn new(index: tantivy::Index) -> (r: Result<SearchIndex, AppError>)
        ensures
            r matches Ok(si) ==> si.index == index && si.wf() && field_named(
                index_ident(index),
                "key"@,
            ) == Some(si.key_field) && field_named(index_ident(index), "title"@) == Some(
                si.title_field,
            ) && field_named(index_ident(index), "content"@) == Some(si.content_field)
                && field_named(index_ident(index), "tags"@) == Some(si.tags_field),
            r matches Err(AppError::Tantivy(_)) ==> field_named(index_ident(index), "key"@) is None
                || field_named(index_ident(index), "title"@) is None || field_named(
                index_ident(index),
                "content"@,
            ) is None || field_named(index_ident(index), "tags"@) is None,
            r matches Err(AppError::Search(_)) ==> field_named(index_ident(index), "key"@) is Some
                && field_named(index_ident(index), "title"@) is Some && field_named(
                index_ident(index),
                "content"@,
            ) is Some && field_named(index_ident(index), "tags"@) is Some && !fields_fit(
                index_ident(index),
                field_named(index_ident(index), "key"@).unwrap(),
                field_named(index_ident(index), "title"@).unwrap(),
                field_named(index_ident(index), "content"@).unwrap(),
                field_named(index_ident(index), "tags"@).unwrap(),
            ),
            r matches Err(e) ==> e is Tantivy || e is Search,
    {
        let (key_field, key_tok, key_st) = match field_info(&index, "key") {
            Ok(f) => f,
            Err(e) => return Err(AppError::Tantivy(e)),
        };
        let (title_field, _, title_st) = match field_info(&index, "title") {
            Ok(f) => f,
            Err(e) => return Err(AppError::Tantivy(e)),
        };
        let (content_field, _, content_st) = match field_info(&index, "content") {
            Ok(f) => f,
            Err(e) => return Err(AppError::Tantivy(e)),
        };
        let (tags_field, _, tags_st) = match field_info(&index, "tags") {
            Ok(f) => f,
            Err(e) => return Err(AppError::Tantivy(e)),
        };
        let raw = String::from_str("raw");
        proof {
            reveal_strlit("raw");
            assert(raw@ =~= seq!['r', 'a', 'w']);
        }
        let ghost tok_view = if key_tok is Some {
            Some(key_tok->Some_0@)
        } else {
            None::<Seq<char>>
        };
        let key_raw = match &key_tok {
            Some(t) => *t == raw,
            None => false,
        };
        assert(key_raw == (tok_view == Some(seq!['r', 'a', 'w'])));
        let distinct = key_field != title_field && key_field != content_field && key_field
            != tags_field && title_field != content_field && title_field != tags_field
            && content_field != tags_field;
        if !distinct || !key_raw || !key_st || !title_st || !content_st || !tags_st {
            return Err(AppError::Search("the index schema does not fit notes".to_string()));
        }
        Ok(SearchIndex { index, key_field, title_field, content_field, tags_field })
    }
}

/// The key of a note's document is the note's key, and it has no other key.
pub proof fn lemma_doc_key(si: &SearchIndex, note: Note, k: Seq<char>)
    requires
        si.wf(),
    ensures
        first_text(si.doc_of(note), si.key_field) == Some(note.key@),
        has_value(si.doc_of(note), si.key_field, note.key@),
        has_value(si.doc_of(note), si.key_field, k) ==> k == note.key@,
{
    let d = si.doc_of(note);
    assert(d[0] == (si.key_field, note.key@));
    if has_value(d, si.key_field, k) {
        let i = choose|i: int| 0 <= i < d.len() && d[i] == (si.key_field, k);
        if i >= 3 {
            assert(d[i] == tag_values(note.tags@, si.tags_field)[i - 3]);
        }
    }
}

proof fn lemma_first_text_has_value(d: Seq<(u32, Seq<char>)>, f: u32)
    requires
        first_text(d, f) is Some,
    ensures
        has_value(d, f, first_text(d, f).unwrap()),
    decreases d.len(),
{
    if d[0].0 != f {
        lemma_first_text_has_value(d.drop_first(), f);
        let i = choose|i: int| 0 <= i < d.drop_first().len() && d.drop_first()[i] == (f, first_text(d, f).unwrap());
        assert(d[i + 1] == d.drop_first()[i]);
    }
}

/// Builds the document of a note.
pub fn note_document(si: &SearchIndex, note: &Note) -> (r: tantivy::TantivyDocument)
    ensures
        crate::index::doc_values(r) == si.doc_of(*note),
{
    let mut d = new_document();
    add_text(&mut d, si.key_field, note.key.as_str());
    add_text(&mut d, si.title_field, note.title.as_str());
    add_text(&mut d, si.content_field, note.content.as_str());
    let ghost head = crate::index::doc_values(d);
    let mut i: usize = 0;
    while i < note.tags.len()
        invariant
            i <= note.tags.len(),
            head == seq![
                (si.key_field, note.key@),
                (si.title_field, note.title@),
                (si.content_field, note.content@),
            ],
            crate::index::doc_values(d) == head + tag_values(note.tags@.subrange(0, i as int), si.tags_field),
        decreases note.tags.len() - i,
    {
        add_text(&mut d, si.tags_field, note.tags[i].as_str());
        assert(tag_values(note.tags@.subrange(0, i + 1), si.tags_field) =~= tag_values(
            note.tags@.subrange(0, i as int),
            si.tags_field,
        ).push((si.tags_field, note.tags@[i as int]@)));
        i = i + 1;
    }
    assert(note.tags@.subrange(0, note.tags.len() as int) =~= note.tags@);
    d
}

/// Appends the note's document to the writer; an earlier document with the
/// same key is not looked for.
pub fn add_note_to_index(si: &SearchIndex, note: &Note, w: &mut Writer) -> (r: Result<(), AppError>)
    ensures
        writer_ident(*final(w)) == writer_ident(*old(w)),
        r is Ok ==> writer_docs(*final(w)) == writer_docs(*old(w)).insert(si.doc_of(*note)),
        r matches Err(e) ==> e is Tantivy,
{
    let d = note_document(si, note);
    match add_document(w, d) {
        Ok(()) => Ok(()),
        Err(e) => Err(AppError::Tantivy(e)),
    }
}

/// Marks every document with this key for removal at the next commit.
pub fn delete_note_from_index(si: &SearchIndex, key: &str, w: &mut Writer)
    requires
        si.wf(),
        writer_ident(*old(w)) == index_ident(si.index),
        vstd::utf8::encode_utf8(key@).len() <= max_term_bytes(),
    ensures
        writer_ident(*final(w)) == writer_ident(*old(w)),
        without_key(writer_docs(*old(w)), writer_docs(*final(w)), si.key_field, key@),
{
    delete_term(w, si.key_field, key);
}

/// The fields a query is parsed against: title, content and tags.
pub open spec fn query_fields(si: &SearchIndex) -> Seq<u32> {
    seq![si.title_field, si.content_field, si.tags_field]
}

/// The keys of the notes that best match `query` over title, content and
/// tags, most relevant first, at most `SEARCH_LIMIT` of them: the key of
/// each of the index's ranked hits, in order.
pub fn search_notes(si: &SearchIndex, query: &str) -> (r: Result<Vec<String>, AppError>)
    requires
        si.wf(),
    ensures
        r matches Ok(keys) ==> ranked_hits(
            si.index,
            query_fields(si),
            query@,
            SEARCH_LIMIT as nat,
        ) matches Some(h) && strings_view(keys@) == hit_keys(
            index_layout(si.index),
            h,
            si.key_field,
        ),
        r matches Ok(keys) ==> keys.len() <= SEARCH_LIMIT && hits_in(
            si.docs(),
            si.key_field,
            strings_view(keys@),
        ),
        r matches Ok(keys) ==> forall|i: int, j: int|
            0 <= i < j < keys.len() && #[trigger] keys@[i]@ == #[trigger] keys@[j]@ ==> !key_once(
                si.docs(),
                si.key_field,
                keys@[i]@,
            ),
        r matches Err(e) ==> e is Tantivy,
{
    let searcher = match open_searcher(&si.index) {
        Ok(s) => s,
        Err(e) => return Err(AppError::Tantivy(e)),
    };
    let fields: Vec<u32> = vec![si.title_field, si.content_field, si.tags_field];
    assert(fields@ == query_fields(si));
    let hits = match top_hits(&searcher, &si.index, &fields, query, SEARCH_LIMIT) {
        Ok(h) => h,
        Err(e) => return Err(AppError::Tantivy(e)),
    };
    let ghost m = si.docs();
    let ghost sd = searcher_docs(searcher);
    let ghost kf = si.key_field;
    let mut keys: Vec<String> = Vec::new();
    let ghost mut used: Seq<int> = Seq::empty();
    let mut i: usize = 0;
    while i < hits.len()
        invariant
            i <= hits.len(),
            hits.len() <= SEARCH_LIMIT,
            hits@.no_duplicates(),
            forall|j: int| 0 <= j < hits.len() ==> sd.contains_key(#[trigger] hits@[j]),
            searcher_over(sd, m),
            sd == searcher_docs(searcher),
            sd == index_layout(si.index),
            field_stored(crate::index::searcher_ident(searcher), kf),
            kf == si.key_field,
            m == si.docs(),
            strings_view(keys@) == hit_keys(sd, hits@.subrange(0, i as int), kf),
            used.len() == keys.len(),
            keys.len() <= i,
            forall|j: int| 0 <= j < used.len() ==> 0 <= #[trigger] used[j] < i,
            forall|j: int, l: int| 0 <= j < l < used.len() ==> #[trigger] used[j] < #[trigger] used[l],
            forall|j: int|
                0 <= j < used.len() ==> first_text(sd[hits@[#[trigger] used[j]]], kf) == Some(
                    keys@[j]@,
                ),
        decreases hits.len() - i,
    {
        let found = match stored_text(&searcher, hits[i], si.key_field) {
            Ok(o) => o,
            Err(e) => return Err(AppError::Tantivy(e)),
        };
        let ghost before = keys@;
        proof {
            assert(hits@.subrange(0, i + 1).drop_last() =~= hits@.subrange(0, i as int));
            assert(hits@.subrange(0, i + 1).last() == hits@[i as int]);
        }
        match found {
            Some(k) => {
                keys.push(k);
                proof {
                    used = used.push(i as int);
                    assert(strings_view(keys@) =~= strings_view(before).push(keys@[keys.len() - 1]@));
                }
            },
            None => {},
        }
        i = i + 1;
    }
    proof {
        assert(hits@.subrange(0, hits.len() as int) =~= hits@);
        let kv = strings_view(keys@);
        assert forall|j: int| 0 <= j < kv.len() implies key_held(m, kf, #[trigger] kv[j]) by {
            let x = sd[hits@[used[j]]];
            assert(sd.contains_key(hits@[used[j]]));
            assert(first_text(x, kf) == Some(kv[j]));
        }
        assert forall|a: int, b: int|
            0 <= a < b < keys.len() && #[trigger] keys@[a]@ == #[trigger] keys@[b]@ implies !key_once(
                m,
                kf,
                keys@[a]@,
            ) by {
            let ha = hits@[used[a]];
            let hb = hits@[used[b]];
            assert(used[a] < used[b]);
            assert(ha != hb);
            assert(sd.contains_key(ha) && sd.contains_key(hb));
            if key_once(m, kf, keys@[a]@) {
                assert(first_text(sd[ha], kf) == Some(keys@[a]@));
                assert(first_text(sd[hb], kf) == Some(keys@[a]@));
                assert(m.count(sd[ha]) > 0 && m.count(sd[hb]) > 0);
                assert(sd[ha] == sd[hb]);
                assert(m.count(sd[ha]) >= 2);
            }
        }
    }
    Ok(keys)
}

/// A search finds only keys that some document holds: once no document
/// has key `k`, no search returns it.
pub proof fn lemma_absent_key_not_found(
    m: Multiset<Seq<(u32, Seq<char>)>>,
    kf: u32,
    k: Seq<char>,
    keys: Seq<Seq<char>>,
)
    requires
        hits_in(m, kf, keys),
        forall|x: Seq<(u32, Seq<char>)>| has_value(x, kf, k) ==> #[trigger] m.count(x) == 0,
    ensures
        !keys.contains(k),
{
    if keys.contains(k) {
        let i = choose|i: int| 0 <= i < keys.len() && keys[i] == k;
        assert(key_held(m, kf, keys[i]));
        let x = choose|x: Seq<(u32, Seq<char>)>| m.count(x) > 0 && #[trigger] first_text(x, kf) == Some(keys[i]);
        lemma_first_text_has_value(x, kf);
    }
}

/// After the documents of key `k` are replaced by a single document with
/// that key, exactly that document has key `k`; so saving a key any number
/// of times never lets a search return it twice.
pub proof fn lemma_replace_leaves_key_once(
    old_docs: Multiset<Seq<(u32, Seq<char>)>>,
    new_docs: Multiset<Seq<(u32, Seq<char>)>>,
    kf: u32,
    k: Seq<char>,
    d: Seq<(u32, Seq<char>)>,
)
    requires
        replaced(old_docs, new_docs, kf, k, d),
        first_text(d, kf) == Some(k),
    ensures
        key_once(new_docs, kf, k),
        new_docs.count(d) == 1,
{
    lemma_first_text_has_value(d, kf);
    assert forall|x: Seq<(u32, Seq<char>)>, y: Seq<(u32, Seq<char>)>|
        #[trigger] new_docs.count(x) > 0 && #[trigger] new_docs.count(y) > 0 && first_text(x, kf)
            == Some(k) && first_text(y, kf) == Some(k) implies x == y && new_docs.count(x) == 1 by {
        lemma_first_text_has_value(x, kf);
        lemma_first_text_has_value(y, kf);
    }
}

/// Replacing the documents of one key by a single document with that key
/// keeps keys unique, so saving a key any number of times never lets a
/// search return it twice.
pub proof fn lemma_replace_keeps_keys_unique(
    old_docs: Multiset<Seq<(u32, Seq<char>)>>,
    new_docs: Multiset<Seq<(u32, Seq<char>)>>,
    kf: u32,
    k: Seq<char>,
    d: Seq<(u32, Seq<char>)>,
)
    requires
        keys_unique(old_docs, kf),
        replaced(old_docs, new_docs, kf, k, d),
        first_text(d, kf) == Some(k),
    ensures
        keys_unique(new_docs, kf),
{
    lemma_first_text_has_value(d, kf);
    assert forall|x: Seq<(u32, Seq<char>)>, y: Seq<(u32, Seq<char>)>|
        #[trigger] new_docs.count(x) > 0 && #[trigger] new_docs.count(y) > 0 && first_text(x, kf) is Some
            && first_text(x, kf) == first_text(y, kf) implies x == y && new_docs.count(x) == 1 by {
        lemma_first_text_has_value(x, kf);
        lemma_first_text_has_value(y, kf);
        if first_text(x, kf) == Some(k) {
            assert(has_value(x, kf, k));
            assert(has_value(y, kf, k));
        } else {
            if x == d || y == d {
                assert(false);
            }
            if has_value(x, kf, k) {
                assert(new_docs.count(x) == 0);
            }
            if has_value(y, kf, k) {
                assert(new_docs.count(y) == 0);
            }
            assert(old_docs.count(x) > 0 && old_docs.count(y) > 0);
        }
    }
}

} // verus!
