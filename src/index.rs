//! tantivy's full-text index, seen by the rest of the library as a multiset
//! of documents. A document is the list of its (field id, text) values in
//! the order they were added.
use vstd::prelude::*;
use vstd::multiset::Multiset;
use tantivy::schema::Value;

verus! {

#[verifier::external_type_specification]
#[verifier::external_body]
pub struct ExIndex(tantivy::Index);


#[verifier::external_type_specification]
#[verifier::external_body]
pub struct ExTantivyDocument(tantivy::TantivyDocument);

#[verifier::external_type_specification]
#[verifier::external_body]
pub struct ExSearcher(tantivy::Searcher);

/// An open index writer.
#[verifier::external_body]
pub struct Writer {
    inner: tantivy::IndexWriter<tantivy::TantivyDocument>,
}

/// The index that a handle refers to; handles of one index share it.
pub uninterp spec fn index_ident(i: tantivy::Index) -> int;

/// The commit that a handle of the index shows.
pub uninterp spec fn index_gen(i: tantivy::Index) -> int;

/// The documents of the commit the handle shows.
pub uninterp spec fn index_docs(i: tantivy::Index) -> Multiset<Seq<(u32, Seq<char>)>>;

/// Those documents at their addresses (segment, doc id) in that commit.
pub uninterp spec fn index_layout(i: tantivy::Index) -> Map<(u32, u32), Seq<(u32, Seq<char>)>>;

/// The addresses of the best documents for a query over some fields, best
/// first, at most `limit` of them; `None` when the query does not parse.
pub uninterp spec fn ranked_hits(
    i: tantivy::Index,
    fields: Seq<u32>,
    query: Seq<char>,
    limit: nat,
) -> Option<Seq<(u32, u32)>>;

/// Whether the schema of the index with this identity has field `f`.
pub uninterp spec fn field_exists(ident: int, f: u32) -> bool;

/// The tokenizer of field `f` when it is an indexed text field.
pub uninterp spec fn field_tokenizer(ident: int, f: u32) -> Option<Seq<char>>;

/// Whether the values of field `f` are stored.
pub uninterp spec fn field_stored(ident: int, f: u32) -> bool;

/// The id of the field with this name.
pub uninterp spec fn field_named(ident: int, name: Seq<char>) -> Option<u32>;

/// The index a writer was opened on.
pub uninterp spec fn writer_ident(w: Writer) -> int;

/// The documents that the index will hold once the writer commits.
pub uninterp spec fn writer_docs(w: Writer) -> Multiset<Seq<(u32, Seq<char>)>>;

/// Whether nothing was added to or deleted through the writer since it was
/// opened.
pub uninterp spec fn writer_fresh(w: Writer) -> bool;

/// The values of a document under construction.
pub uninterp spec fn doc_values(d: tantivy::TantivyDocument) -> Seq<(u32, Seq<char>)>;

/// The index a searcher reads.
pub uninterp spec fn searcher_ident(s: tantivy::Searcher) -> int;

/// The commit a searcher reads.
pub uninterp spec fn searcher_gen(s: tantivy::Searcher) -> int;

/// The documents a searcher sees, each at its address.
pub uninterp spec fn searcher_docs(s: tantivy::Searcher) -> Map<(u32, u32), Seq<(u32, Seq<char>)>>;

/// The longest term tantivy indexes, in bytes.
pub open spec fn max_term_bytes() -> nat {
    65530
}

/// Whether document `d` has the value `t` in field `f`.
pub open spec fn has_value(d: Seq<(u32, Seq<char>)>, f: u32, t: Seq<char>) -> bool {
    exists|i: int| 0 <= i < d.len() && d[i] == (f, t)
}

/// The first value of field `f` in document `d`.
pub open spec fn first_text(d: Seq<(u32, Seq<char>)>, f: u32) -> Option<Seq<char>>
    decreases d.len(),
{
    if d.len() == 0 {
        None
    } else if d[0].0 == f {
        Some(d[0].1)
    } else {
        first_text(d.drop_first(), f)
    }
}

/// A searcher over `m`: each address holds a document of `m`, and two
/// addresses hold equal documents only where `m` holds that document twice.
pub open spec fn searcher_over(
    sd: Map<(u32, u32), Seq<(u32, Seq<char>)>>,
    m: Multiset<Seq<(u32, Seq<char>)>>,
) -> bool {
    &&& forall|a: (u32, u32)| #[trigger] sd.contains_key(a) ==> m.count(sd[a]) > 0
    &&& forall|a: (u32, u32), b: (u32, u32)|
        #[trigger] sd.contains_key(a) && #[trigger] sd.contains_key(b) && a != b && sd[a] == sd[b]
            ==> m.count(sd[a]) >= 2
}

/// Relies on tantivy's `Schema::get_field` and `Schema::get_field_entry`:
/// the id of the field of that name, its tokenizer when it is an indexed
/// text field, and whether it is stored. A missing name is an error.
#[verifier::external_body]
pub(crate) fn field_info(index: &tantivy::Index, name: &str) -> (r: Result<
    (u32, Option<String>, bool),
    tantivy::TantivyError,
>)
    ensures
        r matches Ok((f, tok, stored)) ==> field_named(index_ident(*index), name@) == Some(f)
            && field_exists(index_ident(*index), f) && field_stored(index_ident(*index), f)
            == stored && field_tokenizer(index_ident(*index), f) == match tok {
            Some(t) => Some(t@),
            None => None::<Seq<char>>,
        },
        r is Err ==> field_named(index_ident(*index), name@) is None,
{
    let schema = index.schema();
    let field = schema.get_field(name)?;
    let entry = schema.get_field_entry(field);
    let tokenizer = match entry.field_type() {
        tantivy::schema::FieldType::Str(o) => o.get_indexing_options().map(|i| i.tokenizer().to_string()),
        _ => None,
    };
    Ok((field.field_id(), tokenizer, entry.is_stored()))
}

/// Relies on tantivy's `Index::writer`: a new writer starts from the
/// documents of the last commit.
#[verifier::external_body]
pub(crate) fn open_writer(index: &tantivy::Index) -> (r: Result<Writer, tantivy::TantivyError>)
    ensures
        r matches Ok(w) ==> writer_docs(w) == index_docs(*index) && writer_fresh(w)
            && writer_ident(w) == index_ident(*index),
{
    index.writer(50_000_000).map(|inner| Writer { inner })
}

/// Relies on tantivy's `TantivyDocument::default`: a document without values.
#[verifier::external_body]
pub(crate) fn new_document() -> (r: tantivy::TantivyDocument)
    ensures
        doc_values(r) == Seq::<(u32, Seq<char>)>::empty(),
{
    tantivy::TantivyDocument::default()
}

/// Relies on tantivy's `TantivyDocument::add_text`: appends a text value.
#[verifier::external_body]
pub(crate) fn add_text(d: &mut tantivy::TantivyDocument, field: u32, text: &str)
    ensures
        doc_values(*final(d)) == doc_values(*old(d)).push((field, text@)),
{
    d.add_text(tantivy::schema::Field::from_field_id(field), text)
}

/// Relies on tantivy's `IndexWriter::add_document`: the document joins those
/// of the next commit.
#[verifier::external_body]
pub(crate) fn add_document(w: &mut Writer, d: tantivy::TantivyDocument) -> (r: Result<(), tantivy::TantivyError>)
    ensures
        writer_ident(*final(w)) == writer_ident(*old(w)),
        r is Ok ==> writer_docs(*final(w)) == writer_docs(*old(w)).insert(doc_values(d)),
{
    w.inner.add_document(d).map(|_| ())
}

/// Relies on tantivy's `IndexWriter::delete_term`: every document added
/// before it whose indexed terms in `field` hold `text` leaves at the next
/// commit. On a field with the `raw` tokenizer a value is one term, so
/// these are the documents with the value `text` in that field; a term no
/// longer than the longest indexed term is never dropped from the index.
#[verifier::external_body]
pub(crate) fn delete_term(w: &mut Writer, field: u32, text: &str)
    requires
        field_tokenizer(writer_ident(*old(w)), field) == Some(seq!['r', 'a', 'w']),
        vstd::utf8::encode_utf8(text@).len() <= max_term_bytes(),
    ensures
        writer_ident(*final(w)) == writer_ident(*old(w)),
        forall|d: Seq<(u32, Seq<char>)>|
            #[trigger] writer_docs(*final(w)).count(d) == if has_value(d, field, text@) {
                0
            } else {
                writer_docs(*old(w)).count(d)
            },
{
    w.inner.delete_term(tantivy::Term::from_field_text(tantivy::schema::Field::from_field_id(field), text));
}

/// Relies on tantivy's `IndexWriter::delete_all_documents`: drops every
/// segment, so on a writer with nothing queued a commit right after leaves
/// the index empty.
#[verifier::external_body]
pub(crate) fn delete_all(w: &mut Writer) -> (r: Result<(), tantivy::TantivyError>)
    requires
        writer_fresh(*old(w)),
    ensures
        writer_ident(*final(w)) == writer_ident(*old(w)),
        r is Ok ==> writer_docs(*final(w)) == Multiset::<Seq<(u32, Seq<char>)>>::empty(),
{
    w.inner.delete_all_documents().map(|_| ())
}

/// Relies on tantivy's `IndexWriter::commit`: once it returns, the writer's
/// documents are the last commit of its index, which `index` refers to; a
/// failed commit leaves the last commit in place.
#[verifier::external_body]
pub(crate) fn commit(w: &mut Writer, index: &mut tantivy::Index) -> (r: Result<(), tantivy::TantivyError>)
    requires
        writer_ident(*old(w)) == index_ident(*old(index)),
    ensures
        index_ident(*final(index)) == index_ident(*old(index)),
        r is Ok ==> index_docs(*final(index)) == writer_docs(*old(w)),
        r is Err ==> *final(index) == *old(index),
{
    w.inner.commit().map(|_| ())
}

/// Relies on tantivy's `IndexReaderBuilder::try_into` and
/// `IndexReader::searcher`: a new reader loads the last commit, each of
/// whose documents sits at one address.
#[verifier::external_body]
pub(crate) fn open_searcher(index: &tantivy::Index) -> (r: Result<tantivy::Searcher, tantivy::TantivyError>)
    ensures
        r matches Ok(s) ==> searcher_docs(s) == index_layout(*index) && searcher_ident(s)
            == index_ident(*index) && searcher_gen(s) == index_gen(*index)
            && searcher_over(index_layout(*index), index_docs(*index)),
{
    let reader: tantivy::IndexReader = index
        .reader_builder()
        .reload_policy(tantivy::ReloadPolicy::OnCommitWithDelay)
        .try_into()?;
    Ok(reader.searcher())
}

/// Relies on tantivy's `QueryParser::parse_query` over the given fields and
/// `Searcher::search` with `TopDocs`: the ranked hits of the commit the
/// searcher reads; distinct addresses, best score first. A query that does
/// not parse is an error.
#[verifier::external_body]
pub(crate) fn top_hits(
    searcher: &tantivy::Searcher,
    index: &tantivy::Index,
    fields: &Vec<u32>,
    query: &str,
    limit: usize,
) -> (r: Result<Vec<(u32, u32)>, tantivy::TantivyError>)
    requires
        limit > 0,
        searcher_ident(*searcher) == index_ident(*index),
        searcher_gen(*searcher) == index_gen(*index),
        forall|i: int| 0 <= i < fields.len() ==> field_exists(index_ident(*index), #[trigger] fields@[i]),
    ensures
        r matches Ok(v) ==> ranked_hits(*index, fields@, query@, limit as nat) == Some(v@)
            && v.len() <= limit && v@.no_duplicates() && forall|i: int|
            0 <= i < v.len() ==> searcher_docs(*searcher).contains_key(#[trigger] v@[i]),
{
    let fields = fields.iter().map(|f| tantivy::schema::Field::from_field_id(*f)).collect();
    let query = tantivy::query::QueryParser::for_index(index, fields).parse_query(query)?;
    let hits = searcher.search(&query, &tantivy::collector::TopDocs::with_limit(limit))?;
    Ok(hits.into_iter().map(|(_, a)| (a.segment_ord, a.doc_id)).collect())
}

/// Relies on tantivy's `Searcher::doc` and `TantivyDocument::get_first`: the
/// first stored text of a stored field in the document at that address.
#[verifier::external_body]
pub(crate) fn stored_text(searcher: &tantivy::Searcher, addr: (u32, u32), field: u32) -> (r: Result<
    Option<String>,
    tantivy::TantivyError,
>)
    requires
        searcher_docs(*searcher).contains_key(addr),
        field_stored(searcher_ident(*searcher), field),
    ensures
        r matches Ok(o) ==> match o {
            Some(t) => first_text(searcher_docs(*searcher)[addr], field) == Some(t@),
            None => first_text(searcher_docs(*searcher)[addr], field) is None,
        },
{
    let d: tantivy::TantivyDocument = searcher.doc(tantivy::DocAddress::new(addr.0, addr.1))?;
    Ok(d.get_first(tantivy::schema::Field::from_field_id(field)).and_then(|v| v.as_str()).map(|s| s.to_string()))
}

} // verus!
