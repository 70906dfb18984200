//! The primary store: sled's ordered key-value tree, seen by the rest of the
//! library as a map from byte strings to byte strings.
use vstd::prelude::*;

verus! {

#[verifier::external_type_specification]
#[verifier::external_body]
pub struct ExDb(sled::Db);

#[verifier::external_type_specification]
#[verifier::external_body]
pub struct ExBatch(sled::Batch);

/// What the store holds: each key with its value.
pub uninterp spec fn entries(db: sled::Db) -> Map<Seq<u8>, Seq<u8>>;

/// The keys that a batch built only by removals will remove.
pub uninterp spec fn batch_removals(b: sled::Batch) -> Set<Seq<u8>>;

/// Whether `p` is a prefix of `s`.
pub open spec fn has_prefix(s: Seq<u8>, p: Seq<u8>) -> bool {
    p.len() <= s.len() && s.subrange(0, p.len() as int) == p
}

/// Strict lexicographic order on byte strings, the order sled iterates in.
pub open spec fn lex_lt(a: Seq<u8>, b: Seq<u8>) -> bool {
    exists|i: int|
        0 <= i <= a.len() && i <= b.len() && a.subrange(0, i) == b.subrange(0, i) && (
        (i == a.len() && i < b.len()) || (i < a.len() && i < b.len() && a[i] < b[i]))
}

pub open spec fn pairs_view(v: Seq<(Vec<u8>, Vec<u8>)>) -> Seq<(Seq<u8>, Seq<u8>)> {
    v.map_values(|p: (Vec<u8>, Vec<u8>)| (p.0@, p.1@))
}

/// `s` lists, in ascending key order, exactly the entries of `m` whose key
/// starts with `prefix`.
pub open spec fn is_ordered_scan(
    s: Seq<(Seq<u8>, Seq<u8>)>,
    m: Map<Seq<u8>, Seq<u8>>,
    prefix: Seq<u8>,
) -> bool {
    &&& forall|i: int|
        0 <= i < s.len() ==> has_prefix(#[trigger] s[i].0, prefix) && m.contains_key(s[i].0)
            && m[s[i].0] == s[i].1
    &&& forall|k: Seq<u8>|
        #[trigger] m.contains_key(k) && has_prefix(k, prefix) ==> exists|i: int|
            0 <= i < s.len() && #[trigger] s[i].0 == k
    &&& forall|i: int, j: int| 0 <= i < j < s.len() ==> lex_lt(#[trigger] s[i].0, #[trigger] s[j].0)
}

/// Relies on sled's `Tree::contains_key`: whether the key holds a value.
#[verifier::external_body]
pub(crate) fn contains(db: &sled::Db, key: &[u8]) -> (r: Result<bool, sled::Error>)
    ensures
        r matches Ok(b) ==> b == entries(*db).contains_key(key@),
{
    db.contains_key(key)
}

/// Relies on sled's `Tree::get`: the value under the key, if any.
#[verifier::external_body]
pub(crate) fn fetch(db: &sled::Db, key: &[u8]) -> (r: Result<Option<Vec<u8>>, sled::Error>)
    ensures
        r matches Ok(o) ==> match o {
            Some(v) => entries(*db).contains_key(key@) && entries(*db)[key@] == v@,
            None => !entries(*db).contains_key(key@),
        },
{
    db.get(key).map(|o| o.map(|v| v.to_vec()))
}

/// Relies on sled's `Tree::insert`: the key holds the value afterwards, and
/// nothing else changes.
#[verifier::external_body]
pub(crate) fn put(db: &mut sled::Db, key: &[u8], value: &[u8]) -> (r: Result<(), sled::Error>)
    ensures
        r is Ok ==> entries(*final(db)) == entries(*old(db)).insert(key@, value@),
{
    db.insert(key, value).map(|_| ())
}

/// Relies on sled's `Tree::remove`: the key holds no value afterwards, and
/// nothing else changes.
#[verifier::external_body]
pub(crate) fn remove(db: &mut sled::Db, key: &[u8]) -> (r: Result<(), sled::Error>)
    ensures
        r is Ok ==> entries(*final(db)) == entries(*old(db)).remove(key@),
{
    db.remove(key).map(|_| ())
}

/// Relies on sled's `Tree::flush`: writes what is buffered to disk; the
/// entries stay as they are.
#[verifier::external_body]
pub(crate) fn flush(db: &sled::Db) -> (r: Result<(), sled::Error>) {
    db.flush().map(|_| ())
}

/// Relies on sled's `Tree::scan_prefix`: every entry whose key starts with
/// the prefix, in ascending key order.
#[verifier::external_body]
pub(crate) fn scan(db: &sled::Db, prefix: &[u8]) -> (r: Result<Vec<(Vec<u8>, Vec<u8>)>, sled::Error>)
    ensures
        r matches Ok(v) ==> is_ordered_scan(pairs_view(v@), entries(*db), prefix@),
{
    db.scan_prefix(prefix).map(|e| e.map(|(k, v)| (k.to_vec(), v.to_vec()))).collect()
}

/// Relies on sled's `Batch::default`: a batch with nothing in it.
#[verifier::external_body]
pub(crate) fn new_batch() -> (r: sled::Batch)
    ensures
        batch_removals(r) == Set::<Seq<u8>>::empty(),
{
    sled::Batch::default()
}

/// Relies on sled's `Batch::remove`: the batch will also remove this key.
#[verifier::external_body]
pub(crate) fn batch_remove(b: &mut sled::Batch, key: &[u8])
    ensures
        batch_removals(*final(b)) == batch_removals(*old(b)).insert(key@),
{
    b.remove(key)
}

/// Relies on sled's `Tree::apply_batch`: all of the batch's removals take
/// effect at once, and nothing else changes.
#[verifier::external_body]
pub(crate) fn apply_batch(db: &mut sled::Db, b: sled::Batch) -> (r: Result<(), sled::Error>)
    ensures
        r is Ok ==> entries(*final(db)) == entries(*old(db)).remove_keys(batch_removals(b)),
{
    db.apply_batch(b)
}

} // verus!
