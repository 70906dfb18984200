//! Notes and tasks as records of the primary store. Notes sit under their
//! own key; tasks under `tasks/<id>`; the counter under `__counter__/tasks`.
//! A record is the serialized note or task, which the caller produces and
//! reads back.
use vstd::prelude::*;
use vstd::utf8::encode_utf8;
use crate::error::AppError;
use crate::note::{Note, Task};
use crate::store::{
    apply_batch, batch_remove, batch_removals, contains, entries, fetch, flush, has_prefix,
    is_ordered_scan, lex_lt, new_batch, pairs_view, put, remove, scan,
};

verus! {

/// `tasks/`
pub open spec fn tasks_prefix() -> Seq<u8> {
    seq![116u8, 97, 115, 107, 115, 47]
}

/// `__counter__/`
pub open spec fn counters_prefix() -> Seq<u8> {
    seq![95u8, 95, 99, 111, 117, 110, 116, 101, 114, 95, 95, 47]
}

/// Keys outside the task and counter namespaces hold notes.
pub open spec fn is_note_key(k: Seq<u8>) -> bool {
    !has_prefix(k, tasks_prefix()) && !has_prefix(k, counters_prefix())
}

/// A key that can name a note: outside the reserved namespaces and short
/// enough to be indexed as one term.
pub open spec fn valid_note_key(key: Seq<char>) -> bool {
    is_note_key(note_store_key(key)) && note_store_key(key).len() <= crate::index::max_term_bytes()
}

/// The store key of a note key: its UTF-8 bytes.
pub open spec fn note_store_key(key: Seq<char>) -> Seq<u8> {
    encode_utf8(key)
}

/// The decimal digits of `n`, in ASCII.
pub open spec fn decimal(n: nat) -> Seq<u8>
    decreases n,
{
    if n < 10 {
        seq![(48 + n) as u8]
    } else {
        decimal(n / 10).push((48 + n % 10) as u8)
    }
}

/// The store key of the task with id `id`.
pub open spec fn task_store_key(id: u64) -> Seq<u8> {
    tasks_prefix() + decimal(id as nat)
}

/// `s` lists, in ascending key order, exactly the note entries of `m`.
pub open spec fn is_note_listing(s: Seq<(Seq<u8>, Seq<u8>)>, m: Map<Seq<u8>, Seq<u8>>) -> bool {
    &&& forall|i: int|
        0 <= i < s.len() ==> is_note_key(#[trigger] s[i].0) && m.contains_key(s[i].0) && m[s[i].0]
            == s[i].1
    &&& forall|k: Seq<u8>|
        #[trigger] m.contains_key(k) && is_note_key(k) ==> exists|i: int|
            0 <= i < s.len() && #[trigger] s[i].0 == k
    &&& forall|i: int, j: int| 0 <= i < j < s.len() ==> lex_lt(#[trigger] s[i].0, #[trigger] s[j].0)
}

/// The task keys that `m` holds.
pub open spec fn task_keys(m: Map<Seq<u8>, Seq<u8>>) -> Set<Seq<u8>> {
    m.dom().filter(|k: Seq<u8>| has_prefix(k, tasks_prefix()))
}

fn tasks_prefix_bytes() -> (r: Vec<u8>)
    ensures
        r@ == tasks_prefix(),
{
    vec![116u8, 97, 115, 107, 115, 47]
}

fn starts_with(s: &Vec<u8>, p: &Vec<u8>) -> (r: bool)
    ensures
        r == has_prefix(s@, p@),
{
    if p.len() > s.len() {
        return false;
    }
    let mut i: usize = 0;
    while i < p.len()
        invariant
            p.len() <= s.len(),
            i <= p.len(),
            forall|j: int| 0 <= j < i ==> s@[j] == p@[j],
        decreases p.len() - i,
    {
        if s[i] != p[i] {
            assert(s@.subrange(0, p@.len() as int)[i as int] != p@[i as int]);
            return false;
        }
        i = i + 1;
    }
    assert(s@.subrange(0, p@.len() as int) =~= p@);
    true
}

fn decimal_bytes(n: u64) -> (r: Vec<u8>)
    ensures
        r@ == decimal(n as nat),
    decreases n,
{
    if n < 10 {
        vec![(48 + n) as u8]
    } else {
        let mut v = decimal_bytes(n / 10);
        v.push((48 + n % 10) as u8);
        v
    }
}

fn counters_prefix_bytes() -> (r: Vec<u8>)
    ensures
        r@ == counters_prefix(),
{
    vec![95u8, 95, 99, 111, 117, 110, 116, 101, 114, 95, 95, 47]
}

/// Whether `key` can name a note.
pub fn note_key_ok(key: &str) -> (r: bool)
    ensures
        r == valid_note_key(key@),
{
    let b = key.as_bytes_vec();
    if b.len() > 65530 {
        return false;
    }
    !starts_with(&b, &tasks_prefix_bytes()) && !starts_with(&b, &counters_prefix_bytes())
}

/// The store key of the task with id `id`: `tasks/` and the id in decimal.
pub fn task_key(id: u64) -> (r: Vec<u8>)
    ensures
        r@ == task_store_key(id),
{
    let mut k = tasks_prefix_bytes();
    let mut d = decimal_bytes(id);
    k.append(&mut d);
    k
}

/// Whether a note is stored under `key`.
pub fn key_exists(db: &sled::Db, key: &str) -> (r: Result<bool, AppError>)
    ensures
        r matches Ok(b) ==> b == entries(*db).contains_key(note_store_key(key@)),
        r matches Err(e) ==> e is Sled,
{
    match contains(db, key.as_bytes()) {
        Ok(b) => Ok(b),
        Err(e) => Err(AppError::Sled(e)),
    }
}

/// Stores `record`, the serialized note, under the note's key and flushes
/// it to disk. A key that cannot name a note is refused.
pub fn save_note(db: &mut sled::Db, note: &Note, record: &Vec<u8>) -> (r: Result<(), AppError>)
    ensures
        r is Ok ==> valid_note_key(note.key@) && entries(*final(db)) == entries(*old(db)).insert(
            note_store_key(note.key@),
            record@,
        ),
        r matches Err(e) ==> e is Sled || (e matches AppError::InvalidKey(k) && k@ == note.key@
            && !valid_note_key(note.key@) && entries(*final(db)) == entries(*old(db))),
        !valid_note_key(note.key@) ==> r is Err,
{
    if !note_key_ok(note.key.as_str()) {
        return Err(AppError::InvalidKey(note.key.clone()));
    }
    match put(db, note.key.as_str().as_bytes(), record.as_slice()) {
        Ok(()) => {},
        Err(e) => return Err(AppError::Sled(e)),
    }
    match flush(db) {
        Ok(()) => Ok(()),
        Err(e) => Err(AppError::Sled(e)),
    }
}

/// The record stored under `key`. A key that cannot name a note is refused.
pub fn get_note(db: &sled::Db, key: &str) -> (r: Result<Vec<u8>, AppError>)
    ensures
        r matches Ok(v) ==> valid_note_key(key@) && entries(*db).contains_key(note_store_key(key@))
            && v@ == entries(*db)[note_store_key(key@)],
        r matches Err(e) ==> e is Sled || (e matches AppError::KeyNotFound(k) && k@ == key@
            && !entries(*db).contains_key(note_store_key(key@))) || (e matches AppError::InvalidKey(
            k,
        ) && k@ == key@ && !valid_note_key(key@)),
        !entries(*db).contains_key(note_store_key(key@)) || !valid_note_key(key@) ==> r is Err,
{
    if !note_key_ok(key) {
        return Err(AppError::InvalidKey(key.to_string()));
    }
    match fetch(db, key.as_bytes()) {
        Ok(Some(v)) => Ok(v),
        Ok(None) => Err(AppError::KeyNotFound(key.to_string())),
        Err(e) => Err(AppError::Sled(e)),
    }
}

/// Removes the note stored under `key` and flushes. A key that holds
/// nothing, or cannot name a note, is an error, and the store is left as
/// it was.
pub fn delete_note(db: &mut sled::Db, key: &str) -> (r: Result<(), AppError>)
    ensures
        r is Ok ==> valid_note_key(key@) && entries(*old(db)).contains_key(note_store_key(key@))
            && entries(*final(db)) == entries(*old(db)).remove(note_store_key(key@)),
        r matches Err(e) ==> e is Sled || ((e matches AppError::KeyNotFound(k) && k@ == key@
            && !entries(*old(db)).contains_key(note_store_key(key@))) || (e matches AppError::InvalidKey(
            k,
        ) && k@ == key@ && !valid_note_key(key@))) && entries(*final(db)) == entries(*old(db)),
        !entries(*old(db)).contains_key(note_store_key(key@)) || !valid_note_key(key@) ==> r is Err,
{
    if !note_key_ok(key) {
        return Err(AppError::InvalidKey(key.to_string()));
    }
    match contains(db, key.as_bytes()) {
        Ok(true) => {},
        Ok(false) => return Err(AppError::KeyNotFound(key.to_string())),
        Err(e) => return Err(AppError::Sled(e)),
    }
    match remove(db, key.as_bytes()) {
        Ok(()) => {},
        Err(e) => return Err(AppError::Sled(e)),
    }
    match flush(db) {
        Ok(()) => Ok(()),
        Err(e) => Err(AppError::Sled(e)),
    }
}

/// Every note record with its key, in ascending key order. Tasks and the
/// counter are left out.
pub fn get_all_notes(db: &sled::Db) -> (r: Result<Vec<(Vec<u8>, Vec<u8>)>, AppError>)
    ensures
        r matches Ok(v) ==> is_note_listing(pairs_view(v@), entries(*db)),
        r matches Err(e) ==> e is Sled,
{
    let everything: Vec<u8> = Vec::new();
    let all = match scan(db, everything.as_slice()) {
        Ok(v) => v,
        Err(e) => return Err(AppError::Sled(e)),
    };
    let tasks = tasks_prefix_bytes();
    let counters: Vec<u8> = vec![95u8, 95, 99, 111, 117, 110, 116, 101, 114, 95, 95, 47];
    let ghost m = entries(*db);
    let ghost s = pairs_view(all@);
    assert(forall|k: Seq<u8>| has_prefix(k, Seq::<u8>::empty())) by {
        assert forall|k: Seq<u8>| has_prefix(k, Seq::<u8>::empty()) by {
            assert(k.subrange(0, 0) =~= Seq::<u8>::empty());
        }
    }
    let mut out: Vec<(Vec<u8>, Vec<u8>)> = Vec::new();
    let ghost mut idx: Seq<int> = Seq::empty();
    let mut i: usize = 0;
    while i < all.len()
        invariant
            i <= all.len(),
            s == pairs_view(all@),
            is_ordered_scan(s, m, Seq::<u8>::empty()),
            tasks@ == tasks_prefix(),
            counters@ == counters_prefix(),
            idx.len() == out.len(),
            forall|j: int| 0 <= j < idx.len() ==> 0 <= #[trigger] idx[j] < i,
            forall|j: int, l: int| 0 <= j < l < idx.len() ==> #[trigger] idx[j] < #[trigger] idx[l],
            forall|j: int|
                0 <= j < idx.len() ==> #[trigger] pairs_view(out@)[j] == s[idx[j]] && is_note_key(
                    s[idx[j]].0,
                ),
            forall|l: int|
                0 <= l < i && is_note_key(#[trigger] s[l].0) ==> exists|j: int|
                    0 <= j < idx.len() && idx[j] == l,
        decreases all.len() - i,
    {
        let keep = !starts_with(&all[i].0, &tasks) && !starts_with(&all[i].0, &counters);
        assert(s[i as int] == (all@[i as int].0@, all@[i as int].1@));
        let ghost idx_before = idx;
        if keep {
            let k = vstd::slice::slice_to_vec(all[i].0.as_slice());
            let v = vstd::slice::slice_to_vec(all[i].1.as_slice());
            let ghost before = out@;
            out.push((k, v));
            proof {
                idx = idx.push(i as int);
                assert(pairs_view(out@)[idx.len() - 1] == s[i as int]);
                assert forall|j: int| 0 <= j < idx.len() - 1 implies #[trigger] pairs_view(out@)[j]
                    == pairs_view(before)[j] by {}
            }
        }
        proof {
            assert forall|l: int| 0 <= l < i + 1 && is_note_key(#[trigger] s[l].0) implies exists|j: int|
                0 <= j < idx.len() && idx[j] == l by {
                if l < i {
                    let j = choose|j: int| 0 <= j < idx_before.len() && idx_before[j] == l;
                    assert(idx[j] == l);
                } else {
                    assert(idx[idx.len() - 1] == l);
                }
            }
        }
        i = i + 1;
    }
    proof {
        let t = pairs_view(out@);
        assert forall|k: Seq<u8>| #[trigger] m.contains_key(k) && is_note_key(k) implies exists|j: int|
            0 <= j < t.len() && #[trigger] t[j].0 == k by {
            let l = choose|l: int| 0 <= l < s.len() && #[trigger] s[l].0 == k;
            let j = choose|j: int| 0 <= j < idx.len() && idx[j] == l;
            assert(t[j].0 == k);
        }
        assert forall|a: int, b: int| 0 <= a < b < t.len() implies lex_lt(
            #[trigger] t[a].0,
            #[trigger] t[b].0,
        ) by {
            assert(idx[a] < idx[b]);
        }
    }
    Ok(out)
}

/// Stores `record`, the serialized task, under the task's key and flushes.
pub fn save_task(db: &mut sled::Db, task: &Task, record: &Vec<u8>) -> (r: Result<(), AppError>)
    ensures
        r is Ok ==> entries(*final(db)) == entries(*old(db)).insert(
            task_store_key(task.id),
            record@,
        ),
        r matches Err(e) ==> e is Sled,
{
    let key = task_key(task.id);
    match put(db, key.as_slice(), record.as_slice()) {
        Ok(()) => {},
        Err(e) => return Err(AppError::Sled(e)),
    }
    match flush(db) {
        Ok(()) => Ok(()),
        Err(e) => Err(AppError::Sled(e)),
    }
}

/// Every task record with its key, in ascending key order.
pub fn get_all_tasks(db: &sled::Db) -> (r: Result<Vec<(Vec<u8>, Vec<u8>)>, AppError>)
    ensures
        r matches Ok(v) ==> is_ordered_scan(pairs_view(v@), entries(*db), tasks_prefix()),
        r matches Err(e) ==> e is Sled,
{
    let prefix = tasks_prefix_bytes();
    match scan(db, prefix.as_slice()) {
        Ok(v) => Ok(v),
        Err(e) => Err(AppError::Sled(e)),
    }
}

/// Removes every task in one batch and flushes; returns how many there were.
pub fn delete_all_tasks(db: &mut sled::Db) -> (r: Result<usize, AppError>)
    ensures
        r matches Ok(n) ==> entries(*final(db)) == entries(*old(db)).remove_keys(
            task_keys(entries(*old(db))),
        ) && n == task_keys(entries(*old(db))).len(),
        r matches Err(e) ==> e is Sled,
{
    let prefix = tasks_prefix_bytes();
    let found = match scan(db, prefix.as_slice()) {
        Ok(v) => v,
        Err(e) => return Err(AppError::Sled(e)),
    };
    let ghost m = entries(*db);
    let ghost s = pairs_view(found@);
    let mut batch = new_batch();
    let mut count: usize = 0;
    let mut i: usize = 0;
    while i < found.len()
        invariant
            i <= found.len(),
            count == i,
            s == pairs_view(found@),
            is_ordered_scan(s, m, tasks_prefix()),
            batch_removals(batch) == s.subrange(0, i as int).map_values(
                |p: (Seq<u8>, Seq<u8>)| p.0,
            ).to_set(),
        decreases found.len() - i,
    {
        batch_remove(&mut batch, found[i].0.as_slice());
        proof {
            let ks = s.subrange(0, i + 1).map_values(|p: (Seq<u8>, Seq<u8>)| p.0);
            let ko = s.subrange(0, i as int).map_values(|p: (Seq<u8>, Seq<u8>)| p.0);
            assert(ks =~= ko.push(s[i as int].0));
            assert(s[i as int].0 == found@[i as int].0@);
            assert(ks.to_set() =~= ko.to_set().insert(s[i as int].0)) by {
                assert forall|x: Seq<u8>| ks.to_set().contains(x) <==> ko.to_set().insert(
                    s[i as int].0,
                ).contains(x) by {
                    if ks.to_set().contains(x) {
                        let j = choose|j: int| 0 <= j < ks.len() && ks[j] == x;
                        if j < i {
                            assert(ko[j] == x);
                        }
                    }
                    if ko.to_set().contains(x) {
                        let j = choose|j: int| 0 <= j < ko.len() && ko[j] == x;
                        assert(ks[j] == x);
                    }
                    if x == s[i as int].0 {
                        assert(ks[i as int] == x);
                    }
                }
            }
        }
        count = count + 1;
        i = i + 1;
    }
    let ghost keys = s.map_values(|p: (Seq<u8>, Seq<u8>)| p.0);
    proof {
        assert(s.subrange(0, s.len() as int) =~= s);
        assert(keys.to_set() =~= task_keys(m)) by {
            assert forall|x: Seq<u8>| keys.to_set().contains(x) <==> task_keys(m).contains(x) by {
                if keys.to_set().contains(x) {
                    let j = choose|j: int| 0 <= j < keys.len() && keys[j] == x;
                    assert(s[j].0 == x);
                }
                if task_keys(m).contains(x) {
                    assert(m.contains_key(x) && has_prefix(x, tasks_prefix()));
                    let j = choose|j: int| 0 <= j < s.len() && #[trigger] s[j].0 == x;
                    assert(keys[j] == x);
                }
            }
        }
        assert(keys.no_duplicates()) by {
            assert forall|a: int, b: int| 0 <= a < keys.len() && 0 <= b < keys.len() && a != b
                implies keys[a] != keys[b] by {
                if a < b {
                    lemma_lex_lt_ne(s[a].0, s[b].0);
                } else {
                    lemma_lex_lt_ne(s[b].0, s[a].0);
                }
            }
        }
        keys.unique_seq_to_set();
    }
    match apply_batch(db, batch) {
        Ok(()) => {},
        Err(e) => return Err(AppError::Sled(e)),
    }
    match flush(db) {
        Ok(()) => Ok(count),
        Err(e) => Err(AppError::Sled(e)),
    }
}

proof fn lemma_lex_lt_ne(a: Seq<u8>, b: Seq<u8>)
    requires
        lex_lt(a, b),
    ensures
        a != b,
{
    let i = choose|i: int|
        0 <= i <= a.len() && i <= b.len() && a.subrange(0, i) == b.subrange(0, i) && (
        (i == a.len() && i < b.len()) || (i < a.len() && i < b.len() && a[i] < b[i]));
}


/// Issues the id of a new task for the note under `note_key`; a key that
/// holds no note is refused with `KeyNotFound` before any id is used.
pub fn reserve_task_id(db: &mut sled::Db, note_key: &str) -> (r: Result<u64, AppError>)
    ensures
        r matches Ok(n) ==> entries(*old(db)).contains_key(note_store_key(note_key@))
            && crate::counter::next_issue(entries(*old(db))) == Some(n) && entries(*final(db))
            == crate::counter::after_issue(entries(*old(db))),
        r matches Err(AppError::KeyNotFound(k)) ==> k@ == note_key@ && !entries(
            *old(db),
        ).contains_key(note_store_key(note_key@)) && entries(*final(db)) == entries(*old(db)),
        !entries(*old(db)).contains_key(note_store_key(note_key@)) ==> (r matches Err(e) && (
        e is KeyNotFound || e is Sled) && entries(*final(db)) == entries(*old(db))),
{
    match key_exists(db, note_key) {
        Ok(true) => {},
        Ok(false) => return Err(AppError::KeyNotFound(note_key.to_string())),
        Err(e) => return Err(e),
    }
    crate::counter::get_next_task_id(db)
}

/// Removes the task with id `id`; one the store does not hold is refused
/// with `TaskNotFound`.
pub fn delete_task(db: &mut sled::Db, id: u64) -> (r: Result<(), AppError>)
    ensures
        r is Ok ==> entries(*old(db)).contains_key(task_store_key(id)) && entries(*final(db))
            == entries(*old(db)).remove(task_store_key(id)),
        r matches Err(e) ==> e is Sled || (e == AppError::TaskNotFound(id) && !entries(
            *old(db),
        ).contains_key(task_store_key(id)) && entries(*final(db)) == entries(*old(db))),
        !entries(*old(db)).contains_key(task_store_key(id)) ==> r is Err,
{
    let key = task_key(id);
    match contains(db, key.as_slice()) {
        Ok(true) => {},
        Ok(false) => return Err(AppError::TaskNotFound(id)),
        Err(e) => return Err(AppError::Sled(e)),
    }
    match remove(db, key.as_slice()) {
        Ok(()) => {},
        Err(e) => return Err(AppError::Sled(e)),
    }
    match flush(db) {
        Ok(()) => Ok(()),
        Err(e) => Err(AppError::Sled(e)),
    }
}

} // verus!
