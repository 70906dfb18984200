//! The task-id generator: a counter kept under one reserved key of the
//! store, as eight little-endian bytes, advanced by sled's atomic
//! read-modify-write.
use vstd::prelude::*;
use vstd::bytes::{
    spec_u64_from_le_bytes, spec_u64_to_le_bytes, u64_from_le_bytes, u64_to_le_bytes,
    lemma_auto_spec_u64_to_from_le_bytes,
};
use crate::error::AppError;
use crate::store::{entries, flush, put};

verus! {

/// The reserved key `__counter__/tasks`.
pub open spec fn counter_key() -> Seq<u8> {
    seq![95u8, 95, 99, 111, 117, 110, 116, 101, 114, 95, 95, 47, 116, 97, 115, 107, 115]
}

pub fn counter_key_bytes() -> (r: Vec<u8>)
    ensures
        r@ == counter_key(),
{
    vec![95u8, 95, 99, 111, 117, 110, 116, 101, 114, 95, 95, 47, 116, 97, 115, 107, 115]
}

/// The counter as the store holds it: 0 when the key is absent, `None` when
/// the bytes there are not eight.
pub open spec fn counter_value(m: Map<Seq<u8>, Seq<u8>>) -> Option<u64> {
    if !m.contains_key(counter_key()) {
        Some(0u64)
    } else if m[counter_key()].len() == 8 {
        Some(spec_u64_from_le_bytes(m[counter_key()]))
    } else {
        None
    }
}

/// The id the next call of `get_next_task_id` issues on store contents `m`,
/// or `None` where it must fail: a damaged counter, or no id left.
pub open spec fn next_issue(m: Map<Seq<u8>, Seq<u8>>) -> Option<u64> {
    match counter_value(m) {
        Some(c) => if c < u64::MAX { Some((c + 1) as u64) } else { None },
        None => None,
    }
}

/// The store after a call of `get_next_task_id` that issued an id.
pub open spec fn after_issue(m: Map<Seq<u8>, Seq<u8>>) -> Map<Seq<u8>, Seq<u8>> {
    m.insert(counter_key(), spec_u64_to_le_bytes(next_issue(m).unwrap()))
}

/// The store after `k` calls of `get_next_task_id` that each issued an id.
pub open spec fn after_issues(m: Map<Seq<u8>, Seq<u8>>, k: nat) -> Map<Seq<u8>, Seq<u8>>
    decreases k,
{
    if k == 0 {
        m
    } else {
        after_issue(after_issues(m, (k - 1) as nat))
    }
}

/// The value the counter takes when it held `old`: one more, starting from
/// zero. Once the last id was issued the counter gets a ninth byte, which
/// marks it exhausted; a damaged counter is left as it is.
pub open spec fn bumped(old: Option<Seq<u8>>) -> Seq<u8> {
    match old {
        None => spec_u64_to_le_bytes(1),
        Some(b) => if b.len() == 8 && spec_u64_from_le_bytes(b) < u64::MAX {
            spec_u64_to_le_bytes((spec_u64_from_le_bytes(b) + 1) as u64)
        } else if b.len() == 8 {
            b.push(0u8)
        } else {
            b
        },
    }
}

pub open spec fn stored(m: Map<Seq<u8>, Seq<u8>>, k: Seq<u8>) -> Option<Seq<u8>> {
    if m.contains_key(k) { Some(m[k]) } else { None }
}

/// The step that the store applies atomically to the counter.
pub fn bump_counter(old: Option<&[u8]>) -> (r: Option<Vec<u8>>)
    ensures
        r matches Some(v) && v@ == bumped(match old { Some(b) => Some(b@), None => None }),
{
    match old {
        None => Some(u64_to_le_bytes(1)),
        Some(b) => {
            let mut v = vstd::slice::slice_to_vec(b);
            if b.len() == 8 {
                let c = u64_from_le_bytes(b);
                if c < u64::MAX {
                    return Some(u64_to_le_bytes(c + 1));
                }
                v.push(0u8);
            }
            Some(v)
        },
    }
}

/// Relies on sled's `Tree::update_and_fetch` with `bump_counter` as the
/// update: the key takes the bumped value, which is returned.
#[verifier::external_body]
fn update_counter(db: &mut sled::Db, key: &[u8]) -> (r: Result<Option<Vec<u8>>, sled::Error>)
    ensures
        r matches Ok(o) ==> o matches Some(v) && v@ == bumped(stored(entries(*old(db)), key@))
            && entries(*final(db)) == entries(*old(db)).insert(key@, v@),
{
    db.update_and_fetch(key, bump_counter).map(|o| o.map(|v| v.to_vec()))
}

/// Issues the next task id: one more than the last one issued, 1 on a
/// fresh store.
pub fn get_next_task_id(db: &mut sled::Db) -> (r: Result<u64, AppError>)
    ensures
        r matches Ok(n) ==> next_issue(entries(*old(db))) == Some(n)
            && entries(*final(db)) == after_issue(entries(*old(db))),
        r matches Err(e) ==> e is Sled || (e is Database && next_issue(entries(*old(db))) is None
            && entries(*final(db)) == entries(*old(db)).insert(
            counter_key(),
            bumped(stored(entries(*old(db)), counter_key())),
        )),
        next_issue(entries(*old(db))) is None ==> r is Err,
{
    proof {
        lemma_auto_spec_u64_to_from_le_bytes();
    }
    let key = counter_key_bytes();
    let updated = match update_counter(db, key.as_slice()) {
        Ok(o) => o,
        Err(e) => return Err(AppError::Sled(e)),
    };
    let bytes = match updated {
        Some(b) => b,
        None => return Err(AppError::Database("Failed to update task counter".to_string())),
    };
    if bytes.len() != 8 {
        return Err(AppError::Database("Failed to update task counter".to_string()));
    }
    Ok(u64_from_le_bytes(bytes.as_slice()))
}

/// Sets the counter back to zero, so that the next id issued is 1. Ids may
/// then be issued again.
pub fn reset_task_counter(db: &mut sled::Db) -> (r: Result<(), AppError>)
    ensures
        r is Ok ==> entries(*final(db)) == entries(*old(db)).insert(
            counter_key(),
            spec_u64_to_le_bytes(0),
        ),
        r matches Err(e) ==> e is Sled,
{
    let key = counter_key_bytes();
    let zero = u64_to_le_bytes(0);
    match put(db, key.as_slice(), zero.as_slice()) {
        Ok(()) => {},
        Err(e) => return Err(AppError::Sled(e)),
    }
    match flush(db) {
        Ok(()) => Ok(()),
        Err(e) => Err(AppError::Sled(e)),
    }
}

/// On a store without a counter, `k` successive calls of `get_next_task_id`
/// issue exactly 1, 2, ..., k.
pub proof fn lemma_ids_count_from_one(m: Map<Seq<u8>, Seq<u8>>, k: nat)
    requires
        !m.contains_key(counter_key()),
        k <= u64::MAX,
    ensures
        forall|j: nat| j < k ==> next_issue(#[trigger] after_issues(m, j)) == Some((j + 1) as u64),
{
    lemma_auto_spec_u64_to_from_le_bytes();
    assert forall|j: nat| j < k implies next_issue(#[trigger] after_issues(m, j)) == Some(
        (j + 1) as u64,
    ) by {
        lemma_counter_after_issues(m, j);
    }
}

proof fn lemma_counter_after_issues(m: Map<Seq<u8>, Seq<u8>>, j: nat)
    requires
        !m.contains_key(counter_key()),
        j < u64::MAX,
    ensures
        counter_value(after_issues(m, j)) == Some(j as u64),
    decreases j,
{
    lemma_auto_spec_u64_to_from_le_bytes();
    if j > 0 {
        lemma_counter_after_issues(m, (j - 1) as nat);
    }
}

/// Writes and removals under any key but the counter's leave the next id
/// unchanged, so other store operations may come between id requests.
pub proof fn lemma_other_keys_keep_counter(m: Map<Seq<u8>, Seq<u8>>, key: Seq<u8>, v: Seq<u8>)
    requires
        key != counter_key(),
    ensures
        next_issue(m.insert(key, v)) == next_issue(m),
        next_issue(m.remove(key)) == next_issue(m),
{
    assert(m.insert(key, v).contains_key(counter_key()) == m.contains_key(counter_key()));
    assert(m.remove(key).contains_key(counter_key()) == m.contains_key(counter_key()));
}

} // verus!
