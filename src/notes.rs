//! What the commands do to notes and tasks before they reach the store:
//! creating, editing tags and content, selecting by tag, counting tasks.
use vstd::prelude::*;
use crate::cli::SortBy;
use crate::db::{key_exists, note_store_key, valid_note_key};
use crate::error::AppError;
use crate::note::{Note, Task, TaskStatus, Timestamp};
use crate::search::{key_once, replaced, SearchIndex};
use crate::store::entries;
use crate::sync::save_note_with_index;
use crate::text::{same_trimmed, trimmed};

verus! {

pub open spec fn views(v: Seq<String>) -> Seq<Seq<char>> {
    v.map_values(|s: String| s@)
}

/// The tags after adding each of `add` in turn, where it is not there yet.
pub open spec fn tags_added(tags: Seq<Seq<char>>, add: Seq<Seq<char>>) -> Seq<Seq<char>>
    decreases add.len(),
{
    if add.len() == 0 {
        tags
    } else {
        let t = tags_added(tags, add.drop_last());
        if t.contains(add.last()) {
            t
        } else {
            t.push(add.last())
        }
    }
}

/// The tags that are not among `rm`, in their order.
pub open spec fn tags_kept(tags: Seq<Seq<char>>, rm: Seq<Seq<char>>) -> Seq<Seq<char>>
    decreases tags.len(),
{
    if tags.len() == 0 {
        tags
    } else {
        let k = tags_kept(tags.drop_last(), rm);
        if rm.contains(tags.last()) {
            k
        } else {
            k.push(tags.last())
        }
    }
}

/// Everything but the tags and the modification time is as before.
pub open spec fn same_but_tags(a: Note, b: Note) -> bool {
    &&& a.key@ == b.key@
    &&& a.title@ == b.title@
    &&& a.content@ == b.content@
    &&& a.created_at == b.created_at
}

/// A new note: the title defaults to the key; created and modified now.
pub fn new_note(key: String, title: Option<String>, tags: Vec<String>, content: String, now: Timestamp) -> (r: Note)
    ensures
        r.key@ == key@,
        r.title@ == (match title {
            Some(t) => t@,
            None => key@,
        }),
        r.tags@ == tags@,
        r.content@ == content@,
        r.created_at == now,
        r.modified_at == now,
{
    let title = match title {
        Some(t) => t,
        None => key.clone(),
    };
    Note { key, title, tags, content, created_at: now, modified_at: now }
}

/// Whether `t` is among `tags`.
pub fn holds_tag(tags: &Vec<String>, t: &String) -> (r: bool)
    ensures
        r == views(tags@).contains(t@),
{
    let mut i: usize = 0;
    while i < tags.len()
        invariant
            i <= tags.len(),
            forall|j: int| 0 <= j < i ==> tags@[j]@ != t@,
        decreases tags.len() - i,
    {
        if tags[i] == *t {
            assert(views(tags@)[i as int] == t@);
            return true;
        }
        i = i + 1;
    }
    assert forall|j: int| 0 <= j < views(tags@).len() implies views(tags@)[j] != t@ by {
        assert(views(tags@)[j] == tags@[j]@);
    }
    false
}

/// Adds each tag of `add` that the note does not have yet; returns whether
/// any was added.
pub fn add_tags(note: &mut Note, add: &Vec<String>) -> (r: bool)
    ensures
        views(final(note).tags@) == tags_added(views(old(note).tags@), views(add@)),
        r == (final(note).tags.len() != old(note).tags.len()),
        same_but_tags(*final(note), *old(note)),
        final(note).modified_at == old(note).modified_at,
{
    let ghost start = views(note.tags@);
    let before = note.tags.len();
    let mut i: usize = 0;
    while i < add.len()
        invariant
            i <= add.len(),
            views(note.tags@) == tags_added(start, views(add@).subrange(0, i as int)),
            same_but_tags(*note, *old(note)),
            note.modified_at == old(note).modified_at,
            start == views(old(note).tags@),
            note.tags.len() >= old(note).tags.len(),
        decreases add.len() - i,
    {
        let ghost sub = views(add@).subrange(0, i + 1);
        assert(sub.drop_last() =~= views(add@).subrange(0, i as int));
        assert(sub.last() == add@[i as int]@);
        if !holds_tag(&note.tags, &add[i]) {
            let t = add[i].clone();
            note.tags.push(t);
            assert(views(note.tags@) =~= tags_added(start, views(add@).subrange(0, i as int)).push(
                add@[i as int]@,
            ));
        }
        i = i + 1;
    }
    assert(views(add@).subrange(0, add.len() as int) =~= views(add@));
    proof {
        lemma_tags_added_len(start, views(add@));
    }
    note.tags.len() != before
}

proof fn lemma_tags_added_len(tags: Seq<Seq<char>>, add: Seq<Seq<char>>)
    ensures
        tags_added(tags, add).len() >= tags.len(),
        tags_added(tags, add).len() == tags.len() ==> tags_added(tags, add) == tags,
    decreases add.len(),
{
    if add.len() > 0 {
        lemma_tags_added_len(tags, add.drop_last());
    }
}

/// Drops every tag that is among `rm`; returns whether any was dropped.
pub fn remove_tags(note: &mut Note, rm: &Vec<String>) -> (r: bool)
    ensures
        views(final(note).tags@) == tags_kept(views(old(note).tags@), views(rm@)),
        r == (final(note).tags.len() != old(note).tags.len()),
        same_but_tags(*final(note), *old(note)),
        final(note).modified_at == old(note).modified_at,
{
    let ghost start = views(note.tags@);
    let mut kept: Vec<String> = Vec::new();
    let mut i: usize = 0;
    while i < note.tags.len()
        invariant
            i <= note.tags.len(),
            start == views(note.tags@),
            note == old(note),
            views(kept@) == tags_kept(start.subrange(0, i as int), views(rm@)),
        decreases note.tags.len() - i,
    {
        let ghost sub = start.subrange(0, i + 1);
        assert(sub.drop_last() =~= start.subrange(0, i as int));
        assert(sub.last() == note.tags@[i as int]@);
        if !holds_tag(rm, &note.tags[i]) {
            let t = note.tags[i].clone();
            kept.push(t);
            assert(views(kept@) =~= tags_kept(start.subrange(0, i as int), views(rm@)).push(
                note.tags@[i as int]@,
            ));
        }
        i = i + 1;
    }
    assert(start.subrange(0, start.len() as int) =~= start);
    let before = note.tags.len();
    note.tags = kept;
    note.tags.len() != before
}

/// Adds the tags of `add`, then drops those of `rm`. When that changes the
/// tags the note is marked modified at `now`; returns whether it did.
pub fn edit_tags(note: &mut Note, add: &Vec<String>, rm: &Vec<String>, now: Timestamp) -> (r: bool)
    ensures
        views(final(note).tags@) == tags_kept(
            tags_added(views(old(note).tags@), views(add@)),
            views(rm@),
        ),
        r == (tags_added(views(old(note).tags@), views(add@)).len() != old(note).tags.len()
            || tags_kept(tags_added(views(old(note).tags@), views(add@)), views(rm@)).len()
            != tags_added(views(old(note).tags@), views(add@)).len()),
        same_but_tags(*final(note), *old(note)),
        final(note).modified_at == if r {
            now
        } else {
            old(note).modified_at
        },
{
    let added = add_tags(note, add);
    let removed = remove_tags(note, rm);
    let modified = added || removed;
    if modified {
        note.modified_at = now;
    }
    modified
}

/// `after` is `before` once the content `content` was submitted at `now`:
/// the content and modification time change when the text differs in more
/// than surrounding whitespace; key, title, tags and creation time never do.
pub open spec fn content_edited(before: Note, after: Note, content: Seq<char>, now: Timestamp) -> bool {
    let changed = trimmed(content) != trimmed(before.content@);
    &&& after.content@ == if changed {
        content
    } else {
        before.content@
    }
    &&& after.modified_at == if changed {
        now
    } else {
        before.modified_at
    }
    &&& after.created_at == before.created_at
    &&& after.key@ == before.key@
    &&& after.title@ == before.title@
    &&& after.tags@ == before.tags@
}

/// Takes the edited content when it differs from the note's in more than
/// leading and trailing whitespace, and marks the note modified at `now`;
/// returns whether it did. The creation time never changes.
pub fn edit_content(note: &mut Note, content: String, now: Timestamp) -> (r: bool)
    ensures
        r == (trimmed(content@) != trimmed(old(note).content@)),
        content_edited(*old(note), *final(note), content@, now),
{
    if same_trimmed(content.as_str(), note.content.as_str()) {
        return false;
    }
    note.content = content;
    note.modified_at = now;
    true
}

/// Editing a note's content twice, each time with a real change and at a
/// later instant, keeps its creation time and strictly advances its
/// modification time.
pub proof fn lemma_edits_keep_created_at(
    n0: Note,
    n1: Note,
    n2: Note,
    c1: Seq<char>,
    c2: Seq<char>,
    t1: Timestamp,
    t2: Timestamp,
)
    requires
        content_edited(n0, n1, c1, t1),
        content_edited(n1, n2, c2, t2),
        trimmed(c1) != trimmed(n0.content@),
        trimmed(c2) != trimmed(n1.content@),
        t1.nanos_total() > n0.modified_at.nanos_total(),
        t2.nanos_total() > t1.nanos_total(),
    ensures
        n2.created_at == n0.created_at,
        n0.modified_at.nanos_total() < n1.modified_at.nanos_total(),
        n1.modified_at.nanos_total() < n2.modified_at.nanos_total(),
{
}

/// Creates the note: refused with `KeyExists` when the store already holds
/// its key, else saved in the store and the index.
pub fn create_note(db: &mut sled::Db, note: &Note, record: &Vec<u8>, si: &mut SearchIndex) -> (r: Result<(), AppError>)
    requires
        old(si).wf(),
    ensures
        final(si).wf(),
        final(si).same_fields(old(si)),
        r is Ok ==> !entries(*old(db)).contains_key(note_store_key(note.key@)) && valid_note_key(
            note.key@,
        ) && entries(*final(db)) == entries(*old(db)).insert(note_store_key(note.key@), record@)
            && replaced(
            old(si).docs(),
            final(si).docs(),
            old(si).key_field,
            note.key@,
            old(si).doc_of(*note),
        ) && key_once(final(si).docs(), old(si).key_field, note.key@),
        entries(*old(db)).contains_key(note_store_key(note.key@)) ==> (r matches Err(e) && (
        e is KeyExists || e is Sled) && entries(*final(db)) == entries(*old(db))),
        r matches Err(AppError::KeyExists(k)) ==> k@ == note.key@ && entries(*old(db)).contains_key(
            note_store_key(note.key@),
        ),
        r matches Err(e) ==> *final(si) == *old(si) && (e is KeyExists || e is Sled || e is InvalidKey
            || e is Tantivy),
{
    match key_exists(db, note.key.as_str()) {
        Ok(true) => return Err(AppError::KeyExists(note.key.clone())),
        Ok(false) => {},
        Err(e) => return Err(e),
    }
    save_note_with_index(db, note, record, si)
}

/// Imports a note through the store and the index. A note that already
/// has the key is kept unless `overwrite`; returns whether the note was
/// written.
pub fn import_note(
    db: &mut sled::Db,
    note: &Note,
    record: &Vec<u8>,
    overwrite: bool,
    si: &mut SearchIndex,
) -> (r: Result<bool, AppError>)
    requires
        old(si).wf(),
    ensures
        final(si).wf(),
        final(si).same_fields(old(si)),
        r matches Ok(written) ==> written == (overwrite || !entries(*old(db)).contains_key(
            note_store_key(note.key@),
        )),
        r matches Ok(true) ==> valid_note_key(note.key@) && entries(*final(db)) == entries(
            *old(db),
        ).insert(note_store_key(note.key@), record@) && replaced(
            old(si).docs(),
            final(si).docs(),
            old(si).key_field,
            note.key@,
            old(si).doc_of(*note),
        ) && key_once(final(si).docs(), old(si).key_field, note.key@),
        r matches Ok(false) ==> entries(*final(db)) == entries(*old(db)) && *final(si) == *old(si),
        r matches Err(e) ==> *final(si) == *old(si) && (e is Sled || e is InvalidKey || e is Tantivy),
{
    let exists = match key_exists(db, note.key.as_str()) {
        Ok(b) => b,
        Err(e) => return Err(e),
    };
    if exists && !overwrite {
        return Ok(false);
    }
    match save_note_with_index(db, note, record, si) {
        Ok(()) => Ok(true),
        Err(e) => Err(e),
    }
}

/// Whether `tags` and `wanted` share a tag.
pub open spec fn shares_tag(tags: Seq<Seq<char>>, wanted: Seq<Seq<char>>) -> bool {
    exists|j: int| 0 <= j < tags.len() && wanted.contains(#[trigger] tags[j])
}

/// Whether `tags` holds every tag of `required`.
pub open spec fn has_all_tags(tags: Seq<Seq<char>>, required: Seq<Seq<char>>) -> bool {
    forall|j: int| 0 <= j < required.len() ==> tags.contains(#[trigger] required[j])
}

/// `r` lists, ascending, exactly the positions below `n` that satisfy `p`.
pub open spec fn selects(r: Seq<usize>, n: int, p: spec_fn(int) -> bool) -> bool {
    &&& forall|j: int| 0 <= j < r.len() ==> 0 <= #[trigger] r[j] < n && p(r[j] as int)
    &&& forall|j: int, l: int| 0 <= j < l < r.len() ==> #[trigger] r[j] < #[trigger] r[l]
    &&& forall|i: int| 0 <= i < n && #[trigger] p(i) ==> r.contains(i as usize)
}

fn shares_any(tags: &Vec<String>, wanted: &Vec<String>) -> (r: bool)
    ensures
        r == shares_tag(views(tags@), views(wanted@)),
{
    let mut j: usize = 0;
    while j < tags.len()
        invariant
            j <= tags.len(),
            forall|l: int| 0 <= l < j ==> !views(wanted@).contains(#[trigger] views(tags@)[l]),
        decreases tags.len() - j,
    {
        if holds_tag(wanted, &tags[j]) {
            assert(views(tags@)[j as int] == tags@[j as int]@);
            return true;
        }
        j = j + 1;
    }
    false
}

fn holds_all(tags: &Vec<String>, required: &Vec<String>) -> (r: bool)
    ensures
        r == has_all_tags(views(tags@), views(required@)),
{
    let mut j: usize = 0;
    while j < required.len()
        invariant
            j <= required.len(),
            forall|l: int| 0 <= l < j ==> views(tags@).contains(#[trigger] views(required@)[l]),
        decreases required.len() - j,
    {
        if !holds_tag(tags, &required[j]) {
            assert(views(required@)[j as int] == required@[j as int]@);
            return false;
        }
        j = j + 1;
    }
    true
}

/// The positions of the notes that carry at least one of `wanted`.
pub fn select_any_tag(notes: &Vec<Note>, wanted: &Vec<String>) -> (r: Vec<usize>)
    ensures
        selects(r@, notes.len() as int, |i: int| shares_tag(views(notes@[i].tags@), views(wanted@))),
{
    let ghost p = |i: int| shares_tag(views(notes@[i].tags@), views(wanted@));
    let mut r: Vec<usize> = Vec::new();
    let mut i: usize = 0;
    while i < notes.len()
        invariant
            i <= notes.len(),
            p == (|i: int| shares_tag(views(notes@[i].tags@), views(wanted@))),
            selects(r@, i as int, p),
        decreases notes.len() - i,
    {
        let ghost before = r@;
        if shares_any(&notes[i].tags, wanted) {
            r.push(i);
            assert(r@[r@.len() - 1] == i);
        }
        assert forall|l: int| 0 <= l < i + 1 && #[trigger] p(l) implies r@.contains(l as usize) by {
            if l < i {
                assert(before.contains(l as usize));
                let j = choose|j: int| 0 <= j < before.len() && before[j] == l as usize;
                assert(r@[j] == l as usize);
            }
        }
        i = i + 1;
    }
    r
}

/// The positions of the notes that carry every tag of `required`; all
/// notes when it is empty.
pub fn select_all_tags(notes: &Vec<Note>, required: &Vec<String>) -> (r: Vec<usize>)
    ensures
        selects(r@, notes.len() as int, |i: int| has_all_tags(views(notes@[i].tags@), views(required@))),
{
    let ghost p = |i: int| has_all_tags(views(notes@[i].tags@), views(required@));
    let mut r: Vec<usize> = Vec::new();
    let mut i: usize = 0;
    while i < notes.len()
        invariant
            i <= notes.len(),
            p == (|i: int| has_all_tags(views(notes@[i].tags@), views(required@))),
            selects(r@, i as int, p),
        decreases notes.len() - i,
    {
        let ghost before = r@;
        if holds_all(&notes[i].tags, required) {
            r.push(i);
            assert(r@[r@.len() - 1] == i);
        }
        assert forall|l: int| 0 <= l < i + 1 && #[trigger] p(l) implies r@.contains(l as usize) by {
            if l < i {
                assert(before.contains(l as usize));
                let j = choose|j: int| 0 <= j < before.len() && before[j] == l as usize;
                assert(r@[j] == l as usize);
            }
        }
        i = i + 1;
    }
    r
}

/// The position of the first task with this id, or `TaskNotFound`.
pub fn find_task(tasks: &Vec<Task>, id: u64) -> (r: Result<usize, AppError>)
    ensures
        r matches Ok(i) ==> i < tasks.len() && tasks@[i as int].id == id && forall|j: int|
            0 <= j < i ==> #[trigger] tasks@[j].id != id,
        r matches Err(e) ==> e == AppError::TaskNotFound(id) && forall|j: int|
            0 <= j < tasks.len() ==> #[trigger] tasks@[j].id != id,
{
    let mut i: usize = 0;
    while i < tasks.len()
        invariant
            i <= tasks.len(),
            forall|j: int| 0 <= j < i ==> #[trigger] tasks@[j].id != id,
        decreases tasks.len() - i,
    {
        if tasks[i].id == id {
            return Ok(i);
        }
        i = i + 1;
    }
    Err(AppError::TaskNotFound(id))
}

/// How many tasks of `t[..n]` have status `s`.
pub open spec fn count_status(t: Seq<Task>, n: int, s: TaskStatus) -> nat
    decreases n,
{
    if n <= 0 {
        0
    } else {
        count_status(t, n - 1, s) + if t[n - 1].status == s { 1nat } else { 0nat }
    }
}

/// The number of tasks not done, and of those the number with priority.
pub fn task_counts(tasks: &Vec<Task>) -> (r: (usize, usize))
    ensures
        r.0 == tasks.len() - count_status(tasks@, tasks.len() as int, TaskStatus::Done),
        r.1 == count_status(tasks@, tasks.len() as int, TaskStatus::Prio),
{
    let mut done: usize = 0;
    let mut prio: usize = 0;
    let mut i: usize = 0;
    while i < tasks.len()
        invariant
            i <= tasks.len(),
            done == count_status(tasks@, i as int, TaskStatus::Done),
            prio == count_status(tasks@, i as int, TaskStatus::Prio),
            done + prio <= i,
        decreases tasks.len() - i,
    {
        match tasks[i].status {
            TaskStatus::Done => done = done + 1,
            TaskStatus::Prio => prio = prio + 1,
            TaskStatus::Open => {},
        }
        i = i + 1;
    }
    (tasks.len() - done, prio)
}

/// `a` comes no later than `b` in character order (String's order).
pub open spec fn key_le(a: Seq<char>, b: Seq<char>) -> bool
    decreases a.len(),
{
    if a.len() == 0 {
        true
    } else if b.len() == 0 {
        false
    } else if a[0] != b[0] {
        a[0] < b[0]
    } else {
        key_le(a.drop_first(), b.drop_first())
    }
}

/// `a` is at the same instant as `b` or later.
pub open spec fn at_or_after(a: Timestamp, b: Timestamp) -> bool {
    a.secs > b.secs || (a.secs == b.secs && a.nanos >= b.nanos)
}

/// Whether note `a` may be listed before note `b`.
pub open spec fn listed_before(a: Note, b: Note, by: SortBy) -> bool {
    match by {
        SortBy::Key => key_le(a.key@, b.key@),
        SortBy::Created => at_or_after(a.created_at, b.created_at),
        SortBy::Modified => at_or_after(a.modified_at, b.modified_at),
    }
}

proof fn lemma_key_le_total(a: Seq<char>, b: Seq<char>)
    ensures
        key_le(a, b) || key_le(b, a),
    decreases a.len(),
{
    if a.len() > 0 && b.len() > 0 && a[0] == b[0] {
        lemma_key_le_total(a.drop_first(), b.drop_first());
    }
}

proof fn lemma_key_le_trans(a: Seq<char>, b: Seq<char>, c: Seq<char>)
    requires
        key_le(a, b),
        key_le(b, c),
    ensures
        key_le(a, c),
    decreases a.len(),
{
    if a.len() > 0 && b.len() > 0 && c.len() > 0 && a[0] == b[0] && b[0] == c[0] {
        lemma_key_le_trans(a.drop_first(), b.drop_first(), c.drop_first());
    }
}

proof fn lemma_listed_total(a: Note, b: Note, by: SortBy)
    ensures
        listed_before(a, b, by) || listed_before(b, a, by),
{
    lemma_key_le_total(a.key@, b.key@);
}

proof fn lemma_listed_trans(a: Note, b: Note, c: Note, by: SortBy)
    requires
        listed_before(a, b, by),
        listed_before(b, c, by),
    ensures
        listed_before(a, c, by),
{
    if by == SortBy::Key {
        lemma_key_le_trans(a.key@, b.key@, c.key@);
    }
}

/// Whether `a` comes no later than `b` in character order.
pub fn key_order(a: &str, b: &str) -> (r: bool)
    ensures
        r == key_le(a@, b@),
{
    let na = a.unicode_len();
    let nb = b.unicode_len();
    let mut i: usize = 0;
    assert(a@.skip(0) =~= a@ && b@.skip(0) =~= b@);
    while i < na && i < nb
        invariant
            na == a@.len(),
            nb == b@.len(),
            i <= na,
            i <= nb,
            key_le(a@, b@) == key_le(a@.skip(i as int), b@.skip(i as int)),
        decreases na - i,
    {
        let ca = a.get_char(i);
        let cb = b.get_char(i);
        assert(a@.skip(i as int)[0] == ca && b@.skip(i as int)[0] == cb);
        if ca != cb {
            return ca < cb;
        }
        assert(a@.skip(i as int).drop_first() =~= a@.skip(i + 1));
        assert(b@.skip(i as int).drop_first() =~= b@.skip(i + 1));
        i = i + 1;
    }
    assert(i == na ==> a@.skip(i as int).len() == 0);
    i == na
}

fn listed_first(a: &Note, b: &Note, by: SortBy) -> (r: bool)
    ensures
        r == listed_before(*a, *b, by),
{
    match by {
        SortBy::Key => key_order(a.key.as_str(), b.key.as_str()),
        SortBy::Created => a.created_at.secs > b.created_at.secs || (a.created_at.secs
            == b.created_at.secs && a.created_at.nanos >= b.created_at.nanos),
        SortBy::Modified => a.modified_at.secs > b.modified_at.secs || (a.modified_at.secs
            == b.modified_at.secs && a.modified_at.nanos >= b.modified_at.nanos),
    }
}

/// The positions of the notes in listing order: by key ascending, or
/// newest first by creation or modification time. Each position appears
/// once.
pub fn sort_notes(notes: &Vec<Note>, by: SortBy) -> (r: Vec<usize>)
    ensures
        r.len() == notes.len(),
        r@.no_duplicates(),
        forall|i: int| 0 <= i < r.len() ==> #[trigger] r@[i] < notes.len(),
        forall|i: int, j: int|
            0 <= i < j < r.len() ==> listed_before(
                notes@[#[trigger] r@[i] as int],
                notes@[#[trigger] r@[j] as int],
                by,
            ),
{
    let mut r: Vec<usize> = Vec::new();
    let mut i: usize = 0;
    while i < notes.len()
        invariant
            i <= notes.len(),
            r.len() == i,
            r@.no_duplicates(),
            forall|a: int| 0 <= a < r.len() ==> #[trigger] r@[a] < i,
            forall|a: int, b: int|
                0 <= a < b < r.len() ==> listed_before(
                    notes@[#[trigger] r@[a] as int],
                    notes@[#[trigger] r@[b] as int],
                    by,
                ),
        decreases notes.len() - i,
    {
        let mut p: usize = 0;
        while p < r.len() && listed_first(&notes[r[p]], &notes[i], by)
            invariant
                p <= r.len(),
                r.len() == i,
                i < notes.len(),
                forall|a: int| 0 <= a < r.len() ==> #[trigger] r@[a] < i,
                forall|a: int| 0 <= a < p ==> listed_before(notes@[#[trigger] r@[a] as int], notes@[i as int], by),
            decreases r.len() - p,
        {
            p = p + 1;
        }
        let ghost old_r = r@;
        proof {
            if p < r.len() {
                lemma_listed_total(notes@[r@[p as int] as int], notes@[i as int], by);
            }
        }
        r.insert(p, i);
        proof {
            assert(r@ == old_r.insert(p as int, i));
            assert forall|a: int, b: int| 0 <= a < b < r.len() implies listed_before(
                notes@[#[trigger] r@[a] as int],
                notes@[#[trigger] r@[b] as int],
                by,
            ) by {
                if b < p {
                    assert(r@[a] == old_r[a] && r@[b] == old_r[b]);
                } else if b == p {
                    assert(r@[a] == old_r[a]);
                } else if a < p {
                    assert(r@[a] == old_r[a] && r@[b] == old_r[b - 1]);
                } else if a == p {
                    assert(r@[b] == old_r[b - 1]);
                    if b - 1 > p {
                        assert(listed_before(notes@[old_r[p as int] as int], notes@[old_r[b - 1] as int], by));
                        lemma_listed_trans(notes@[i as int], notes@[old_r[p as int] as int], notes@[old_r[b - 1] as int], by);
                    }
                } else {
                    assert(r@[a] == old_r[a - 1] && r@[b] == old_r[b - 1]);
                }
            }
            assert forall|a: int, b: int| 0 <= a < r.len() && 0 <= b < r.len() && a != b implies r@[a] != r@[b] by {
                if a != p && b != p {
                    let oa = if a < p { a } else { a - 1 };
                    let ob = if b < p { b } else { b - 1 };
                    assert(r@[a] == old_r[oa] && r@[b] == old_r[ob]);
                } else if a == p {
                    let ob = if b < p { b } else { b - 1 };
                    assert(r@[b] == old_r[ob]);
                } else {
                    let oa = if a < p { a } else { a - 1 };
                    assert(r@[a] == old_r[oa]);
                }
            }
            assert forall|a: int| 0 <= a < r.len() implies #[trigger] r@[a] < i + 1 by {
                if a < p {
                    assert(r@[a] == old_r[a]);
                } else if a > p {
                    assert(r@[a] == old_r[a - 1]);
                }
            }
        }
        i = i + 1;
    }
    r
}

#[verifier::external_type_specification]
#[verifier::external_body]
pub struct ExRegex(regex::Regex);

/// The text with every regular-expression meta character escaped.
pub uninterp spec fn regex_escaped(s: Seq<char>) -> Seq<char>;

/// Whether the regular expression `pattern` matches somewhere in `text`.
pub uninterp spec fn regex_finds(pattern: Seq<char>, text: Seq<char>) -> bool;

/// The pattern a compiled regular expression was built from.
pub uninterp spec fn regex_source(re: regex::Regex) -> Seq<char>;

/// Relies on `regex::escape`: the text with its meta characters escaped,
/// so that as a pattern it matches itself literally.
#[verifier::external_body]
fn escape_text(s: &str) -> (r: String)
    ensures
        r@ == regex_escaped(s@),
{
    regex::escape(s)
}

/// Relies on `regex::Regex::new`: compiles the pattern.
#[verifier::external_body]
fn compile_regex(pattern: &str) -> (r: Result<regex::Regex, regex::Error>)
    ensures
        r matches Ok(re) ==> regex_source(re) == pattern@,
{
    regex::Regex::new(pattern)
}

/// Relies on `regex::Regex::is_match`: whether the pattern matches
/// somewhere in the text.
#[verifier::external_body]
fn regex_match(re: &regex::Regex, text: &str) -> (r: bool)
    ensures
        r == regex_finds(regex_source(*re), text@),
{
    re.is_match(text)
}

/// The pattern of a link to `key` inside another note: `[[key]]` with the
/// key taken literally.
pub open spec fn link_pattern(key: Seq<char>) -> Seq<char> {
    seq!['\\', '[', '\\', '['] + regex_escaped(key) + seq!['\\', ']', '\\', ']']
}

/// The positions of the notes, other than `key`'s own, whose content links
/// to `key` with `[[key]]`.
pub fn backlinks(notes: &Vec<Note>, key: &str) -> (r: Result<Vec<usize>, AppError>)
    ensures
        r matches Ok(v) ==> selects(
            v@,
            notes.len() as int,
            |i: int| notes@[i].key@ != key@ && regex_finds(link_pattern(key@), notes@[i].content@),
        ),
        r matches Err(e) ==> e is Regexp,
{
    let mut pattern = String::from_str("\\[\\[");
    let escaped = escape_text(key);
    pattern.append(escaped.as_str());
    pattern.append("\\]\\]");
    proof {
        reveal_strlit("\\[\\[");
        reveal_strlit("\\]\\]");
        assert(pattern@ =~= link_pattern(key@));
    }
    let re = match compile_regex(pattern.as_str()) {
        Ok(re) => re,
        Err(e) => return Err(AppError::Regexp(e)),
    };
    let ghost p = |i: int| notes@[i].key@ != key@ && regex_finds(link_pattern(key@), notes@[i].content@);
    let own = key.to_owned();
    let mut r: Vec<usize> = Vec::new();
    let mut i: usize = 0;
    while i < notes.len()
        invariant
            i <= notes.len(),
            regex_source(re) == link_pattern(key@),
            own@ == key@,
            p == (|i: int| notes@[i].key@ != key@ && regex_finds(link_pattern(key@), notes@[i].content@)),
            selects(r@, i as int, p),
        decreases notes.len() - i,
    {
        let ghost before = r@;
        if notes[i].key != own && regex_match(&re, notes[i].content.as_str()) {
            r.push(i);
            assert(r@[r@.len() - 1] == i);
        }
        assert forall|l: int| 0 <= l < i + 1 && #[trigger] p(l) implies r@.contains(l as usize) by {
            if l < i {
                assert(before.contains(l as usize));
                let j = choose|j: int| 0 <= j < before.len() && before[j] == l as usize;
                assert(r@[j] == l as usize);
            }
        }
        i = i + 1;
    }
    Ok(r)
}

} // verus!
