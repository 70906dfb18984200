use medi::counter::{get_next_task_id, reset_task_counter};
use medi::db::{delete_task, get_all_notes, get_all_tasks, reserve_task_id, save_note, save_task};
use medi::error::AppError;
use medi::note::{Note, Task, TaskStatus, Timestamp};
use medi::search::{search_notes, SearchIndex};
use medi::sync::{delete_note_with_index, reindex_all, save_note_with_index};
use medi::notes::{create_note, import_note};
use tantivy::schema::{Schema, STORED, STRING, TEXT};

fn temp_db() -> sled::Db {
    sled::Config::new().temporary(true).open().unwrap()
}

fn temp_index() -> SearchIndex {
    let mut b = Schema::builder();
    b.add_text_field("key", STRING | STORED);
    b.add_text_field("title", TEXT | STORED);
    b.add_text_field("content", TEXT | STORED);
    b.add_text_field("tags", TEXT | STORED);
    let index = tantivy::Index::create_in_ram(b.build());
    SearchIndex::new(index).unwrap()
}

fn stamp(secs: i64) -> Timestamp {
    Timestamp { secs, nanos: 0 }
}

fn note(key: &str, title: &str, content: &str, tags: &[&str]) -> Note {
    Note {
        key: key.to_string(),
        title: title.to_string(),
        tags: tags.iter().map(|t| t.to_string()).collect(),
        content: content.to_string(),
        created_at: stamp(1),
        modified_at: stamp(1),
    }
}

fn record_of(note: &Note) -> Vec<u8> {
    let mut m = serde_json::Map::new();
    m.insert("key".to_string(), serde_json::Value::String(note.key.clone()));
    m.insert("title".to_string(), serde_json::Value::String(note.title.clone()));
    let tags = note.tags.iter().map(|t| serde_json::Value::String(t.clone())).collect();
    m.insert("tags".to_string(), serde_json::Value::Array(tags));
    m.insert("content".to_string(), serde_json::Value::String(note.content.clone()));
    serde_json::to_vec(&serde_json::Value::Object(m)).unwrap()
}

fn note_of(record: &[u8]) -> Note {
    let v: serde_json::Value = serde_json::from_slice(record).unwrap();
    let text = |k: &str| v[k].as_str().unwrap().to_string();
    Note {
        key: text("key"),
        title: text("title"),
        tags: v["tags"].as_array().unwrap().iter().map(|t| t.as_str().unwrap().to_string()).collect(),
        content: text("content"),
        created_at: stamp(1),
        modified_at: stamp(1),
    }
}

fn save(db: &mut sled::Db, si: &mut SearchIndex, n: &Note) {
    save_note_with_index(db, n, &record_of(n), si).unwrap();
}

#[test]
fn saved_note_is_found_by_content() {
    let mut db = temp_db();
    let mut si = temp_index();
    save(&mut db, &mut si, &note("n1", "Alpha", "rust systems", &["x"]));
    assert_eq!(search_notes(&si, "rust").unwrap(), vec!["n1".to_string()]);
}

#[test]
fn deleted_note_is_no_longer_found() {
    let mut db = temp_db();
    let mut si = temp_index();
    save(&mut db, &mut si, &note("n1", "Alpha", "rust systems", &["x"]));
    delete_note_with_index(&mut db, "n1", &mut si).unwrap();
    assert!(search_notes(&si, "rust").unwrap().is_empty());
    match delete_note_with_index(&mut db, "n1", &mut si) {
        Err(AppError::KeyNotFound(k)) => assert_eq!(k, "n1"),
        other => panic!("unexpected: {:?}", other),
    }
}

#[test]
fn resaved_note_replaces_its_document() {
    let mut db = temp_db();
    let mut si = temp_index();
    save(&mut db, &mut si, &note("n1", "n1", "a", &[]));
    save(&mut db, &mut si, &note("n1", "n1", "b", &[]));
    assert!(search_notes(&si, "a").unwrap().is_empty());
    assert_eq!(search_notes(&si, "b").unwrap(), vec!["n1".to_string()]);
}

#[test]
fn first_three_ids_count_from_one() {
    let mut db = temp_db();
    assert_eq!(get_next_task_id(&mut db).unwrap(), 1);
    assert_eq!(get_next_task_id(&mut db).unwrap(), 2);
    assert_eq!(get_next_task_id(&mut db).unwrap(), 3);
}

#[test]
fn reindex_keeps_exactly_the_stored_notes() {
    let mut db = temp_db();
    let mut si = temp_index();
    for k in ["k1", "k2", "k3", "k4", "k5"] {
        save(&mut db, &mut si, &note(k, k, "common words here", &[]));
    }
    delete_note_with_index(&mut db, "k2", &mut si).unwrap();
    delete_note_with_index(&mut db, "k4", &mut si).unwrap();
    let notes: Vec<Note> = get_all_notes(&db).unwrap().iter().map(|(_, r)| note_of(r)).collect();
    reindex_all(&mut si, &notes).unwrap();
    let mut found = search_notes(&si, "common").unwrap();
    found.sort();
    assert_eq!(found, vec!["k1".to_string(), "k3".to_string(), "k5".to_string()]);
}

#[test]
fn exact_title_query_follows_saves_and_deletes() {
    let mut db = temp_db();
    let mut si = temp_index();
    save(&mut db, &mut si, &note("zn", "Zanzibar", "one", &[]));
    assert_eq!(search_notes(&si, "title:Zanzibar").unwrap(), vec!["zn".to_string()]);
    save(&mut db, &mut si, &note("qx", "Quixote", "two", &[]));
    assert_eq!(search_notes(&si, "title:Quixote").unwrap(), vec!["qx".to_string()]);
    delete_note_with_index(&mut db, "zn", &mut si).unwrap();
    assert!(search_notes(&si, "title:Zanzibar").unwrap().is_empty());
    assert_eq!(search_notes(&si, "title:Quixote").unwrap(), vec!["qx".to_string()]);
}

#[test]
fn reindex_twice_gives_the_same_results() {
    let mut db = temp_db();
    let mut si = temp_index();
    for (k, c) in [("a1", "apple apple apple pie"), ("a2", "apple tart with cream"), ("a3", "pear")] {
        save(&mut db, &mut si, &note(k, k, c, &[]));
    }
    let notes: Vec<Note> = get_all_notes(&db).unwrap().iter().map(|(_, r)| note_of(r)).collect();
    reindex_all(&mut si, &notes).unwrap();
    let first = search_notes(&si, "apple").unwrap();
    reindex_all(&mut si, &notes).unwrap();
    let second = search_notes(&si, "apple").unwrap();
    assert_eq!(first, second);
    assert_eq!(first, vec!["a1".to_string(), "a2".to_string()]);
}

#[test]
fn reindex_twice_keeps_tied_results_as_a_set() {
    let mut db = temp_db();
    let mut si = temp_index();
    for (k, c) in [("b1", "plum pie"), ("b2", "plum tart"), ("b3", "fig")] {
        save(&mut db, &mut si, &note(k, k, c, &[]));
    }
    let notes: Vec<Note> = get_all_notes(&db).unwrap().iter().map(|(_, r)| note_of(r)).collect();
    reindex_all(&mut si, &notes).unwrap();
    let mut first = search_notes(&si, "plum").unwrap();
    reindex_all(&mut si, &notes).unwrap();
    let mut second = search_notes(&si, "plum").unwrap();
    first.sort();
    second.sort();
    assert_eq!(first, second);
    assert_eq!(first, vec!["b1".to_string(), "b2".to_string()]);
}

#[test]
fn repeated_saves_never_duplicate_a_key() {
    let mut db = temp_db();
    let mut si = temp_index();
    for i in 0..5 {
        save(&mut db, &mut si, &note("dup", "dup", &format!("shared edit {}", i), &[]));
    }
    assert_eq!(search_notes(&si, "shared").unwrap(), vec!["dup".to_string()]);
}

#[test]
fn ids_keep_counting_between_other_writes() {
    let mut db = temp_db();
    let mut si = temp_index();
    let mut ids = Vec::new();
    for i in 0..4 {
        ids.push(get_next_task_id(&mut db).unwrap());
        save(&mut db, &mut si, &note(&format!("n{}", i), "t", "c", &[]));
    }
    assert_eq!(ids, vec![1, 2, 3, 4]);
}

#[test]
fn reset_counter_starts_again_at_one() {
    let mut db = temp_db();
    get_next_task_id(&mut db).unwrap();
    get_next_task_id(&mut db).unwrap();
    reset_task_counter(&mut db).unwrap();
    assert_eq!(get_next_task_id(&mut db).unwrap(), 1);
}

#[test]
fn damaged_counter_is_a_database_error() {
    let mut db = temp_db();
    db.insert("__counter__/tasks", "abc").unwrap();
    assert!(matches!(get_next_task_id(&mut db), Err(AppError::Database(_))));
}

#[test]
fn last_id_is_issued_once_then_refused() {
    let mut db = temp_db();
    db.insert("__counter__/tasks", &(u64::MAX - 1).to_le_bytes()).unwrap();
    assert_eq!(get_next_task_id(&mut db).unwrap(), u64::MAX);
    assert!(matches!(get_next_task_id(&mut db), Err(AppError::Database(_))));
    assert!(matches!(get_next_task_id(&mut db), Err(AppError::Database(_))));
}

#[test]
fn reserved_and_overlong_keys_are_refused() {
    let mut db = temp_db();
    let mut si = temp_index();
    for key in ["tasks/7", "__counter__/tasks"] {
        let n = note(key, "t", "reserved words", &[]);
        assert!(matches!(
            save_note_with_index(&mut db, &n, &record_of(&n), &mut si),
            Err(AppError::InvalidKey(_))
        ));
    }
    let long = "k".repeat(65531);
    let n = note(&long, "t", "long words", &[]);
    assert!(matches!(save_note_with_index(&mut db, &n, &record_of(&n), &mut si), Err(AppError::InvalidKey(_))));
    assert!(get_next_task_id(&mut db).unwrap() == 1);
    assert!(search_notes(&si, "words").unwrap().is_empty());
}

#[test]
fn schema_without_a_whole_key_field_is_refused() {
    let mut b = Schema::builder();
    b.add_text_field("key", TEXT | STORED);
    b.add_text_field("title", TEXT | STORED);
    b.add_text_field("content", TEXT | STORED);
    b.add_text_field("tags", TEXT | STORED);
    let index = tantivy::Index::create_in_ram(b.build());
    assert!(matches!(SearchIndex::new(index), Err(AppError::Search(_))));
    let mut b = Schema::builder();
    b.add_text_field("key", STRING | STORED);
    let index = tantivy::Index::create_in_ram(b.build());
    assert!(matches!(SearchIndex::new(index), Err(AppError::Tantivy(_))));
}

#[test]
fn imported_notes_are_searchable_and_kept_unless_overwritten() {
    let mut db = temp_db();
    let mut si = temp_index();
    let n = note("imp", "imp", "imported text", &[]);
    assert!(import_note(&mut db, &n, &record_of(&n), false, &mut si).unwrap());
    assert_eq!(search_notes(&si, "imported").unwrap(), vec!["imp".to_string()]);
    let m = note("imp", "imp", "replacement", &[]);
    assert!(!import_note(&mut db, &m, &record_of(&m), false, &mut si).unwrap());
    assert_eq!(search_notes(&si, "imported").unwrap(), vec!["imp".to_string()]);
    assert!(import_note(&mut db, &m, &record_of(&m), true, &mut si).unwrap());
    assert!(search_notes(&si, "imported").unwrap().is_empty());
    assert_eq!(search_notes(&si, "replacement").unwrap(), vec!["imp".to_string()]);
}

#[test]
fn malformed_query_is_an_index_error() {
    let mut db = temp_db();
    let mut si = temp_index();
    save(&mut db, &mut si, &note("q", "q", "text", &[]));
    assert!(matches!(search_notes(&si, "nosuchfield:xyz"), Err(AppError::Tantivy(_))));
}

#[test]
fn search_returns_at_most_ten_keys() {
    let mut db = temp_db();
    let mut si = temp_index();
    for i in 0..12 {
        save(&mut db, &mut si, &note(&format!("m{}", i), "t", "many", &[]));
    }
    assert_eq!(search_notes(&si, "many").unwrap().len(), 10);
}

#[test]
fn tags_are_searchable() {
    let mut db = temp_db();
    let mut si = temp_index();
    save(&mut db, &mut si, &note("t1", "t", "c", &["gardening", "home"]));
    assert_eq!(search_notes(&si, "gardening").unwrap(), vec!["t1".to_string()]);
}

#[test]
fn create_refuses_an_existing_key() {
    let mut db = temp_db();
    let mut si = temp_index();
    let n = note("same", "same", "first", &[]);
    create_note(&mut db, &n, &record_of(&n), &mut si).unwrap();
    let again = note("same", "same", "second", &[]);
    match create_note(&mut db, &again, &record_of(&again), &mut si) {
        Err(AppError::KeyExists(k)) => assert_eq!(k, "same"),
        other => panic!("unexpected: {:?}", other),
    }
    assert_eq!(search_notes(&si, "first").unwrap(), vec!["same".to_string()]);
}

#[test]
fn task_ids_need_an_existing_note() {
    let mut db = temp_db();
    assert!(matches!(reserve_task_id(&mut db, "nope"), Err(AppError::KeyNotFound(_))));
    let n = note("host", "h", "c", &[]);
    save_note(&mut db, &n, &record_of(&n)).unwrap();
    assert_eq!(reserve_task_id(&mut db, "host").unwrap(), 1);
}

#[test]
fn tasks_are_stored_under_their_id_and_deleted() {
    let mut db = temp_db();
    let task = Task {
        id: 12,
        note_key: "host".to_string(),
        description: "do it".to_string(),
        status: TaskStatus::Open,
        created_at: stamp(5),
    };
    save_task(&mut db, &task, &b"{}".to_vec()).unwrap();
    let tasks = get_all_tasks(&db).unwrap();
    assert_eq!(tasks.len(), 1);
    assert_eq!(tasks[0].0, b"tasks/12".to_vec());
    delete_task(&mut db, 12).unwrap();
    assert!(get_all_tasks(&db).unwrap().is_empty());
    assert!(matches!(delete_task(&mut db, 12), Err(AppError::TaskNotFound(12))));
}

#[test]
fn deleting_all_tasks_counts_them_and_keeps_notes() {
    let mut db = temp_db();
    let n = note("keep", "k", "c", &[]);
    save_note(&mut db, &n, &record_of(&n)).unwrap();
    for id in [1u64, 2, 30] {
        let t = Task {
            id,
            note_key: "keep".to_string(),
            description: "d".to_string(),
            status: TaskStatus::Open,
            created_at: stamp(1),
        };
        save_task(&mut db, &t, &b"{}".to_vec()).unwrap();
    }
    assert_eq!(medi::db::delete_all_tasks(&mut db).unwrap(), 3);
    assert!(get_all_tasks(&db).unwrap().is_empty());
    assert_eq!(get_all_notes(&db).unwrap().len(), 1);
}
