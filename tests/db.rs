use medi::db::{delete_note, get_all_notes, get_note, key_exists, save_note};
use medi::error::AppError;
use medi::note::{Note, Timestamp};

fn temp_db() -> sled::Db {
    sled::Config::new().temporary(true).open().unwrap()
}

fn now() -> Timestamp {
    Timestamp { secs: 1_700_000_000, nanos: 0 }
}

fn record_of(note: &Note) -> Vec<u8> {
    let mut m = serde_json::Map::new();
    m.insert("key".to_string(), serde_json::Value::String(note.key.clone()));
    m.insert("title".to_string(), serde_json::Value::String(note.title.clone()));
    let tags = note.tags.iter().map(|t| serde_json::Value::String(t.clone())).collect();
    m.insert("tags".to_string(), serde_json::Value::Array(tags));
    m.insert("content".to_string(), serde_json::Value::String(note.content.clone()));
    serde_json::to_vec(&serde_json::Value::Object(m)).unwrap()
}

fn field(record: &[u8], name: &str) -> serde_json::Value {
    let v: serde_json::Value = serde_json::from_slice(record).unwrap();
    v[name].clone()
}

fn note(key: &str, title: &str, content: &str, tags: &[&str]) -> Note {
    Note {
        key: key.to_string(),
        title: title.to_string(),
        tags: tags.iter().map(|t| t.to_string()).collect(),
        content: content.to_string(),
        created_at: now(),
        modified_at: now(),
    }
}

#[test]
fn test_save_and_get_note_success() {
    let mut db = temp_db();
    let key = "test-key".to_string();
    let new_note = note(&key, "Test Title", "Mock note content", &["testing"]);

    let save_result = save_note(&mut db, &new_note, &record_of(&new_note));
    assert!(save_result.is_ok());

    let retrieved = get_note(&db, &key).unwrap();
    assert_eq!(field(&retrieved, "content"), "Mock note content");
    assert_eq!(field(&retrieved, "tags"), serde_json::Value::Array(vec!["testing".into()]));
}

#[test]
fn test_get_all_notes_success() {
    let mut db = temp_db();
    let note1 = note("note-a", "Note A", "content a", &[]);
    let note2 = note("note-b", "Note B", "content b", &[]);
    save_note(&mut db, &note1, &record_of(&note1)).unwrap();
    save_note(&mut db, &note2, &record_of(&note2)).unwrap();

    let all_notes = get_all_notes(&db).unwrap();

    assert_eq!(all_notes.len(), 2);
    assert!(all_notes.iter().any(|(k, _)| k.as_slice() == b"note-a"));
}

#[test]
fn test_get_all_notes_empty_db() {
    let db = temp_db();
    let all_notes = get_all_notes(&db).unwrap();
    assert!(all_notes.is_empty());
}

#[test]
fn test_delete_note_success() {
    let mut db = sled::Config::new().temporary(true).open().expect("Failed to open temporary db");
    let key = "test-delete-key";
    db.insert(key, "content").unwrap();
    let result = delete_note(&mut db, key);
    assert!(result.is_ok());
    assert!(!db.contains_key(key).unwrap());
}

#[test]
fn test_update_note_success() {
    let mut db = temp_db();
    let key = "my-key".to_string();
    let initial = note(&key, "Original Title", "original content", &[]);
    save_note(&mut db, &initial, &record_of(&initial)).unwrap();

    let mut updated = note(&key, "Updated Title", "updated content", &["updated"]);
    updated.created_at = initial.created_at;
    let result = save_note(&mut db, &updated, &record_of(&updated));
    assert!(result.is_ok());

    let retrieved = get_note(&db, &key).unwrap();
    assert_eq!(field(&retrieved, "content"), "updated content");
    assert_eq!(field(&retrieved, "title"), "Updated Title");
    assert_eq!(field(&retrieved, "tags"), serde_json::Value::Array(vec!["updated".into()]));
}

#[test]
fn get_missing_note_is_key_not_found() {
    let db = temp_db();
    match get_note(&db, "nothing-here") {
        Err(AppError::KeyNotFound(k)) => assert_eq!(k, "nothing-here"),
        other => panic!("unexpected: {:?}", other),
    }
}

#[test]
fn delete_missing_note_is_key_not_found() {
    let mut db = temp_db();
    match delete_note(&mut db, "ghost") {
        Err(AppError::KeyNotFound(k)) => assert_eq!(k, "ghost"),
        other => panic!("unexpected: {:?}", other),
    }
}

#[test]
fn key_exists_follows_saves() {
    let mut db = temp_db();
    assert!(!key_exists(&db, "k").unwrap());
    let n = note("k", "K", "body", &[]);
    save_note(&mut db, &n, &record_of(&n)).unwrap();
    assert!(key_exists(&db, "k").unwrap());
}

#[test]
fn note_listing_is_ordered_and_skips_tasks_and_counter() {
    let mut db = temp_db();
    for k in ["zeta", "alpha", "mid"] {
        let n = note(k, k, "x", &[]);
        save_note(&mut db, &n, &record_of(&n)).unwrap();
    }
    db.insert("tasks/1", "task").unwrap();
    db.insert("__counter__/tasks", &1u64.to_le_bytes()).unwrap();
    let all = get_all_notes(&db).unwrap();
    let keys: Vec<&[u8]> = all.iter().map(|(k, _)| k.as_slice()).collect();
    assert_eq!(keys, vec![b"alpha".as_slice(), b"mid".as_slice(), b"zeta".as_slice()]);
}

#[test]
fn notes_cannot_use_task_or_counter_keys() {
    let mut db = temp_db();
    let n = note("tasks/1", "T", "body", &[]);
    assert!(matches!(save_note(&mut db, &n, &record_of(&n)), Err(AppError::InvalidKey(_))));
    assert!(matches!(get_note(&db, "__counter__/tasks"), Err(AppError::InvalidKey(_))));
    db.insert("tasks/1", "task").unwrap();
    assert!(matches!(delete_note(&mut db, "tasks/1"), Err(AppError::InvalidKey(_))));
    assert!(db.contains_key("tasks/1").unwrap());
}
