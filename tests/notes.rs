use medi::error::AppError;
use medi::note::{Note, Task, TaskStatus, Timestamp};
use medi::cli::SortBy;
use medi::notes::{
    add_tags, backlinks, edit_content, edit_tags, find_task, key_order, new_note,
    remove_tags, select_all_tags, select_any_tag, sort_notes, task_counts,
};
use medi::text::{
    calculate_reading_time, count_words, format_tags, is_blank, join_painted_tags, same_trimmed,
};

fn stamp(secs: i64) -> Timestamp {
    Timestamp { secs, nanos: 0 }
}

fn strings(v: &[&str]) -> Vec<String> {
    v.iter().map(|s| s.to_string()).collect()
}

fn note(key: &str, tags: &[&str]) -> Note {
    Note {
        key: key.to_string(),
        title: key.to_string(),
        tags: strings(tags),
        content: "content".to_string(),
        created_at: stamp(10),
        modified_at: stamp(10),
    }
}

fn task(id: u64, status: TaskStatus) -> Task {
    Task {
        id,
        note_key: "n".to_string(),
        description: "d".to_string(),
        status,
        created_at: stamp(1),
    }
}

#[test]
fn words_are_counted_across_any_whitespace() {
    assert_eq!(count_words(""), 0);
    assert_eq!(count_words("   "), 0);
    assert_eq!(count_words("one"), 1);
    assert_eq!(count_words("  two words\t\nand\u{3000}four "), 4);
}

#[test]
fn reading_time_rounds_up_per_225_words() {
    assert_eq!(calculate_reading_time(0), 0);
    assert_eq!(calculate_reading_time(1), 1);
    assert_eq!(calculate_reading_time(225), 1);
    assert_eq!(calculate_reading_time(226), 2);
    assert_eq!(calculate_reading_time(450), 2);
}

#[test]
fn tags_are_shown_hashed_in_brackets() {
    assert_eq!(format_tags(&Vec::new()), "");
    let shown = format_tags(&strings(&["rust", "cli"]));
    let coloured = " [\u{1b}[36m#rust\u{1b}[0m \u{1b}[36m#cli\u{1b}[0m]";
    assert!(shown == " [#rust #cli]" || shown == coloured, "{:?}", shown);
    assert_eq!(join_painted_tags(&strings(&["#a", "#b", "#c"])), " [#a #b #c]");
}

#[test]
fn blank_text_is_only_whitespace() {
    assert!(is_blank(""));
    assert!(is_blank(" \n\t"));
    assert!(!is_blank(" x "));
}

#[test]
fn new_note_defaults_title_to_key() {
    let n = new_note("k".to_string(), None, strings(&["t"]), "body".to_string(), stamp(3));
    assert_eq!(n.title, "k");
    assert_eq!(n.created_at, stamp(3));
    assert_eq!(n.modified_at, stamp(3));
    let m = new_note("k".to_string(), Some("Title".to_string()), Vec::new(), "b".to_string(), stamp(3));
    assert_eq!(m.title, "Title");
}

#[test]
fn adding_tags_skips_those_already_there() {
    let mut n = note("k", &["initial"]);
    assert!(add_tags(&mut n, &strings(&["added1", "initial", "added2", "added1"])));
    assert_eq!(n.tags, strings(&["initial", "added1", "added2"]));
    assert!(!add_tags(&mut n, &strings(&["initial"])));
}

#[test]
fn removing_tags_keeps_the_others_in_order() {
    let mut n = note("k", &["a", "b", "c", "b"]);
    assert!(remove_tags(&mut n, &strings(&["b", "zz"])));
    assert_eq!(n.tags, strings(&["a", "c"]));
    assert!(!remove_tags(&mut n, &strings(&["zz"])));
}

#[test]
fn tag_edit_marks_the_note_modified_only_on_change() {
    let mut n = note("k", &["initial"]);
    assert!(edit_tags(&mut n, &strings(&["added1", "added2"]), &Vec::new(), stamp(20)));
    assert_eq!(n.tags, strings(&["initial", "added1", "added2"]));
    assert_eq!(n.modified_at, stamp(20));
    assert!(edit_tags(&mut n, &Vec::new(), &strings(&["initial", "added2"]), stamp(30)));
    assert_eq!(n.tags, strings(&["added1"]));
    assert!(!edit_tags(&mut n, &strings(&["added1"]), &strings(&["other"]), stamp(40)));
    assert_eq!(n.modified_at, stamp(30));
    assert_eq!(n.created_at, stamp(10));
}

#[test]
fn content_edits_keep_created_at_and_advance_modified_at() {
    let mut n = note("k", &[]);
    assert!(edit_content(&mut n, "first edit".to_string(), stamp(11)));
    assert!(edit_content(&mut n, "second edit".to_string(), stamp(12)));
    assert_eq!(n.created_at, stamp(10));
    assert_eq!(n.modified_at, stamp(12));
    assert_eq!(n.content, "second edit");
}

#[test]
fn content_edit_ignores_surrounding_whitespace() {
    let mut n = note("k", &[]);
    assert!(!edit_content(&mut n, "  content\n".to_string(), stamp(50)));
    assert_eq!(n.content, "content");
    assert_eq!(n.modified_at, stamp(10));
    assert!(same_trimmed(" a b ", "a b\n"));
    assert!(!same_trimmed("a b", "a  b"));
    assert!(same_trimmed("  ", ""));
}

#[test]
fn notes_are_selected_by_any_tag() {
    let notes = vec![
        note("note1", &["project-alpha"]),
        note("note2", &["project-bravo"]),
        note("note3", &["project-alpha", "x"]),
    ];
    assert_eq!(select_any_tag(&notes, &strings(&["project-alpha"])), vec![0, 2]);
    assert_eq!(select_any_tag(&notes, &strings(&["x", "project-bravo"])), vec![1, 2]);
    assert!(select_any_tag(&notes, &Vec::new()).is_empty());
}

#[test]
fn export_selects_notes_with_every_tag() {
    let notes = vec![note("a", &["t1", "t2"]), note("b", &["t1"]), note("c", &[])];
    assert_eq!(select_all_tags(&notes, &strings(&["t1", "t2"])), vec![0]);
    assert_eq!(select_all_tags(&notes, &strings(&["t1"])), vec![0, 1]);
    assert_eq!(select_all_tags(&notes, &Vec::new()), vec![0, 1, 2]);
}

#[test]
fn tasks_are_found_by_id() {
    let tasks = vec![task(1, TaskStatus::Open), task(2, TaskStatus::Prio)];
    assert_eq!(find_task(&tasks, 2).unwrap(), 1);
    assert!(matches!(find_task(&tasks, 9), Err(AppError::TaskNotFound(9))));
}

#[test]
fn task_counts_split_open_and_priority() {
    let tasks = vec![
        task(1, TaskStatus::Open),
        task(2, TaskStatus::Prio),
        task(3, TaskStatus::Done),
        task(4, TaskStatus::Prio),
    ];
    assert_eq!(task_counts(&tasks), (3, 2));
    assert_eq!(task_counts(&Vec::new()), (0, 0));
}

fn dated(key: &str, created: i64, modified: i64) -> Note {
    let mut n = note(key, &[]);
    n.created_at = stamp(created);
    n.modified_at = stamp(modified);
    n
}

#[test]
fn notes_sort_by_key_ascending() {
    let notes = vec![dated("b-note", 1, 1), dated("a-note", 2, 2), dated("c", 3, 3)];
    assert_eq!(sort_notes(&notes, SortBy::Key), vec![1, 0, 2]);
    assert_eq!(sort_notes(&Vec::new(), SortBy::Key), Vec::<usize>::new());
}

#[test]
fn notes_sort_newest_first_by_time() {
    let notes = vec![dated("x", 5, 7), dated("y", 9, 6), dated("z", 1, 8)];
    assert_eq!(sort_notes(&notes, SortBy::Created), vec![1, 0, 2]);
    assert_eq!(sort_notes(&notes, SortBy::Modified), vec![2, 0, 1]);
}

#[test]
fn key_order_is_character_order() {
    assert!(key_order("a", "b"));
    assert!(key_order("ab", "abc"));
    assert!(!key_order("abc", "ab"));
    assert!(key_order("same", "same"));
    assert!(key_order("Z", "a"));
}

#[test]
fn backlinks_find_linking_notes_but_not_the_note_itself() {
    let mut a = note("a", &[]);
    a.content = "see [[target]] here".to_string();
    let mut b = note("b", &[]);
    b.content = "no link to target".to_string();
    let mut t = note("target", &[]);
    t.content = "I am [[target]]".to_string();
    let mut c = note("c", &[]);
    c.content = "[[target]]".to_string();
    let notes = vec![a, b, t, c];
    assert_eq!(backlinks(&notes, "target").unwrap(), vec![0, 3]);
    assert!(backlinks(&notes, "b").unwrap().is_empty());
    let mut d = note("d", &[]);
    d.content = "[[a.b]] and [[axb]]".to_string();
    let dotted = vec![note("axb", &[]), d];
    assert_eq!(backlinks(&dotted, "a.b").unwrap(), vec![1]);
    assert_eq!(backlinks(&dotted, "a+b").unwrap(), Vec::<usize>::new());
}

#[test]
fn store_dir_prefers_the_environment() {
    let config = medi::cli::Config { db_path: Some("/data/db".to_string()), default_export_dir: None };
    assert_eq!(config.store_dir(Some("/env/db".to_string())), Some("/env/db".to_string()));
    assert_eq!(config.store_dir(None), Some("/data/db".to_string()));
    let empty = medi::cli::Config { db_path: None, default_export_dir: None };
    assert_eq!(empty.store_dir(None), None);
}
