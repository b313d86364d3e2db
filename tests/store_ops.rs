use dirtodo::dir_map::{find_entry, DirMapEntry};
use dirtodo::hasher::file_token;
use dirtodo::record::{Status, TodoError, TodoRecord};
use dirtodo::store::{
    create_in_records, create_new_todo, delete_todo, mark_active, mark_done, next_id,
    update_todo, CreateOutcome, DeleteOutcome, NewTodo,
};
use dirtodo::codec::serialize_records;

fn rec(id: u64, text: &str, status: Status) -> TodoRecord {
    TodoRecord::new(id, text.to_string(), status)
}

fn ids(rs: &[TodoRecord]) -> Vec<u64> {
    rs.iter().map(|r| r.id).collect()
}

fn texts(rs: &[TodoRecord]) -> Vec<String> {
    rs.iter().map(|r| r.text.clone()).collect()
}

#[test]
fn create_same_text_twice_keeps_one_record() {
    let mut dir_map: Vec<DirMapEntry> = Vec::new();
    let mut records: Vec<TodoRecord> = Vec::new();
    let todo = NewTodo { text: "buy milk".to_string() };
    let first = create_new_todo(&todo, "/home/u/p", &mut dir_map, &mut records);
    assert_eq!(first, Ok(CreateOutcome::Added(0)));
    let second = create_new_todo(&todo, "/home/u/p", &mut dir_map, &mut records);
    assert_eq!(second, Ok(CreateOutcome::Duplicate(0)));
    assert_eq!(records.len(), 1);
    assert_eq!(dir_map.len(), 1);
}

#[test]
fn create_reports_existing_id_of_duplicate() {
    let mut records = vec![rec(0, "a", Status::Active), rec(3, "b", Status::Done)];
    assert_eq!(create_in_records(&mut records, "b"), Ok(CreateOutcome::Duplicate(3)));
    assert_eq!(records.len(), 2);
}

#[test]
fn first_create_in_new_directory_gets_id_zero_and_entry() {
    let mut dir_map: Vec<DirMapEntry> = Vec::new();
    let mut records: Vec<TodoRecord> = Vec::new();
    let todo = NewTodo { text: "x".to_string() };
    let r = create_new_todo(&todo, "/tmp/work", &mut dir_map, &mut records);
    assert_eq!(r, Ok(CreateOutcome::Added(0)));
    assert_eq!(dir_map.len(), 1);
    assert_eq!(dir_map[0].directory_path, "/tmp/work");
    assert_eq!(dir_map[0].file_token, file_token("/tmp/work"));
    assert_eq!(ids(&records), vec![0]);
    assert_eq!(records[0].status, Status::Active);
}

#[test]
fn create_ids_follow_the_largest_despite_gaps() {
    let mut records = vec![rec(0, "a", Status::Active), rec(7, "b", Status::Done), rec(2, "c", Status::Active)];
    assert_eq!(create_in_records(&mut records, "d"), Ok(CreateOutcome::Added(8)));
    assert_eq!(create_in_records(&mut records, "e"), Ok(CreateOutcome::Added(9)));
    assert_eq!(ids(&records), vec![0, 7, 2, 8, 9]);
}

#[test]
fn create_in_empty_list_starts_at_zero() {
    let mut records: Vec<TodoRecord> = Vec::new();
    assert_eq!(next_id(&records), Some(0));
    assert_eq!(create_in_records(&mut records, "first"), Ok(CreateOutcome::Added(0)));
    assert_eq!(create_in_records(&mut records, "second"), Ok(CreateOutcome::Added(1)));
}

#[test]
fn create_with_largest_id_taken_is_refused() {
    let mut records = vec![rec(u64::MAX, "a", Status::Active)];
    assert_eq!(next_id(&records), None);
    assert_eq!(create_in_records(&mut records, "b"), Err(TodoError::IdsExhausted));
    assert_eq!(records.len(), 1);
}

#[test]
fn create_rejects_tab_and_newline_without_entry() {
    for bad in ["a\tb", "a\nb"] {
        let mut dir_map: Vec<DirMapEntry> = Vec::new();
        let mut records: Vec<TodoRecord> = Vec::new();
        let todo = NewTodo { text: bad.to_string() };
        let r = create_new_todo(&todo, "/home/u/p", &mut dir_map, &mut records);
        assert_eq!(r, Err(TodoError::InvalidText));
        assert!(dir_map.is_empty());
        assert!(records.is_empty());
    }
}

#[test]
fn create_rejects_delimiters_in_existing_directory() {
    let mut dir_map = vec![DirMapEntry {
        directory_path: "/p".to_string(),
        file_token: "1.tsv".to_string(),
    }];
    let mut records = vec![rec(0, "a", Status::Active)];
    let before = serialize_records(&records);
    let todo = NewTodo { text: "a\nb".to_string() };
    assert_eq!(create_new_todo(&todo, "/p", &mut dir_map, &mut records), Err(TodoError::InvalidText));
    assert_eq!(serialize_records(&records), before);
    assert_eq!(dir_map.len(), 1);
}

#[test]
fn create_in_known_directory_appends() {
    let mut dir_map = vec![
        DirMapEntry { directory_path: "/q".to_string(), file_token: "9.tsv".to_string() },
        DirMapEntry { directory_path: "/p".to_string(), file_token: "1.tsv".to_string() },
    ];
    assert_eq!(find_entry(&dir_map, "/p"), Some(1));
    let mut records = vec![rec(0, "a", Status::Done)];
    let todo = NewTodo { text: "b".to_string() };
    assert_eq!(create_new_todo(&todo, "/p", &mut dir_map, &mut records), Ok(CreateOutcome::Added(1)));
    assert_eq!(dir_map.len(), 2);
    assert_eq!(texts(&records), vec!["a", "b"]);
}

#[test]
fn update_keeps_id_status_and_other_lines() {
    let mut records = vec![
        rec(0, "a", Status::Active),
        rec(1, "b", Status::Done),
        rec(2, "c", Status::Active),
    ];
    let before = serialize_records(&records);
    assert_eq!(update_todo(&mut records, 1, "bee"), Ok(()));
    let after = serialize_records(&records);
    let old_lines: Vec<&str> = before.lines().collect();
    let new_lines: Vec<&str> = after.lines().collect();
    assert_eq!(old_lines[0], new_lines[0]);
    assert_eq!(old_lines[2], new_lines[2]);
    assert_eq!(new_lines[1], "1\tbee\t[\u{2713}]");
    assert_eq!(records[1].status, Status::Done);
}

#[test]
fn update_missing_id_or_bad_text_changes_nothing() {
    let mut records = vec![rec(0, "a", Status::Active)];
    assert_eq!(update_todo(&mut records, 5, "z"), Err(TodoError::NoRecordAtId));
    assert_eq!(update_todo(&mut records, 0, "z\tz"), Err(TodoError::InvalidText));
    assert_eq!(texts(&records), vec!["a"]);
}

#[test]
fn mark_done_and_active_change_only_status() {
    let mut records = vec![rec(0, "a", Status::Active), rec(1, "b", Status::Active)];
    assert_eq!(mark_done(&mut records, 1), Ok(()));
    assert_eq!(records[1].status, Status::Done);
    assert_eq!(records[0].status, Status::Active);
    assert_eq!(mark_active(&mut records, 1), Ok(()));
    assert_eq!(records[1].status, Status::Active);
    assert_eq!(mark_done(&mut records, 9), Err(TodoError::NoRecordAtId));
    assert_eq!(texts(&records), vec!["a", "b"]);
}

#[test]
fn delete_done_record_renumbers_contiguously() {
    let mut records = vec![
        rec(0, "a", Status::Active),
        rec(1, "b", Status::Done),
        rec(2, "c", Status::Active),
        rec(3, "d", Status::Done),
    ];
    assert_eq!(delete_todo(&mut records, 1, false), DeleteOutcome::Deleted);
    assert_eq!(ids(&records), vec![0, 1, 2]);
    assert_eq!(texts(&records), vec!["a", "c", "d"]);
    assert_eq!(records[1].status, Status::Active);
    assert_eq!(records[2].status, Status::Done);
}

#[test]
fn delete_active_record_asks_first() {
    let mut records = vec![rec(0, "a", Status::Done), rec(1, "b", Status::Active), rec(2, "c", Status::Done)];
    let before = serialize_records(&records);
    assert_eq!(delete_todo(&mut records, 1, false), DeleteOutcome::NeedsConfirmation);
    assert_eq!(serialize_records(&records), before);
    assert_eq!(delete_todo(&mut records, 1, true), DeleteOutcome::Deleted);
    assert_eq!(ids(&records), vec![0, 1]);
    assert_eq!(texts(&records), vec!["a", "c"]);
}

#[test]
fn delete_missing_id_is_not_found() {
    let mut records = vec![rec(0, "a", Status::Done), rec(4, "b", Status::Done)];
    assert_eq!(delete_todo(&mut records, 2, true), DeleteOutcome::NotFound);
    assert_eq!(ids(&records), vec![0, 4]);
}

#[test]
fn delete_from_long_list_keeps_order() {
    let mut records: Vec<TodoRecord> = (0..30u64).map(|i| rec(i, &format!("t{i}"), Status::Done)).collect();
    assert_eq!(delete_todo(&mut records, 0, false), DeleteOutcome::Deleted);
    assert_eq!(ids(&records), (0..29u64).collect::<Vec<_>>());
    assert_eq!(records[0].text, "t1");
    assert_eq!(records[28].text, "t29");
}

#[test]
fn update_replaces_long_text_exactly() {
    let mut records = vec![rec(0, "a much longer text", Status::Active)];
    assert_eq!(update_todo(&mut records, 0, "x"), Ok(()));
    assert_eq!(serialize_records(&records), "0\tx\t[ ]\n");
}

#[test]
fn update_with_shared_id_changes_first_only() {
    let mut records = vec![rec(2, "a", Status::Active), rec(2, "b", Status::Done)];
    assert_eq!(update_todo(&mut records, 2, "z"), Ok(()));
    assert_eq!(texts(&records), vec!["z", "b"]);
    assert_eq!(records[1].status, Status::Done);
}
