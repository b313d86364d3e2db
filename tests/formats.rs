use dirtodo::codec::{parse_line, parse_records, serialize_records};
use dirtodo::decimal::{decimal_chars, parse_decimal};
use dirtodo::dir_map::{dir_map_entries, find_entry, serialize_dir_map, DirMapEntry};
use dirtodo::hasher::{calculate_hash, file_token, token_of_hash};
use dirtodo::listing::{list_todos_all, write_heading, write_todos_in_file, ListedDir};
use dirtodo::paths::{with_pushed, StorageContext};
use dirtodo::record::{Status, TodoError, TodoRecord};
use dirtodo::store::NewTodo;
use dirtodo::text::reject_nl_and_tab;

fn chars(s: &str) -> Vec<char> {
    s.chars().collect()
}

#[test]
fn records_round_trip() {
    let records = vec![
        TodoRecord::new(0, "write tests".to_string(), Status::Active),
        TodoRecord::new(12, "caf\u{e9} [x]: ok".to_string(), Status::Done),
        TodoRecord::new(u64::MAX, String::new(), Status::Active),
    ];
    let text = serialize_records(&records);
    let back = parse_records(&text).unwrap();
    assert_eq!(back.len(), 3);
    for (a, b) in records.iter().zip(back.iter()) {
        assert_eq!(a.id, b.id);
        assert_eq!(a.text, b.text);
        assert_eq!(a.status, b.status);
    }
}

#[test]
fn serialized_format_is_tab_separated() {
    let records = vec![
        TodoRecord::new(3, "a".to_string(), Status::Active),
        TodoRecord::new(10, "b c".to_string(), Status::Done),
    ];
    assert_eq!(serialize_records(&records), "3\ta\t[ ]\n10\tb c\t[\u{2713}]\n");
    assert_eq!(serialize_records(&Vec::new()), "");
}

#[test]
fn malformed_record_files_are_refused() {
    for bad in ["x\ta\t[ ]\n", "0\ta\n", "0\ta\t[?]\n", "\n", "99999999999999999999\ta\t[ ]\n"] {
        assert_eq!(parse_records(bad).err(), Some(TodoError::MalformedRecordFile), "{bad:?}");
    }
    assert_eq!(parse_records("").unwrap().len(), 0);
}

#[test]
fn leading_zeros_read_as_the_number() {
    let rs = parse_records("007\tx\t[ ]\n").unwrap();
    assert_eq!(rs[0].id, 7);
    assert!(parse_line(&chars("1\t\t[ ]")).is_some());
}

#[test]
fn decimal_digits_and_parsing() {
    assert_eq!(decimal_chars(0), vec!['0']);
    assert_eq!(decimal_chars(1234).into_iter().collect::<String>(), "1234");
    assert_eq!(decimal_chars(u64::MAX).into_iter().collect::<String>(), "18446744073709551615");
    let max = chars("18446744073709551615");
    assert_eq!(parse_decimal(&max, 0, max.len()), Some(u64::MAX));
    let over = chars("18446744073709551616");
    assert_eq!(parse_decimal(&over, 0, over.len()), None);
    let mixed = chars("12a");
    assert_eq!(parse_decimal(&mixed, 0, 3), None);
    assert_eq!(parse_decimal(&mixed, 0, 2), Some(12));
    assert_eq!(parse_decimal(&mixed, 1, 1), None);
}

#[test]
fn tabs_and_newlines_are_rejected() {
    assert!(reject_nl_and_tab("a\tb"));
    assert!(reject_nl_and_tab("a\nb"));
    assert!(!reject_nl_and_tab("a b"));
    assert!(!reject_nl_and_tab(""));
}

#[test]
fn new_todo_writes_active_line() {
    let todo = NewTodo { text: "call bob".to_string() };
    let mut buf = String::from("0\tx\t[ ]\n");
    todo.io_write_as_active(&mut buf, 5);
    assert_eq!(buf, "0\tx\t[ ]\n5\tcall bob\t[ ]\n");
}

#[test]
fn dir_map_reads_and_writes() {
    let text = "/home/a\t1.tsv\n/home/b\t2.tsv\n";
    let entries = dir_map_entries(text).unwrap();
    assert_eq!(entries.len(), 2);
    assert_eq!(entries[1].directory_path, "/home/b");
    assert_eq!(entries[1].file_token, "2.tsv");
    assert_eq!(find_entry(&entries, "/home/b"), Some(1));
    assert_eq!(find_entry(&entries, "/home/b/"), None);
    assert_eq!(serialize_dir_map(&entries), text);
    assert_eq!(dir_map_entries("").unwrap().len(), 0);
}

#[test]
fn dir_map_first_match_wins() {
    let entries = vec![
        DirMapEntry { directory_path: "/x".to_string(), file_token: "1.tsv".to_string() },
        DirMapEntry { directory_path: "/x".to_string(), file_token: "2.tsv".to_string() },
    ];
    assert_eq!(find_entry(&entries, "/x"), Some(0));
}

#[test]
fn malformed_dir_maps_are_refused() {
    for bad in ["/home/a\n", "/home/a", "/h\t1.tsv\n\n"] {
        assert_eq!(dir_map_entries(bad).err(), Some(TodoError::MalformedDirMap), "{bad:?}");
    }
}

#[test]
fn tokens_come_from_the_path_hash() {
    assert_eq!(token_of_hash(42), "42.tsv");
    assert_eq!(token_of_hash(0), "0.tsv");
    let h = calculate_hash("/home/u/project");
    assert_eq!(h, calculate_hash("/home/u/project"));
    assert_ne!(h, calculate_hash("/home/u/other"));
    assert_eq!(file_token("/home/u/project"), format!("{h}.tsv"));
}

#[test]
fn listing_shows_each_record() {
    let mut out = String::new();
    write_heading(&mut out, "/p");
    assert_eq!(write_todos_in_file(&mut out, "0\ta\t[ ]\n4\tb\t[\u{2713}]\n"), Ok(()));
    assert_eq!(out, "\nTodo: \"/p\"\n0 - [ ]: a\n4 - [\u{2713}]: b\n");
    let mut untouched = String::from("keep");
    assert_eq!(write_todos_in_file(&mut untouched, "junk"), Err(TodoError::MalformedRecordFile));
    assert_eq!(untouched, "keep");
}

#[test]
fn paths_join_under_the_root() {
    let ctx = StorageContext::under_home("/home/u");
    assert_eq!(ctx.root, "/home/u/todo");
    assert_eq!(ctx.dir_map_path(), "/home/u/todo/dirmap.tsv");
    assert_eq!(ctx.dir_map_new_path(), "/home/u/todo/dirmap.new.tsv");
    assert_eq!(ctx.record_path("5.tsv"), "/home/u/todo/5.tsv");
    let mut buf = String::from("/root");
    let seen = with_pushed(&mut buf, "x.tsv", |p| p.to_string());
    assert_eq!(seen, "/root/x.tsv");
    assert_eq!(buf, "/root");
}

#[test]
fn record_files_read_like_lines() {
    let rs = parse_records("0\ta\t[ ]\r\n1\tb\t[\u{2713}]").unwrap();
    assert_eq!(rs.len(), 2);
    assert_eq!(rs[0].text, "a");
    assert_eq!(rs[0].status, Status::Active);
    assert_eq!(rs[1].id, 1);
    assert_eq!(rs[1].status, Status::Done);
    assert_eq!(parse_records("0\ta\t[ ]").unwrap().len(), 1);
}

#[test]
fn dir_map_reads_like_lines() {
    let entries = dir_map_entries("/w\t1.tsv").unwrap();
    assert_eq!(entries.len(), 1);
    assert_eq!(entries[0].directory_path, "/w");
    assert_eq!(entries[0].file_token, "1.tsv");
    let entries = dir_map_entries("/a\t1.tsv\textra\r\n/b\t2.tsv\r\n").unwrap();
    assert_eq!(entries.len(), 2);
    assert_eq!(entries[0].file_token, "1.tsv");
    assert_eq!(entries[1].directory_path, "/b");
    assert_eq!(entries[1].file_token, "2.tsv");
    let entries = dir_map_entries("/c\t\n").unwrap();
    assert_eq!(entries[0].file_token, "");
}

#[test]
fn listing_of_all_directories() {
    let dirs = vec![
        ListedDir { directory_path: "/a".to_string(), contents: Some("0\tx\t[ ]\n".to_string()) },
        ListedDir { directory_path: "/b".to_string(), contents: None },
        ListedDir { directory_path: "/c".to_string(), contents: Some(String::new()) },
    ];
    assert_eq!(
        list_todos_all(&dirs),
        Ok("\nTodo: \"/a\"\n0 - [ ]: x\n\nTodo: \"/b\"\n\nTodo: \"/c\"\n".to_string())
    );
    let bad = vec![ListedDir { directory_path: "/a".to_string(), contents: Some("junk\n".to_string()) }];
    assert_eq!(list_todos_all(&bad), Err(TodoError::MalformedRecordFile));
}
