use clis::rippy::entries::{content_hash, format_entries, truncate, ClipEntry};

fn make_entry(id: i64, content: &str) -> ClipEntry {
    ClipEntry {
        id,
        content: content.to_string(),
        hash: "unused".to_string(),
        timestamp: 1700000000,
        app_name: None,
        pinned: false,
    }
}

#[test]
fn format_entries_plain_empty_shows_message() {
    let output = format_entries(&[], "No entries.");
    assert_eq!(output, "No entries.\n");
}

#[test]
fn format_entries_plain_shows_id_and_content() {
    let entries = vec![make_entry(42, "hello world")];
    let output = format_entries(&entries, "empty");
    assert!(output.contains("42"));
    assert!(output.contains("hello world"));
}

#[test]
fn truncate_short_string() {
    assert_eq!(truncate("short", 80), "short");
}

#[test]
fn truncate_long_string() {
    let long = "a".repeat(100);
    let result = truncate(&long, 10);
    assert!(result.ends_with('…'));
    assert!(result.len() <= 14); // 10 bytes + multibyte ellipsis
}

#[test]
fn truncate_multiline() {
    let result = truncate("first line\nsecond line", 80);
    assert_eq!(result, "first line…");
}

#[test]
fn format_entries_line_layout() {
    let mut e = make_entry(7, "https://example.com\nmore");
    e.pinned = true;
    let output = format_entries(&[e], "empty");
    // pin star, right-aligned id, time, tag label padded to four, first line
    assert!(output.starts_with("★     7 │ "));
    assert!(output.ends_with(" │ url  │ https://example.com…\n"));
}

#[test]
fn format_entries_one_line_per_entry() {
    let entries = vec![make_entry(1, "a"), make_entry(2, "b"), make_entry(3, "c")];
    let output = format_entries(&entries, "empty");
    assert_eq!(output.lines().count(), 3);
    assert!(output.ends_with('\n'));
}

#[test]
fn content_hash_is_sha256_hex() {
    assert_eq!(
        content_hash("hello"),
        "2cf24dba5fb0a30e26e83b2ac5b9e29e1b161e5c1fa7425e73043362938b9824"
    );
    assert_eq!(
        content_hash(""),
        "e3b0c44298fc1c149afbf4c8996fb92427ae41e4649b934ca495991b7852b855"
    );
}

#[test]
fn format_entries_time_column_shape() {
    let out = format_entries(&[make_entry(7, "hello")], "empty");
    let cols: Vec<&str> = out.split(" │ ").collect();
    let time: Vec<char> = cols[1].chars().collect();
    assert_eq!(time.len(), 19);
    assert_eq!(time[4], '-');
    assert_eq!(time[10], ' ');
    assert_eq!(time[13], ':');
}
