use clis::cdt::timeline::{format_event, format_timeline, format_timestamp, merge_events, Event, EventKind};


fn make_event(ts: u64, workspace: &str, kind: EventKind, msg: &str) -> Event {
    Event {
        timestamp: ts,
        workspace: workspace.to_string(),
        kind,
        message: msg.to_string(),
    }
}

#[test]
fn merge_events_sorts_newest_first() {
    let events = vec![
        make_event(1000, "proj/alpha", EventKind::Commit, "old commit"),
        make_event(3000, "proj/beta", EventKind::Commit, "newest"),
        make_event(2000, "proj/alpha", EventKind::Commit, "middle"),
    ];

    let merged = merge_events(events);
    assert_eq!(merged[0].timestamp, 3000);
    assert_eq!(merged[1].timestamp, 2000);
    assert_eq!(merged[2].timestamp, 1000);
}

#[test]
fn merge_events_empty() {
    let merged = merge_events(vec![]);
    assert!(merged.is_empty());
}

#[test]
fn merge_events_single() {
    let events = vec![make_event(1000, "proj/a", EventKind::Commit, "only one")];
    let merged = merge_events(events.clone());
    assert_eq!(merged.len(), 1);
    assert_eq!(merged[0], events[0]);
}

#[test]
fn merge_events_preserves_different_workspaces_at_same_time() {
    let events = vec![
        make_event(1000, "proj/a", EventKind::Commit, "first"),
        make_event(1000, "proj/b", EventKind::Commit, "second"),
    ];

    let merged = merge_events(events);
    assert_eq!(merged.len(), 2);
    // Both at same timestamp — order is stable
}

#[test]
fn format_event_commit() {
    let event = make_event(1700000000, "my-app/london", EventKind::Commit, "Add JWT refresh");
    let line = format_event(&event);
    assert!(line.contains("my-app/london"));
    assert!(line.contains("●"));
    assert!(line.contains("Add JWT refresh"));
}

#[test]
fn format_event_worktree_created() {
    let event = make_event(1700000000, "my-app/berlin", EventKind::WorktreeCreated, "created worktree (branch: fix-typo)");
    let line = format_event(&event);
    assert!(line.contains("my-app/berlin"));
    assert!(line.contains("◆"));
    assert!(line.contains("created worktree"));
}

#[test]
fn format_timeline_respects_limit() {
    let events = vec![
        make_event(3000, "proj/a", EventKind::Commit, "third"),
        make_event(2000, "proj/b", EventKind::Commit, "second"),
        make_event(1000, "proj/c", EventKind::Commit, "first"),
    ];

    let output = format_timeline(&events, 2);
    let lines: Vec<&str> = output.lines().collect();
    assert_eq!(lines.len(), 2);
}

#[test]
fn format_timeline_empty() {
    let output = format_timeline(&[], 10);
    assert!(output.is_empty());
}

#[test]
fn format_timeline_limit_exceeds_count() {
    let events = vec![
        make_event(2000, "proj/a", EventKind::Commit, "only"),
    ];

    let output = format_timeline(&events, 100);
    let lines: Vec<&str> = output.lines().collect();
    assert_eq!(lines.len(), 1);
}

#[test]
fn event_kind_icons_are_distinct() {
    let commit = format_event(&make_event(1000, "p/a", EventKind::Commit, "msg"));
    let created = format_event(&make_event(1000, "p/a", EventKind::WorktreeCreated, "msg"));
    assert!(commit.contains("●"));
    assert!(created.contains("◆"));
    assert!(!commit.contains("◆"));
    assert!(!created.contains("●"));
}

#[test]
fn format_timestamp_shapes() {
    let now = std::time::SystemTime::now()
        .duration_since(std::time::UNIX_EPOCH)
        .unwrap()
        .as_secs();
    let recent = format_timestamp(now);
    let r: Vec<char> = recent.chars().collect();
    assert_eq!(r.len(), 5);
    assert_eq!(r[2], ':');
    let old = format_timestamp(now - 10 * 86400);
    let o: Vec<char> = old.chars().collect();
    assert_eq!(o.len(), 12);
    assert_eq!(o[3], ' ');
    assert_eq!(o[6], ' ');
    assert_eq!(o[9], ':');
}

#[test]
fn clock_format_by_calendar_day() {
    use_clock_format();
}

fn use_clock_format() {
    assert_eq!(clis::cdt::timeline::clock_format_for(Some(739000), Some(739000)), "%H:%M");
    assert_eq!(clis::cdt::timeline::clock_format_for(Some(738999), Some(739000)), "%b %d %H:%M");
    assert_eq!(clis::cdt::timeline::clock_format_for(None, Some(739000)), "%b %d %H:%M");
}
