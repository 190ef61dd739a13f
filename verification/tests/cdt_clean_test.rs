use clis::cdt::clean::{
    find_candidates, find_merged, find_stale, format_candidate, parse_duration, CleanCandidate,
    CleanReason,
};
use clis::cdt::scanner::Workspace;
use std::time::{Duration, SystemTime, UNIX_EPOCH};

fn now_secs() -> u64 {
    SystemTime::now().duration_since(UNIX_EPOCH).unwrap().as_secs()
}


fn ws(name: &str, merged: Option<bool>, age_days: Option<u64>, dirty: bool) -> Workspace {
    Workspace {
        project: "proj".into(),
        name: name.into(),
        path: format!("/ws/proj/{name}"),
        merged,
        branch: Some(format!("feat-{name}")),
        last_commit: age_days.map(|d| now_secs() - d * 86400),
        dirty,
        pr: None,
    }
}

#[test]
fn find_merged_filters_correctly() {
    let workspaces = vec![
        ws("a", Some(true), Some(1), false),
        ws("b", Some(false), Some(1), false),
        ws("c", None, Some(1), false),
        ws("d", Some(true), Some(1), true),
    ];
    let candidates = find_merged(&workspaces);
    assert_eq!(candidates.len(), 2);
    assert_eq!(candidates[0].workspace.name, "a");
    assert_eq!(candidates[1].workspace.name, "d");
    assert!(candidates.iter().all(|c| c.reason == CleanReason::Merged));
}

#[test]
fn find_stale_uses_threshold() {
    let workspaces = vec![
        ws("fresh", Some(false), Some(1), false),    // 1 day old
        ws("old", Some(false), Some(10), false),     // 10 days old
        ws("ancient", Some(false), Some(30), false), // 30 days old
        ws("nocommit", Some(false), None, false),    // no last_commit
    ];
    let candidates = find_stale(&workspaces, Duration::from_secs(7 * 86400));
    assert_eq!(candidates.len(), 2);
    assert_eq!(candidates[0].workspace.name, "old");
    assert_eq!(candidates[1].workspace.name, "ancient");
}

#[test]
fn find_candidates_deduplicates() {
    let workspaces = vec![
        ws("both", Some(true), Some(30), false), // merged AND stale
        ws("only_merged", Some(true), Some(1), false),
        ws("only_stale", Some(false), Some(30), false),
        ws("neither", Some(false), Some(1), false),
    ];
    let candidates = find_candidates(&workspaces, true, Some(Duration::from_secs(7 * 86400)));
    assert_eq!(candidates.len(), 3);
    // "both" should appear once with Merged reason (takes priority)
    let both = candidates
        .iter()
        .find(|c| c.workspace.name == "both")
        .unwrap();
    assert_eq!(both.reason, CleanReason::Merged);
}

#[test]
fn find_candidates_merged_only() {
    let workspaces = vec![
        ws("m", Some(true), Some(1), false),
        ws("o", Some(false), Some(30), false),
    ];
    let candidates = find_candidates(&workspaces, true, None);
    assert_eq!(candidates.len(), 1);
    assert_eq!(candidates[0].workspace.name, "m");
}

#[test]
fn find_candidates_stale_only() {
    let workspaces = vec![
        ws("m", Some(true), Some(1), false),
        ws("o", Some(false), Some(30), false),
    ];
    let candidates = find_candidates(&workspaces, false, Some(Duration::from_secs(7 * 86400)));
    assert_eq!(candidates.len(), 1);
    assert_eq!(candidates[0].workspace.name, "o");
}

#[test]
fn find_candidates_no_filters_returns_empty() {
    let workspaces = vec![ws("a", Some(true), Some(30), false)];
    let candidates = find_candidates(&workspaces, false, None);
    assert!(candidates.is_empty());
}

#[test]
fn format_candidate_merged() {
    let w = ws("city", Some(true), Some(1), false);
    let c = CleanCandidate {
        workspace: &w,
        reason: CleanReason::Merged,
    };
    let line = format_candidate(&c);
    assert!(line.contains("proj/city"));
    assert!(line.contains("merged"));
    assert!(!line.contains("[dirty]"));
}

#[test]
fn format_candidate_stale_dirty() {
    let w = ws("city", Some(false), Some(10), true);
    let c = CleanCandidate {
        workspace: &w,
        reason: CleanReason::Stale(Duration::from_secs(10 * 86400)),
    };
    let line = format_candidate(&c);
    assert!(line.contains("stale"));
    assert!(line.contains("[dirty]"));
}

#[test]
fn parse_duration_valid() {
    assert_eq!(
        parse_duration("7d").unwrap(),
        Duration::from_secs(7 * 86400)
    );
    assert_eq!(
        parse_duration("24h").unwrap(),
        Duration::from_secs(24 * 3600)
    );
    assert_eq!(parse_duration("30m").unwrap(), Duration::from_secs(30 * 60));
    assert_eq!(
        parse_duration("2w").unwrap(),
        Duration::from_secs(14 * 86400)
    );
    assert_eq!(parse_duration("60s").unwrap(), Duration::from_secs(60));
}

#[test]
fn parse_duration_invalid() {
    assert!(parse_duration("").is_err());
    assert!(parse_duration("abc").is_err());
    assert!(parse_duration("7x").is_err());
    assert!(parse_duration("d").is_err());
}
