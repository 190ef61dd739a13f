use clis::cdt::cache::{cache_usable, CACHE_TTL_SECS};
use clis::cdt::clean::{clean_mode, confirmed, done_message, parent_repo, GitLink};
use clis::cdt::scanner::{list_row, merge_check_branch, parse_commit_secs, DisplayColumns, PrDisplayInfo};
use std::time::Duration;

fn paths(v: &[&str]) -> Vec<String> {
    v.iter().map(|s| s.to_string()).collect()
}

#[test]
fn cache_usable_when_fresh_and_same_paths() {
    let cached = paths(&["/r/p/a", "/r/p/b"]);
    let disk = paths(&["/r/p/b", "/r/p/a"]);
    assert!(cache_usable("/r", "/r", Some(Duration::from_secs(5)), &cached, Some(&disk)));
    assert!(cache_usable("/r", "/r/", Some(Duration::from_secs(5)), &cached, None));
}

#[test]
fn cache_refused_for_other_root_or_age() {
    let cached = paths(&["/r/p/a"]);
    assert!(!cache_usable("/r", "/other", Some(Duration::from_secs(1)), &cached, None));
    assert!(cache_usable("/r", "/r", Some(Duration::from_secs(CACHE_TTL_SECS)), &cached, None));
    assert!(!cache_usable("/r", "/r", Some(Duration::new(CACHE_TTL_SECS, 1)), &cached, None));
    assert!(!cache_usable("/r", "/r", Some(Duration::from_secs(31)), &cached, None));
    assert!(!cache_usable("/r", "/r", None, &cached, None));
}

#[test]
fn cache_refused_when_workspaces_changed() {
    let cached = paths(&["/r/p/a"]);
    let disk = paths(&["/r/p/a", "/r/p/new"]);
    assert!(!cache_usable("/r", "/r", Some(Duration::from_secs(1)), &cached, Some(&disk)));
    let gone: Vec<String> = Vec::new();
    assert!(!cache_usable("/r", "/r", Some(Duration::from_secs(1)), &cached, Some(&gone)));
    let dup = paths(&["/r/p/a", "/r/p/a"]);
    assert!(cache_usable("/r", "/r", Some(Duration::from_secs(1)), &cached, Some(&dup)));
}

#[test]
fn commit_secs_from_git_output() {
    assert_eq!(parse_commit_secs("1700000000\n"), Some(1_700_000_000));
    assert_eq!(parse_commit_secs("  42 "), Some(42));
    assert_eq!(parse_commit_secs(""), None);
    assert_eq!(parse_commit_secs("abc"), None);
    assert_eq!(parse_commit_secs("-5"), None);
}

#[test]
fn merge_check_skips_main_branches() {
    assert_eq!(merge_check_branch(&Some("feat".to_string())), Some("feat".to_string()));
    assert_eq!(merge_check_branch(&Some("main".to_string())), None);
    assert_eq!(merge_check_branch(&Some("master".to_string())), None);
    assert_eq!(merge_check_branch(&Some("HEAD".to_string())), None);
    assert_eq!(merge_check_branch(&None), None);
}

#[test]
fn parent_repo_of_linked_worktree() {
    let link = GitLink::File(Some("gitdir: /repo/.git/worktrees/city\n".to_string()));
    assert_eq!(parent_repo("/ws/p/city", link), Some("/repo".to_string()));
    assert_eq!(parent_repo("/ws/p/city", GitLink::Dir), Some("/ws/p/city".to_string()));
    assert_eq!(parent_repo("/ws/p/city", GitLink::Missing), None);
    assert_eq!(parent_repo("/ws/p/city", GitLink::File(None)), None);
    assert_eq!(parent_repo("/ws/p/city", GitLink::File(Some("nonsense".to_string()))), None);
    assert_eq!(parent_repo("/ws", GitLink::File(Some("gitdir: /a".to_string()))), None);
}

#[test]
fn clean_mode_and_confirmation() {
    assert_eq!(clean_mode(false, false), (true, true));
    assert_eq!(clean_mode(true, false), (false, true));
    assert_eq!(clean_mode(false, true), (false, false));
    assert!(confirmed("y\n"));
    assert!(confirmed(" Y "));
    assert!(!confirmed("yes"));
    assert!(!confirmed(""));
    assert_eq!(done_message(2, 1), "\nDone: 2 removed, 1 failed.");
}

fn columns(pr: Option<PrDisplayInfo>, dirty: bool) -> DisplayColumns {
    DisplayColumns {
        merge_status: "● open",
        project: "app".into(),
        name: "tokyo".into(),
        branch: "feat".into(),
        age: "3h ago".into(),
        dirty,
        pr,
        path: "/ws/app/tokyo".into(),
    }
}

#[test]
fn list_row_layout() {
    let d = columns(None, true);
    let expected = format!(
        "{:<10} {:<16} {:<16} {:<24} {:>8}{:<3} {}",
        "● open", "app", "tokyo", "feat", "3h ago", " ✗", "/ws/app/tokyo"
    );
    assert_eq!(list_row(&d, false), expected);
    let d = columns(Some(PrDisplayInfo { number: 12, ci_label: "✓ci" }), false);
    let pr_col = format!("PR #{:<4} {:<4}", 12, "✓ci");
    let expected = format!(
        "{:<10} {:<14}{:<16} {:<16} {:<24} {:>8}{:<3}",
        "● open", pr_col, "app", "tokyo", "feat", "3h ago", ""
    );
    assert_eq!(list_row(&d, true), expected);
    let d = columns(None, false);
    assert!(list_row(&d, true).contains("no PR       "));
}
