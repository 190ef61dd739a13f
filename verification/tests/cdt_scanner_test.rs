use clis::cdt::conflicts::change_targets;
use clis::cdt::scanner::{
    assign_pr_info, extract_json_str, extract_json_u32, format_age, format_age_secs, parse_pr_list,
    sort_by_label, CiStatus, PrInfo, Workspace,
};
use clis::cdt::setup::{shell_integration_block, SHELL_EVAL_LINE};
use std::time::Duration;

fn ws(project: &str, name: &str) -> Workspace {
    Workspace {
        project: project.into(),
        name: name.into(),
        path: format!("/tmp/{project}/{name}"),
        merged: None,
        branch: None,
        last_commit: None,
        dirty: false,
        pr: None,
    }
}

#[test]
fn workspace_label_format() {
    let ws = Workspace {
        project: "black-pearl".into(),
        name: "memphis".into(),
        path: "/tmp/test".into(),
        merged: None,
        branch: None,
        last_commit: None,
        dirty: false,
        pr: None,
    };
    assert_eq!(ws.label(), "black-pearl/memphis");
}

#[test]
fn shell_eval_line_matches_init_shell_command() {
    // Ensure the constant references the correct command
    assert!(SHELL_EVAL_LINE.contains("cdt init-shell"));
}

#[test]
fn shell_integration_block_has_header_and_line() {
    assert_eq!(
        shell_integration_block(),
        "# cdt — Conductor workspace navigator\neval \"$(cdt init-shell)\""
    );
}

#[test]
fn format_age_units() {
    assert_eq!(format_age_secs(0), "0s ago");
    assert_eq!(format_age_secs(59), "59s ago");
    assert_eq!(format_age_secs(60), "1m ago");
    assert_eq!(format_age_secs(3599), "59m ago");
    assert_eq!(format_age_secs(3600), "1h ago");
    assert_eq!(format_age_secs(86399), "23h ago");
    assert_eq!(format_age_secs(86400), "1d ago");
    assert_eq!(format_age(Duration::from_secs(10 * 86400)), "10d ago");
    assert_eq!(format_age(Duration::from_millis(1500)), "1s ago");
}

#[test]
fn display_columns_at_fixed_time() {
    let mut w = ws("proj", "city");
    w.merged = Some(true);
    w.branch = Some("feat-city".into());
    w.last_commit = Some(1000);
    w.dirty = true;
    w.pr = Some(PrInfo { number: 42, ci_status: CiStatus::Fail });
    let d = w.display_columns_at(1000 + 7200);
    assert_eq!(d.merge_status, "✓ merged");
    assert_eq!(d.branch, "feat-city");
    assert_eq!(d.age, "2h ago");
    assert!(d.dirty);
    let pr = d.pr.unwrap();
    assert_eq!(pr.number, 42);
    assert_eq!(pr.ci_label, "✗ci");
    assert_eq!(d.path, "/tmp/proj/city");
}

#[test]
fn display_columns_without_data_uses_dashes() {
    let w = ws("proj", "city");
    let d = w.display_columns_at(5);
    assert_eq!(d.merge_status, "—");
    assert_eq!(d.branch, "—");
    assert_eq!(d.age, "—");
    assert!(d.pr.is_none());
    // a commit in the future has no age either
    let mut w2 = ws("proj", "x");
    w2.last_commit = Some(10);
    assert_eq!(w2.display_columns_at(5).age, "—");
}

#[test]
fn json_string_and_number_fields() {
    let obj = r#"{"headRefName":"feat-x","number": 42,"statusCheckRollup":[]}"#;
    assert_eq!(extract_json_str(obj, "headRefName"), Some("feat-x".to_string()));
    assert_eq!(extract_json_u32(obj, "number"), Some(42));
    assert_eq!(extract_json_str(obj, "missing"), None);
    assert_eq!(extract_json_u32(obj, "headRefName"), None);
    assert_eq!(extract_json_u32(r#""number":99999999999"#, "number"), None);
    assert_eq!(extract_json_str(r#""a":"unterminated"#, "a"), None);
}

#[test]
fn parse_pr_list_reads_each_object() {
    let text = r#"[{"headRefName":"feat-a","number":1,"statusCheckRollup":[{"status":"COMPLETED","conclusion":"SUCCESS"}]},{"headRefName":"feat-b","number":2,"statusCheckRollup":[{"status":"IN_PROGRESS","conclusion":""}]},{"headRefName":"feat-c","number":3,"statusCheckRollup":[{"conclusion":"FAILURE"},{"conclusion":"SUCCESS"}]},{"headRefName":"feat-d","number":4,"statusCheckRollup":[]}]"#;
    let prs = parse_pr_list(text);
    let got: Vec<(String, u32, CiStatus)> = prs.into_iter().map(|(b, p)| (b, p.number, p.ci_status)).collect();
    assert_eq!(
        got,
        vec![
            ("feat-a".to_string(), 1, CiStatus::Pass),
            ("feat-b".to_string(), 2, CiStatus::Pending),
            ("feat-c".to_string(), 3, CiStatus::Fail),
            ("feat-d".to_string(), 4, CiStatus::Unknown),
        ]
    );
}

#[test]
fn parse_pr_list_check_outcomes_in_the_same_piece() {
    let text = r#"[{"number":5,"headRefName":"x","conclusion":"FAILURE","conclusion":"SUCCESS"},{"number":6,"headRefName":"y","status":"QUEUED"},{"number":7,"headRefName":"z","conclusion":"NEUTRAL"},{"number":8}]"#;
    let got: Vec<(String, u32, CiStatus)> =
        parse_pr_list(text).into_iter().map(|(b, p)| (b, p.number, p.ci_status)).collect();
    assert_eq!(
        got,
        vec![
            ("x".to_string(), 5, CiStatus::Fail),
            ("y".to_string(), 6, CiStatus::Pending),
            ("z".to_string(), 7, CiStatus::Pass),
        ]
    );
}

#[test]
fn parse_pr_list_braces_in_strings_and_nesting() {
    let text = "[{\"headRefName\":\"fix-{x}\",\"number\":9,\"statusCheckRollup\":[{\"name\":\"a {\\\"}\\\" b\",\"conclusion\":\"ERROR\"}]},{\"headRefName\":\"next\",\"number\":10,\"statusCheckRollup\":[{\"status\":\"QUEUED\"}]}]";
    let got: Vec<(String, u32, CiStatus)> =
        parse_pr_list(text).into_iter().map(|(b, p)| (b, p.number, p.ci_status)).collect();
    assert_eq!(
        got,
        vec![("fix-{x}".to_string(), 9, CiStatus::Fail), ("next".to_string(), 10, CiStatus::Pending)]
    );
    // an object left open at the end is not read
    assert!(parse_pr_list("[{\"headRefName\":\"a\",\"number\":1").is_empty());
}

#[test]
fn parse_pr_list_empty_output() {
    assert!(parse_pr_list("[]").is_empty());
    assert!(parse_pr_list("").is_empty());
}

#[test]
fn change_targets_skip_merged_and_main_branches() {
    let mut a = ws("p", "a");
    a.branch = Some("feat-a".into());
    let mut b = ws("p", "b");
    b.branch = Some("main".into());
    let mut c = ws("p", "c");
    c.branch = Some("feat-c".into());
    c.merged = Some(true);
    let d = ws("p", "d");
    let mut e = ws("p", "e");
    e.branch = Some("HEAD".into());
    let mut f = ws("p", "f");
    f.branch = Some("fix".into());
    f.merged = Some(false);
    assert_eq!(change_targets(&[a, b, c, d, e, f]), vec![0, 5]);
}

#[test]
fn sort_by_label_orders_and_keeps_ties() {
    let mut first_b = ws("beta", "one");
    first_b.path = "/first".into();
    let mut second_b = ws("beta", "one");
    second_b.path = "/second".into();
    let sorted = sort_by_label(vec![ws("gamma", "x"), first_b, ws("alpha", "z"), second_b]);
    let labels: Vec<String> = sorted.iter().map(|w| w.label()).collect();
    assert_eq!(labels, vec!["alpha/z", "beta/one", "beta/one", "gamma/x"]);
    assert_eq!(sorted[1].path, "/first");
    assert_eq!(sorted[2].path, "/second");
}

#[test]
fn assign_pr_info_first_workspace_per_branch() {
    let mut a = ws("p", "a");
    a.branch = Some("feat".into());
    let mut b = ws("p", "b");
    b.branch = Some("feat".into());
    let mut c = ws("q", "c");
    c.branch = Some("feat".into());
    let mut d = ws("p", "d");
    d.branch = Some("other".into());
    let mut list = vec![a, b, c, d];
    let prs = vec![
        ("feat".to_string(), PrInfo { number: 1, ci_status: CiStatus::Pass }),
        ("feat".to_string(), PrInfo { number: 2, ci_status: CiStatus::Fail }),
    ];
    assign_pr_info(&mut list, "p", &prs);
    assert_eq!(list[0].pr.map(|p| p.number), Some(2));
    assert_eq!(list[0].pr.map(|p| p.ci_status), Some(CiStatus::Fail));
    assert!(list[1].pr.is_none());
    assert!(list[2].pr.is_none());
    assert!(list[3].pr.is_none());
}
