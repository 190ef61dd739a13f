use clis::cdt::conflicts::{detect_conflicts, format_conflicts, FileConflict};


#[test]
fn detect_conflicts_finds_overlapping_files() {
    let changes = vec![
        ("proj/london".to_string(), vec!["src/auth.rs".to_string(), "src/main.rs".to_string()]),
        ("proj/tokyo".to_string(), vec!["src/auth.rs".to_string(), "src/db.rs".to_string()]),
        ("proj/berlin".to_string(), vec!["src/db.rs".to_string(), "README.md".to_string()]),
    ];

    let conflicts = detect_conflicts(&changes);
    assert_eq!(conflicts.len(), 2);

    // auth.rs touched by london + tokyo
    let auth = conflicts.iter().find(|c| c.file == "src/auth.rs").unwrap();
    assert_eq!(auth.workspaces.len(), 2);
    assert!(auth.workspaces.contains(&"proj/london".to_string()));
    assert!(auth.workspaces.contains(&"proj/tokyo".to_string()));

    // db.rs touched by tokyo + berlin
    let db = conflicts.iter().find(|c| c.file == "src/db.rs").unwrap();
    assert_eq!(db.workspaces.len(), 2);
    assert!(db.workspaces.contains(&"proj/tokyo".to_string()));
    assert!(db.workspaces.contains(&"proj/berlin".to_string()));
}

#[test]
fn detect_conflicts_no_overlap() {
    let changes = vec![
        ("proj/london".to_string(), vec!["src/auth.rs".to_string()]),
        ("proj/tokyo".to_string(), vec!["src/db.rs".to_string()]),
    ];

    let conflicts = detect_conflicts(&changes);
    assert!(conflicts.is_empty());
}

#[test]
fn detect_conflicts_empty_input() {
    let conflicts = detect_conflicts(&[]);
    assert!(conflicts.is_empty());
}

#[test]
fn detect_conflicts_single_workspace() {
    let changes = vec![
        ("proj/london".to_string(), vec!["src/auth.rs".to_string(), "src/main.rs".to_string()]),
    ];

    let conflicts = detect_conflicts(&changes);
    assert!(conflicts.is_empty());
}

#[test]
fn detect_conflicts_three_way_overlap() {
    let changes = vec![
        ("proj/london".to_string(), vec!["src/auth.rs".to_string()]),
        ("proj/tokyo".to_string(), vec!["src/auth.rs".to_string()]),
        ("proj/berlin".to_string(), vec!["src/auth.rs".to_string()]),
    ];

    let conflicts = detect_conflicts(&changes);
    assert_eq!(conflicts.len(), 1);
    assert_eq!(conflicts[0].workspaces.len(), 3);
}

#[test]
fn detect_conflicts_sorted_by_severity_then_name() {
    let changes = vec![
        ("proj/a".to_string(), vec!["z.rs".to_string(), "a.rs".to_string()]),
        ("proj/b".to_string(), vec!["z.rs".to_string(), "a.rs".to_string()]),
        ("proj/c".to_string(), vec!["z.rs".to_string()]),
    ];

    let conflicts = detect_conflicts(&changes);
    assert_eq!(conflicts.len(), 2);
    // z.rs (3 workspaces) should come before a.rs (2 workspaces)
    assert_eq!(conflicts[0].file, "z.rs");
    assert_eq!(conflicts[0].workspaces.len(), 3);
    assert_eq!(conflicts[1].file, "a.rs");
    assert_eq!(conflicts[1].workspaces.len(), 2);
}

#[test]
fn format_conflicts_output() {
    let conflicts = vec![
        FileConflict {
            file: "src/auth.rs".to_string(),
            workspaces: vec!["proj/london".to_string(), "proj/tokyo".to_string()],
        },
    ];

    let output = format_conflicts(&conflicts);
    assert!(output.contains("src/auth.rs"));
    assert!(output.contains("proj/london"));
    assert!(output.contains("proj/tokyo"));
}
