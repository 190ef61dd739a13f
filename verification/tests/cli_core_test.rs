use clis::cli_core::{choose_shell_rc, detect_shell_rc};

fn home_of(tmp: &tempfile::TempDir) -> String {
    tmp.path().to_string_lossy().to_string()
}

#[test]
fn detect_shell_rc_zsh() {
    let tmp = tempfile::tempdir().unwrap();
    let home = home_of(&tmp);
    assert_eq!(
        detect_shell_rc(&home, "/bin/zsh"),
        Some(tmp.path().join(".zshrc").to_string_lossy().to_string())
    );
}

#[test]
fn detect_shell_rc_bash_prefers_bashrc() {
    let tmp = tempfile::tempdir().unwrap();
    let home = home_of(&tmp);
    // Create .bashrc so it gets preferred
    tempfile::NamedTempFile::new_in(tmp.path()).unwrap().persist(tmp.path().join(".bashrc")).unwrap();
    assert_eq!(
        detect_shell_rc(&home, "/bin/bash"),
        Some(tmp.path().join(".bashrc").to_string_lossy().to_string())
    );
}

#[test]
fn detect_shell_rc_bash_falls_back_to_bash_profile() {
    let tmp = tempfile::tempdir().unwrap();
    let home = home_of(&tmp);
    // No .bashrc exists, should fall back to .bash_profile
    assert_eq!(
        detect_shell_rc(&home, "/bin/bash"),
        Some(tmp.path().join(".bash_profile").to_string_lossy().to_string())
    );
}

#[test]
fn detect_shell_rc_unsupported_shell() {
    let tmp = tempfile::tempdir().unwrap();
    assert_eq!(detect_shell_rc(&home_of(&tmp), "/bin/fish"), None);
}

#[test]
fn detect_shell_rc_empty_shell() {
    let tmp = tempfile::tempdir().unwrap();
    assert_eq!(detect_shell_rc(&home_of(&tmp), ""), None);
}

#[test]
fn choose_shell_rc_joins_paths() {
    assert_eq!(choose_shell_rc("/home/me", "/usr/bin/zsh", false), Some("/home/me/.zshrc".to_string()));
    assert_eq!(choose_shell_rc("/home/me/", "bash", true), Some("/home/me/.bashrc".to_string()));
    assert_eq!(choose_shell_rc("/home/me", "bash", false), Some("/home/me/.bash_profile".to_string()));
    assert_eq!(choose_shell_rc("/home/me", "/bin/sh", true), None);
}
