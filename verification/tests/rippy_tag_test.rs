use clis::rippy::tag::{detect, ContentTag};


#[test]
fn urls() {
    assert_eq!(detect("https://example.com/foo"), ContentTag::Url);
    assert_eq!(detect("http://localhost:3000"), ContentTag::Url);
    assert_eq!(detect("  https://trimmed.com  "), ContentTag::Url);
    assert_eq!(detect("ftp://files.example.com/data"), ContentTag::Url);
    assert_eq!(detect("ssh://git@github.com:repo"), ContentTag::Url);
}

#[test]
fn paths() {
    assert_eq!(detect("/usr/local/bin/rippy"), ContentTag::Path);
    assert_eq!(detect("~/Documents/notes.md"), ContentTag::Path);
    assert_eq!(detect("./src/main.rs"), ContentTag::Path);
    assert_eq!(detect("src/components/App.tsx"), ContentTag::Path);
}

#[test]
fn paths_not_sentences() {
    // Sentences with slashes shouldn't be paths
    assert_ne!(detect("this is a sentence and/or something"), ContentTag::Path);
}

#[test]
fn code_snippets() {
    assert_eq!(detect("fn main() {\n    println!(\"hello\");\n}"), ContentTag::Code);
    assert_eq!(detect("const x = 42;\nlet y = x + 1;"), ContentTag::Code);
    assert_eq!(detect("import React from 'react';\nfunction App() {\n  return null;\n}"), ContentTag::Code);
    assert_eq!(detect("def foo():\n    return 42"), ContentTag::Code);
}

#[test]
fn plain_text() {
    assert_eq!(detect("hello world"), ContentTag::Text);
    assert_eq!(detect("just some notes about the meeting"), ContentTag::Text);
    assert_eq!(detect(""), ContentTag::Text);
    assert_eq!(detect("   "), ContentTag::Text);
}

#[test]
fn multiline_url_is_url() {
    // URL on first line — still classified as URL
    assert_eq!(detect("https://example.com\nsome description"), ContentTag::Url);
}

#[test]
fn multiline_is_not_path() {
    assert_ne!(detect("/usr/bin/foo\n/usr/bin/bar"), ContentTag::Path);
}
