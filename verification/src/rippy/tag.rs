//! Heuristic content tags for clipboard entries (url, path, code, text).
//!
//! Detection is intentionally simple: better to show a tag that is
//! occasionally wrong than to add a heavyweight parser.

use vstd::prelude::*;
use crate::text::{
    chars_of, contains, contains_str, ends_with, ends_with_str, first_line, has_char, lines,
    lines_of, lowercase, starts_with, starts_with_str, to_lowercase, trim, trim_chars, views,
    byte_len, byte_len_at_most, sub_chars, string_of,
};

verus! {

/// Auto-detected content tags for clipboard entries.
#[derive(Debug, Clone, Copy, PartialEq, Eq, Structural)]
pub enum ContentTag {
    Url,
    Path,
    Code,
    Text,
}

/// The short label of a tag.
pub open spec fn tag_label(t: ContentTag) -> Seq<char> {
    match t {
        ContentTag::Url => "url"@,
        ContentTag::Path => "path"@,
        ContentTag::Code => "code"@,
        ContentTag::Text => "text"@,
    }
}

impl ContentTag {
    /// The short label shown next to an entry.
    pub fn label(self) -> (r: &'static str)
        ensures
            r@ == tag_label(self),
    {
        match self {
            ContentTag::Url => "url",
            ContentTag::Path => "path",
            ContentTag::Code => "code",
            ContentTag::Text => "text",
        }
    }
}

/// The first line, trimmed and lowercased, starts with a URL scheme.
pub open spec fn url_spec(s: Seq<char>) -> bool {
    let lower = lowercase(trim(first_line(s)));
    starts_with(lower, "http://"@) || starts_with(lower, "https://"@) || starts_with(
        lower,
        "ftp://"@,
    ) || starts_with(lower, "ssh://"@)
}

/// Index of the last occurrence of `c` in `s`, or `-1`.
pub open spec fn last_index_of(s: Seq<char>, c: char) -> int
    decreases s.len(),
{
    if s.len() == 0 {
        -1
    } else if s.last() == c {
        s.len() - 1
    } else {
        last_index_of(s.drop_last(), c)
    }
}

/// The text after the last `c` in `s` (all of `s` when there is none).
pub open spec fn after_last(s: Seq<char>, c: char) -> Seq<char> {
    s.skip(last_index_of(s, c) + 1)
}

/// An ASCII letter or digit.
pub open spec fn is_ascii_alnum(c: char) -> bool {
    ('0' <= c <= '9') || ('a' <= c <= 'z') || ('A' <= c <= 'Z')
}

/// The last path component has a dot-extension of 1 to 10 bytes, all ASCII
/// letters and digits.
pub open spec fn ext_spec(s: Seq<char>) -> bool {
    let last = after_last(s, '/');
    last_index_of(last, '.') >= 0 && {
        let ext = after_last(last, '.');
        ext.len() > 0 && byte_len(ext) <= 10 && forall|i: int|
            0 <= i < ext.len() ==> is_ascii_alnum(ext[i])
    }
}

/// A single line that looks like a file system path.
pub open spec fn path_spec(s: Seq<char>) -> bool {
    if lines_of(s).len() > 1 {
        false
    } else {
        let t = trim(s);
        starts_with(t, "/"@) || starts_with(t, "~/"@) || starts_with(t, "./"@) || (t.contains(
            '/',
        ) && ext_spec(t) && !t.contains(' '))
    }
}

/// A line that is not empty and begins with two spaces or a tab.
pub open spec fn is_indented(l: Seq<char>) -> bool {
    l.len() > 0 && (starts_with(l, "  "@) || starts_with(l, "\t"@))
}

/// Number of indented lines.
pub open spec fn count_indented(ls: Seq<Seq<char>>) -> nat
    decreases ls.len(),
{
    if ls.len() == 0 {
        0
    } else {
        count_indented(ls.drop_last()) + if is_indented(ls.last()) {
            1nat
        } else {
            0nat
        }
    }
}

/// Keywords that almost always mean code.
pub open spec fn has_strong_marker(s: Seq<char>) -> bool {
    contains(s, "fn "@) || contains(s, "def "@) || contains(s, "func "@) || contains(
        s,
        "function "@,
    ) || contains(s, "class "@) || contains(s, "struct "@) || contains(s, "enum "@) || contains(
        s,
        "import "@,
    ) || contains(s, "#include"@) || contains(s, "require("@)
}

/// Weaker code markers, which need a code-like line ending to count.
pub open spec fn has_weak_marker(s: Seq<char>) -> bool {
    contains(s, "from "@) || contains(s, "use "@) || contains(s, "if ("@) || contains(s, "if("@)
        || contains(s, "for ("@) || contains(s, "for("@) || contains(s, "while ("@) || contains(
        s,
        "while("@,
    ) || contains(s, "return "@) || contains(s, "const "@) || contains(s, "let "@) || contains(
        s,
        "var "@,
    ) || contains(s, "pub "@) || contains(s, "=> "@) || contains(s, "-> "@) || contains(
        s,
        "||"@,
    ) || contains(s, "&&"@)
}

/// A trimmed line that ends like a line of code.
pub open spec fn has_code_ending(t: Seq<char>) -> bool {
    ends_with(t, ";"@) || ends_with(t, "{"@) || ends_with(t, "}"@) || ends_with(t, "};"@)
        || ends_with(t, "),"@) || ends_with(t, "])"@) || ends_with(t, "});"@) || ends_with(
        t,
        ":"@,
    )
}

/// Some line, trimmed, ends like a line of code.
pub open spec fn any_code_ending(ls: Seq<Seq<char>>) -> bool {
    exists|i: int| 0 <= i < ls.len() && has_code_ending(trim(ls[i]))
}

/// Multi-line indented text, a strong keyword, or a weak keyword together
/// with a code-like line ending.
pub open spec fn code_spec(s: Seq<char>) -> bool {
    let ls = lines_of(s);
    (ls.len() >= 2 && count_indented(ls) >= 2) || has_strong_marker(s) || (has_weak_marker(s)
        && any_code_ending(ls))
}

/// The tag of a clipboard content: url, then path, then code, else text,
/// judged on the trimmed content.
pub open spec fn detect_spec(content: Seq<char>) -> ContentTag {
    let t = trim(content);
    if t.len() == 0 {
        ContentTag::Text
    } else if url_spec(t) {
        ContentTag::Url
    } else if path_spec(t) {
        ContentTag::Path
    } else if code_spec(t) {
        ContentTag::Code
    } else {
        ContentTag::Text
    }
}

/// The tag of a content does not depend on the whitespace around it.
pub proof fn detect_ignores_surrounding_whitespace(content: Seq<char>)
    ensures
        detect_spec(trim(content)) == detect_spec(content),
{
    crate::text::trim_is_idempotent(content);
}

/// Classifies clipboard content. Priority: url > path > code > text.
pub fn detect(content: &str) -> (r: ContentTag)
    ensures
        r == detect_spec(content@),
{
    let all = chars_of(content);
    let trimmed = trim_chars(&all);
    if trimmed.len() == 0 {
        return ContentTag::Text;
    }
    let t = string_of(&trimmed);
    if looks_like_url(t.as_str()) {
        return ContentTag::Url;
    }
    if looks_like_path(t.as_str()) {
        return ContentTag::Path;
    }
    if looks_like_code(t.as_str()) {
        return ContentTag::Code;
    }
    ContentTag::Text
}

/// Whether the first line starts with an http, https, ftp or ssh scheme.
pub fn looks_like_url(s: &str) -> (r: bool)
    ensures
        r == url_spec(s@),
{
    let all = chars_of(s);
    let ls = lines(&all);
    let first: Vec<char> = if ls.len() > 0 {
        ls[0].clone()
    } else {
        Vec::new()
    };
    assert(first@ == first_line(s@)) by {
        if ls.len() > 0 {
            assert(views(ls@)[0] == ls@[0]@);
        }
    }
    let t = trim_chars(&first);
    let ts = string_of(&t);
    let lower_s = to_lowercase(ts.as_str());
    let lower = chars_of(lower_s.as_str());
    starts_with_str(&lower, "http://") || starts_with_str(&lower, "https://") || starts_with_str(
        &lower,
        "ftp://",
    ) || starts_with_str(&lower, "ssh://")
}

fn last_index_exec(s: &Vec<char>, c: char) -> (r: Option<usize>)
    ensures
        match r {
            Some(i) => i < s.len() && last_index_of(s@, c) == i,
            None => last_index_of(s@, c) == -1,
        },
{
    let mut j = s.len();
    assert(s@.take(j as int) =~= s@);
    while j > 0
        invariant
            j <= s.len(),
            last_index_of(s@, c) == last_index_of(s@.take(j as int), c),
        decreases j,
    {
        assert(s@.take(j as int).drop_last() =~= s@.take(j - 1));
        if s[j - 1] == c {
            return Some(j - 1);
        }
        j = j - 1;
    }
    None
}

proof fn lemma_last_index_bounds(s: Seq<char>, c: char)
    ensures
        -1 <= last_index_of(s, c) < s.len(),
        last_index_of(s, c) >= 0 ==> s[last_index_of(s, c)] == c,
    decreases s.len(),
{
    if s.len() > 0 && s.last() != c {
        lemma_last_index_bounds(s.drop_last(), c);
    }
}

/// Whether the last path component has a short alphanumeric dot-extension.
pub fn has_file_extension(s: &str) -> (r: bool)
    ensures
        r == ext_spec(s@),
{
    let all = chars_of(s);
    proof {
        assert(s@.take(s@.len() as int) =~= s@);
    }
    let start = match last_index_exec(&all, '/') {
        Some(i) => i + 1,
        None => 0,
    };
    let last = sub_chars(&all, start, all.len());
    assert(last@ =~= after_last(s@, '/'));
    match last_index_exec(&last, '.') {
        None => false,
        Some(d) => {
            let ext = sub_chars(&last, d + 1, last.len());
            assert(ext@ =~= after_last(last@, '.'));
            if ext.len() == 0 || !byte_len_at_most(&ext, 10) {
                return false;
            }
            let mut i: usize = 0;
            while i < ext.len()
                invariant
                    i <= ext.len(),
                    forall|k: int| 0 <= k < i ==> is_ascii_alnum(ext@[k]),
                    ext@ == after_last(last@, '.'),
                    last@ == after_last(s@, '/'),
                    last_index_of(last@, '.') >= 0,
                    ext.len() > 0,
                    byte_len(ext@) <= 10,
                decreases ext.len() - i,
            {
                let c = ext[i];
                if !(('0' <= c && c <= '9') || ('a' <= c && c <= 'z') || ('A' <= c && c <= 'Z')) {
                    assert(!is_ascii_alnum(ext@[i as int]));
                    return false;
                }
                i = i + 1;
            }
            true
        },
    }
}

/// Whether single-line content looks like a file system path.
pub fn looks_like_path(s: &str) -> (r: bool)
    ensures
        r == path_spec(s@),
{
    let all = chars_of(s);
    let ls = lines(&all);
    if ls.len() > 1 {
        return false;
    }
    let t = trim_chars(&all);
    if starts_with_str(&t, "/") || starts_with_str(&t, "~/") || starts_with_str(&t, "./") {
        return true;
    }
    let ts = string_of(&t);
    if has_char(&t, '/') && has_file_extension(ts.as_str()) && !has_char(&t, ' ') {
        return true;
    }
    false
}

fn is_indented_exec(l: &Vec<char>) -> (r: bool)
    ensures
        r == is_indented(l@),
{
    l.len() > 0 && (starts_with_str(l, "  ") || starts_with_str(l, "\t"))
}

fn has_code_ending_exec(t: &Vec<char>) -> (r: bool)
    ensures
        r == has_code_ending(t@),
{
    ends_with_str(t, ";") || ends_with_str(t, "{") || ends_with_str(t, "}") || ends_with_str(
        t,
        "};",
    ) || ends_with_str(t, "),") || ends_with_str(t, "])") || ends_with_str(t, "});")
        || ends_with_str(t, ":")
}

/// Whether content looks like source code.
pub fn looks_like_code(s: &str) -> (r: bool)
    ensures
        r == code_spec(s@),
{
    let all = chars_of(s);
    let ls = lines(&all);
    let ghost lv = views(ls@);
    if ls.len() >= 2 {
        let mut indented: usize = 0;
        let mut i: usize = 0;
        while i < ls.len()
            invariant
                i <= ls.len(),
                lv == views(ls@),
                indented == count_indented(lv.take(i as int)),
                indented <= i,
            decreases ls.len() - i,
        {
            assert(lv.take(i + 1).drop_last() =~= lv.take(i as int));
            assert(lv[i as int] == ls@[i as int]@);
            if is_indented_exec(&ls[i]) {
                indented = indented + 1;
            }
            i = i + 1;
        }
        assert(lv.take(i as int) =~= lv);
        if indented >= 2 {
            return true;
        }
    }
    let strong = contains_str(&all, "fn ") || contains_str(&all, "def ") || contains_str(
        &all,
        "func ",
    ) || contains_str(&all, "function ") || contains_str(&all, "class ") || contains_str(
        &all,
        "struct ",
    ) || contains_str(&all, "enum ") || contains_str(&all, "import ") || contains_str(
        &all,
        "#include",
    ) || contains_str(&all, "require(");
    if strong {
        return true;
    }
    let weak = contains_str(&all, "from ") || contains_str(&all, "use ") || contains_str(
        &all,
        "if (",
    ) || contains_str(&all, "if(") || contains_str(&all, "for (") || contains_str(&all, "for(")
        || contains_str(&all, "while (") || contains_str(&all, "while(") || contains_str(
        &all,
        "return ",
    ) || contains_str(&all, "const ") || contains_str(&all, "let ") || contains_str(
        &all,
        "var ",
    ) || contains_str(&all, "pub ") || contains_str(&all, "=> ") || contains_str(&all, "-> ")
        || contains_str(&all, "||") || contains_str(&all, "&&");
    let mut has_end = false;
    let mut i: usize = 0;
    while i < ls.len()
        invariant
            i <= ls.len(),
            lv == views(ls@),
            has_end == exists|k: int| 0 <= k < i && has_code_ending(trim(lv[k])),
        decreases ls.len() - i,
    {
        let t = trim_chars(&ls[i]);
        assert(lv[i as int] == ls@[i as int]@);
        if has_code_ending_exec(&t) {
            has_end = true;
        }
        i = i + 1;
    }
    weak && has_end
}

proof fn lemma_count_one(ls: Seq<Seq<char>>, i: int)
    requires
        0 <= i < ls.len(),
        is_indented(ls[i]),
    ensures
        count_indented(ls) >= 1,
    decreases ls.len(),
{
    if i < ls.len() - 1 {
        lemma_count_one(ls.drop_last(), i);
    }
}

proof fn lemma_count_two(ls: Seq<Seq<char>>, i: int, j: int)
    requires
        0 <= i < j < ls.len(),
        is_indented(ls[i]),
        is_indented(ls[j]),
    ensures
        count_indented(ls) >= 2,
    decreases ls.len(),
{
    if j == ls.len() - 1 {
        lemma_count_one(ls.drop_last(), i);
    } else {
        lemma_count_two(ls.drop_last(), i, j);
    }
}

/// Content whose (trimmed) text has two lines, each not empty and beginning
/// with two spaces or a tab, is tagged code unless it reads as a URL or a
/// path.
pub proof fn indented_lines_are_code(content: Seq<char>, i: int, j: int)
    requires
        0 <= i < j < lines_of(trim(content)).len(),
        lines_of(trim(content))[i].len() > 0,
        starts_with(lines_of(trim(content))[i], "  "@) || starts_with(lines_of(trim(content))[i], "\t"@),
        lines_of(trim(content))[j].len() > 0,
        starts_with(lines_of(trim(content))[j], "  "@) || starts_with(lines_of(trim(content))[j], "\t"@),
        !url_spec(trim(content)),
        !path_spec(trim(content)),
    ensures
        detect_spec(content) == ContentTag::Code,
{
    let t = trim(content);
    lemma_count_two(lines_of(t), i, j);
    assert(t.len() > 0) by {
        if t.len() == 0 {
            assert(lines_of(t).len() == 0);
        }
    }
}

} // verus!
