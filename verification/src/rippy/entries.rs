//! Clipboard history entries: their content hash and their one-line listing.

use vstd::prelude::*;
use vstd::string::*;
use vstd::utf8::encode_utf8;
use sha2::Digest;
use chrono::TimeZone;
use crate::text::{
    byte_len, chars_of, decimal_signed, first_line, join_with, lines, lines_of, pad_left,
    pad_right, push_all, push_decimal_signed, push_padded_left, push_padded_right, push_str,
    string_of, utf8_width, utf8_width_exec, views,
};
use crate::rippy::tag::{detect, detect_spec, tag_label};

verus! {

/// One clipboard history entry.
pub struct ClipEntry {
    pub id: i64,
    pub content: String,
    pub hash: String,
    /// Seconds since the Unix epoch.
    pub timestamp: i64,
    pub app_name: Option<String>,
    pub pinned: bool,
}

// ---------------------------------------------------------------------------
// Content hash
// ---------------------------------------------------------------------------

/// The SHA-256 digest of `data`, as computed by the `sha2` crate.
pub uninterp spec fn sha256_digest(data: Seq<u8>) -> Seq<u8>;

/// Calls `sha2::Sha256::digest`; the digest is named by `sha256_digest` and is
/// 32 bytes long.
#[verifier::external_body]
fn sha256(data: &[u8]) -> (r: Vec<u8>)
    ensures
        r@ == sha256_digest(data@),
        r@.len() == 32,
{
    <sha2::Sha256 as Digest>::digest(data).to_vec()
}

/// The lowercase hexadecimal digit for `d` (`0 <= d < 16`).
pub open spec fn hex_digit(d: int) -> char {
    if d < 10 {
        (d + 48) as char
    } else {
        (d + 87) as char
    }
}

/// Lowercase hexadecimal, two digits per byte, high nibble first.
pub open spec fn hex_spec(b: Seq<u8>) -> Seq<char>
    decreases b.len(),
{
    if b.len() == 0 {
        Seq::empty()
    } else {
        hex_spec(b.drop_last()) + seq![hex_digit((b.last() / 16) as int), hex_digit((b.last() % 16) as int)]
    }
}

fn hex_digit_exec(d: u8) -> (c: char)
    requires
        d < 16,
    ensures
        c == hex_digit(d as int),
{
    if d < 10 {
        (48u8 + d) as char
    } else {
        (87u8 + d) as char
    }
}

/// Lowercase hexadecimal encoding of bytes.
pub fn hex_encode(b: &[u8]) -> (r: String)
    ensures
        r@ == hex_spec(b@),
{
    let mut out: Vec<char> = Vec::new();
    let mut i: usize = 0;
    while i < b.len()
        invariant
            i <= b.len(),
            out@ == hex_spec(b@.take(i as int)),
        decreases b.len() - i,
    {
        let x = b[i];
        out.push(hex_digit_exec(x / 16));
        out.push(hex_digit_exec(x % 16));
        assert(b@.take(i + 1).drop_last() =~= b@.take(i as int));
        assert(out@ =~= hex_spec(b@.take(i + 1)));
        i = i + 1;
    }
    assert(b@.take(i as int) =~= b@);
    string_of(&out)
}

/// The hash that identifies duplicate contents: lowercase hex of the SHA-256
/// of the UTF-8 bytes.
pub open spec fn content_hash_spec(content: Seq<char>) -> Seq<char> {
    hex_spec(sha256_digest(encode_utf8(content)))
}

/// The content hash of an entry.
pub fn content_hash(content: &str) -> (r: String)
    ensures
        r@ == content_hash_spec(content@),
{
    let bytes = content.as_bytes();
    let d = sha256(bytes);
    hex_encode(d.as_slice())
}

// ---------------------------------------------------------------------------
// Truncation
// ---------------------------------------------------------------------------

/// Some prefix of `s` is exactly `b` bytes long.
pub open spec fn is_boundary(s: Seq<char>, b: nat) -> bool {
    exists|k: int| 0 <= k <= s.len() && byte_len(s.take(k)) == b
}

/// `truncate` can cut the first line of `s` at `max` bytes: it is no longer,
/// or a character ends there.
pub open spec fn truncatable(s: Seq<char>, max: nat) -> bool {
    byte_len(first_line(s)) > max ==> is_boundary(first_line(s), max)
}

/// The first line of `s`, cut to `max` bytes with `…` when longer, or with
/// `…` appended when `s` has more lines.
pub open spec fn truncate_spec(s: Seq<char>, max: nat) -> Seq<char> {
    let line = first_line(s);
    if byte_len(line) > max {
        let k = choose|k: int| 0 <= k <= line.len() && byte_len(line.take(k)) == max;
        line.take(k) + "…"@
    } else if lines_of(s).len() > 1 {
        line + "…"@
    } else {
        line
    }
}

proof fn lemma_byte_len_take_step(s: Seq<char>, i: int)
    requires
        0 <= i < s.len(),
    ensures
        byte_len(s.take(i + 1)) == byte_len(s.take(i)) + utf8_width(s[i]),
{
    assert(s.take(i + 1).drop_last() =~= s.take(i));
}

proof fn lemma_byte_len_take_mono(s: Seq<char>, i: int, j: int)
    requires
        0 <= i < j <= s.len(),
    ensures
        byte_len(s.take(i)) < byte_len(s.take(j)),
    decreases j - i,
{
    lemma_byte_len_take_step(s, j - 1);
    if i < j - 1 {
        lemma_byte_len_take_mono(s, i, j - 1);
    }
}

/// The first line of `s`, shortened to `max` bytes.
pub fn truncate(s: &str, max: usize) -> (r: String)
    requires
        truncatable(s@, max as nat),
    ensures
        r@ == truncate_spec(s@, max as nat),
{
    let all = chars_of(s);
    let ls = lines(&all);
    let line: Vec<char> = if ls.len() > 0 {
        ls[0].clone()
    } else {
        Vec::new()
    };
    assert(line@ == first_line(s@)) by {
        if ls.len() > 0 {
            assert(views(ls@)[0] == ls@[0]@);
        }
    }
    // Walk the line until `max` bytes are covered.
    let mut total: usize = 0;
    let mut i: usize = 0;
    while i < line.len() && total < max
        invariant
            i <= line.len(),
            total == byte_len(line@.take(i as int)),
            total <= max,
            byte_len(line@) > max ==> is_boundary(line@, max as nat),
        decreases line.len() - i,
    {
        let w = utf8_width_exec(line[i]);
        proof {
            lemma_byte_len_take_step(line@, i as int);
        }
        if w > max - total {
            // A character straddles `max`: the line is longer than `max`.
            proof {
                if byte_len(line@) > max {
                    let k = choose|k: int| 0 <= k <= line@.len() && byte_len(line@.take(k)) == max;
                    if k <= i {
                        if k < i {
                            lemma_byte_len_take_mono(line@, k, i as int);
                        }
                    } else if k > i + 1 {
                        lemma_byte_len_take_mono(line@, i + 1, k);
                    }
                    assert(false);
                } else {
                    assert(line@.take(line@.len() as int) =~= line@);
                    if i + 1 < line@.len() {
                        lemma_byte_len_take_mono(line@, i + 1, line@.len() as int);
                    }
                }
                assert(false);
            }
            total = max;
            i = line.len();
        } else {
            total = total + w;
            i = i + 1;
        }
    }
    proof {
        assert(line@.take(line@.len() as int) =~= line@);
    }
    if total == max && i < line.len() {
        // The line is longer than `max` bytes and a character ends at `max`.
        proof {
            lemma_byte_len_take_mono(line@, i as int, line@.len() as int);
            let k = choose|k: int| 0 <= k <= line@.len() && byte_len(line@.take(k)) == max;
            if k < i {
                lemma_byte_len_take_mono(line@, k, i as int);
            } else if k > i {
                lemma_byte_len_take_mono(line@, i as int, k);
            }
        }
        let mut out: Vec<char> = Vec::new();
        let mut j: usize = 0;
        while j < i
            invariant
                j <= i <= line.len(),
                out@ == line@.take(j as int),
            decreases i - j,
        {
            out.push(line[j]);
            j = j + 1;
            assert(out@ =~= line@.take(j as int));
        }
        push_str(&mut out, "…");
        return string_of(&out);
    }
    // Here the whole line fits in `max` bytes.
    proof {
        if i < line@.len() {
            assert(false);
        }
    }
    if ls.len() > 1 {
        let mut out = line.clone();
        push_str(&mut out, "…");
        string_of(&out)
    } else {
        string_of(&line)
    }
}

// ---------------------------------------------------------------------------
// Listing
// ---------------------------------------------------------------------------

/// The format of an entry's local time.
pub const ENTRY_TIME_FORMAT: &'static str = "%Y-%m-%d %H:%M:%S";

/// `c` is an ASCII digit.
pub open spec fn digit_char(c: char) -> bool {
    '0' <= c <= '9'
}

/// `t` reads `Y-MM-DD HH:MM:SS`: a year of at least four characters, each a
/// digit or a sign, then two-digit month, day, hour, minute and second.
pub open spec fn datetime_shape(t: Seq<char>) -> bool {
    &&& t.len() >= 19
    &&& forall|i: int| 0 <= i < t.len() - 15 ==> digit_char(#[trigger] t[i]) || t[i] == '+' || t[i] == '-'
    &&& ({
        let u = t.skip(t.len() - 15);
        &&& u[0] == '-' && digit_char(u[1]) && digit_char(u[2])
        &&& u[3] == '-' && digit_char(u[4]) && digit_char(u[5])
        &&& u[6] == ' ' && digit_char(u[7]) && digit_char(u[8])
        &&& u[9] == ':' && digit_char(u[10]) && digit_char(u[11])
        &&& u[12] == ':' && digit_char(u[13]) && digit_char(u[14])
    })
}

/// Calls `chrono::Local.timestamp_opt(ts, 0)` and formats the time with
/// `fmt`; `None` where chrono cannot place the time in the local zone. The
/// text depends on the machine's time zone; the contract claims its shape,
/// as chrono's `%Y` (four digits, or a sign and more digits outside
/// 0..=9999) and its two-digit `%m`, `%d`, `%H`, `%M`, `%S` give it.
#[verifier::external_body]
fn local_time_text(ts: i64, fmt: &str) -> (r: Option<String>)
    requires
        fmt@ == ENTRY_TIME_FORMAT@,
    ensures
        match r {
            Some(t) => datetime_shape(t@),
            None => true,
        },
{
    chrono::Local.timestamp_opt(ts, 0).single().map(|t| t.format(fmt).to_string())
}

/// The time column of entry `e`: the local time, or the raw timestamp where
/// there is none.
pub open spec fn entry_time(ts: i64, local: Option<Seq<char>>) -> Seq<char> {
    match local {
        Some(t) => t,
        None => decimal_signed(ts as int),
    }
}

/// `t` is the time column of an entry stamped `ts`, as the machine's time
/// zone gives it.
pub open spec fn shows_entry_time(ts: i64, t: Seq<char>) -> bool {
    exists|local: Option<Seq<char>>|
        (match local {
            Some(x) => datetime_shape(x),
            None => true,
        }) && t == #[trigger] entry_time(ts, local)
}

/// The listing line of an entry, given the text of its time.
pub open spec fn entry_line(e: ClipEntry, time: Seq<char>) -> Seq<char> {
    (if e.pinned {
        "★"@
    } else {
        " "@
    }) + " "@ + pad_left(decimal_signed(e.id as int), 5) + " │ "@ + time + " │ "@ + pad_right(
        tag_label(detect_spec(e.content@)),
        4,
    ) + " │ "@ + truncate_spec(e.content@, 80)
}

/// One line per entry, each ended by a newline; the empty message with a
/// newline when there is no entry. Each time text is the one the machine gives.
pub open spec fn listing_with_times(
    entries: Seq<ClipEntry>,
    empty_msg: Seq<char>,
    times: Seq<Seq<char>>,
) -> Seq<char> {
    if entries.len() == 0 {
        empty_msg + "\n"@
    } else {
        join_with(
            Seq::new(entries.len(), |i: int| entry_line(entries[i], times[i])),
            "\n"@,
        ) + "\n"@
    }
}

fn entry_line_exec(e: &ClipEntry, time: &Vec<char>) -> (r: Vec<char>)
    requires
        truncatable(e.content@, 80),
    ensures
        r@ == entry_line(*e, time@),
{
    let mut out: Vec<char> = Vec::new();
    if e.pinned {
        push_str(&mut out, "★");
    } else {
        push_str(&mut out, " ");
    }
    push_str(&mut out, " ");
    let mut id: Vec<char> = Vec::new();
    push_decimal_signed(&mut id, e.id);
    assert(id@ =~= decimal_signed(e.id as int));
    push_padded_left(&mut out, &id, 5);
    push_str(&mut out, " │ ");
    push_all(&mut out, time);
    push_str(&mut out, " │ ");
    let tag = detect(e.content.as_str());
    let label = chars_of(tag.label());
    push_padded_right(&mut out, &label, 4);
    push_str(&mut out, " │ ");
    let t = truncate(e.content.as_str(), 80);
    let tv = chars_of(t.as_str());
    push_all(&mut out, &tv);
    assert(out@ =~= entry_line(*e, time@));
    out
}

/// The plain-text listing of entries: pin star, id, local time, content tag
/// and the first line of the content.
pub fn format_entries(entries: &[ClipEntry], empty_msg: &str) -> (r: String)
    requires
        forall|i: int| 0 <= i < entries@.len() ==> truncatable(#[trigger] entries@[i].content@, 80),
    ensures
        exists|times: Seq<Seq<char>>|
            times.len() == entries@.len() && (forall|k: int|
                0 <= k < entries@.len() ==> shows_entry_time(entries@[k].timestamp, #[trigger] times[k]))
                && r@ == listing_with_times(entries@, empty_msg@, times),
{
    if entries.len() == 0 {
        let mut out = String::from_str(empty_msg);
        out.append("\n");
        assert(out@ == listing_with_times(entries@, empty_msg@, Seq::empty()));
        return out;
    }
    let mut parts: Vec<Vec<char>> = Vec::new();
    let ghost mut times: Seq<Seq<char>> = Seq::empty();
    let mut i: usize = 0;
    while i < entries.len()
        invariant
            i <= entries.len(),
            times.len() == i,
            parts@.len() == i,
            forall|k: int| 0 <= k < entries@.len() ==> truncatable(#[trigger] entries@[k].content@, 80),
            forall|k: int| 0 <= k < i ==> #[trigger] parts@[k]@ == entry_line(entries@[k], times[k]),
            forall|k: int| 0 <= k < i ==> shows_entry_time(entries@[k].timestamp, #[trigger] times[k]),
        decreases entries.len() - i,
    {
        let e = &entries[i];
        let local = local_time_text(e.timestamp, ENTRY_TIME_FORMAT);
        let ghost lv = match &local {
            Some(t) => Some(t@),
            None => None,
        };
        let time: Vec<char> = match local {
            Some(t) => chars_of(t.as_str()),
            None => {
                let mut v: Vec<char> = Vec::new();
                push_decimal_signed(&mut v, e.timestamp);
                v
            },
        };
        assert(time@ == entry_time(e.timestamp, lv));
        let line = entry_line_exec(e, &time);
        parts.push(line);
        proof {
            times = times.push(time@);
        }
        i = i + 1;
    }
    let mut out = crate::text::join_chars(&parts, "\n");
    push_str(&mut out, "\n");
    assert(views(parts@) =~= Seq::new(entries@.len(), |k: int| entry_line(entries@[k], times[k])));
    let r = string_of(&out);
    assert(r@ == listing_with_times(entries@, empty_msg@, times));
    r
}

} // verus!
