//! The fields read from a concept note's frontmatter and from the vault's
//! settings file.

use vstd::prelude::*;
use crate::learn::concept::{
    compute_current_interval, extract_wikilinks, frontmatter_split, interval_between,
    links_from, split_frontmatter_text,
};
use crate::learn::types::VaultConfig;

verus! {

/// What the note reader takes from one frontmatter value: its text (a
/// string), its unsigned number, and, for a sequence, the text of each item.
pub struct YamlField {
    pub text: Option<String>,
    pub unsigned: Option<u64>,
    pub list: Option<Vec<Option<String>>>,
}

/// The view of an optional string.
pub open spec fn opt_text(o: Option<String>) -> Option<Seq<char>> {
    match o {
        Some(s) => Some(s@),
        None => None,
    }
}

/// The view of a frontmatter value.
pub open spec fn yaml_field_view(f: YamlField) -> (Option<Seq<char>>, Option<u64>, Option<Seq<Option<Seq<char>>>>) {
    (
        opt_text(f.text),
        f.unsigned,
        match f.list {
            Some(v) => Some(v@.map_values(|o: Option<String>| opt_text(o))),
            None => None,
        },
    )
}

/// The value of `key` in the YAML text `yaml`, as `serde_yaml` parses it
/// into a `Value` and `Value::get` finds it (`None` where the text does not
/// parse or holds no such key), read as its string (`as_str`), its unsigned
/// number (`as_u64`) and, for a sequence, its items' strings.
pub uninterp spec fn yaml_field_of(yaml: Seq<char>, key: Seq<char>) -> Option<
    (Option<Seq<char>>, Option<u64>, Option<Seq<Option<Seq<char>>>>),
>;

/// Parses `yaml` with `serde_yaml::from_str` into a `Value`, looks `key` up
/// with `Value::get`, and converts what it finds; the result is named by
/// `yaml_field_of`.
#[verifier::external_body]
fn yaml_field(yaml: &str, key: &str) -> (r: Option<YamlField>)
    ensures
        yaml_field_of(yaml@, key@) == match r {
            Some(f) => Some(yaml_field_view(f)),
            None => None,
        },
{
    serde_yaml::from_str::<serde_yaml::Value>(yaml).ok().and_then(|d| {
        d.get(key).map(|v| YamlField {
            text: v.as_str().map(String::from),
            unsigned: v.as_u64(),
            list: match v {
                serde_yaml::Value::Sequence(items) => Some(items.iter().map(|i| i.as_str().map(String::from)).collect()),
                _ => None,
            },
        })
    })
}

/// The value of `key` in a note's frontmatter text, if the note has one.
pub open spec fn field_of(yaml: Option<Seq<char>>, key: Seq<char>) -> Option<(Option<Seq<char>>, Option<u64>, Option<Seq<Option<Seq<char>>>>)> {
    match yaml {
        Some(y) => yaml_field_of(y, key),
        None => None,
    }
}

/// The string value of `key`.
pub open spec fn text_field(yaml: Option<Seq<char>>, key: Seq<char>) -> Option<Seq<char>> {
    match field_of(yaml, key) {
        Some(f) => f.0,
        None => None,
    }
}

/// The unsigned value of `key`, narrowed to `u32` as `as u32` does.
pub open spec fn u32_field(yaml: Option<Seq<char>>, key: Seq<char>) -> Option<u32> {
    match field_of(yaml, key) {
        Some(f) => match f.1 {
            Some(n) => Some(n as u32),
            None => None,
        },
        None => None,
    }
}

/// The items of a list that are strings, in order.
pub open spec fn text_items(items: Seq<Option<Seq<char>>>) -> Seq<Seq<char>>
    decreases items.len(),
{
    if items.len() == 0 {
        Seq::empty()
    } else {
        match items.last() {
            Some(t) => text_items(items.drop_last()).push(t),
            None => text_items(items.drop_last()),
        }
    }
}

/// The tags: the string items of the sequence under `key`, when there is at
/// least one.
pub open spec fn tags_field(yaml: Option<Seq<char>>, key: Seq<char>) -> Option<Seq<Seq<char>>> {
    match field_of(yaml, key) {
        Some(f) => match f.2 {
            Some(items) => if text_items(items).len() > 0 {
                Some(text_items(items))
            } else {
                None
            },
            None => None,
        },
        None => None,
    }
}

/// What a concept note holds, apart from its float mastery.
pub struct ConceptFields {
    pub term: Option<String>,
    pub domain: Option<String>,
    pub tags: Option<Vec<String>>,
    pub review_count: u32,
    pub current_interval: u32,
    pub last_reviewed: Option<String>,
    pub next_review: Option<String>,
    pub last_prompt_type: Option<String>,
    pub body: String,
    pub wikilinks: Vec<String>,
}

fn text_of(yaml: &Option<String>, key: &str) -> (r: Option<String>)
    ensures
        opt_text(r) == text_field(opt_text(*yaml), key@),
{
    match yaml {
        Some(y) => match yaml_field(y.as_str(), key) {
            Some(f) => f.text,
            None => None,
        },
        None => None,
    }
}

fn tags_of(yaml: &Option<String>, key: &str) -> (r: Option<Vec<String>>)
    ensures
        match r {
            Some(v) => tags_field(opt_text(*yaml), key@) == Some(v@.map_values(|s: String| s@)),
            None => tags_field(opt_text(*yaml), key@) is None,
        },
{
    let found = match yaml {
        Some(y) => yaml_field(y.as_str(), key),
        None => None,
    };
    match found {
        Some(f) => match f.list {
            Some(items) => {
                let ghost iv = items@.map_values(|o: Option<String>| opt_text(o));
                let mut out: Vec<String> = Vec::new();
                let mut i: usize = 0;
                while i < items.len()
                    invariant
                        i <= items@.len(),
                        iv == items@.map_values(|o: Option<String>| opt_text(o)),
                        out@.map_values(|s: String| s@) == text_items(iv.take(i as int)),
                    decreases items.len() - i,
                {
                    proof {
                        assert(iv.take(i + 1).drop_last() =~= iv.take(i as int));
                        assert(iv.take(i + 1).last() == opt_text(items@[i as int]));
                    }
                    match &items[i] {
                        Some(t) => {
                            out.push(t.clone());
                        },
                        None => {},
                    }
                    i = i + 1;
                    assert(out@.map_values(|s: String| s@) =~= text_items(iv.take(i as int)));
                }
                assert(iv.take(i as int) =~= iv);
                if out.len() > 0 {
                    Some(out)
                } else {
                    None
                }
            },
            None => None,
        },
        None => None,
    }
}

/// The fields of the concept note with text `raw`: term, domain and tags
/// (the user's), review count, review dates and last prompt type (the
/// tool's), the current interval from the dates, and the body with its
/// wikilinks. A note without frontmatter, or whose frontmatter does not
/// parse, has none of the fields.
pub fn concept_fields(raw: &str) -> (r: ConceptFields)
    ensures
        ({
            let yaml = frontmatter_split(raw@).0;
            &&& opt_text(r.term) == text_field(yaml, "term"@)
            &&& opt_text(r.domain) == text_field(yaml, "domain"@)
            &&& match r.tags {
                Some(v) => tags_field(yaml, "tags"@) == Some(v@.map_values(|s: String| s@)),
                None => tags_field(yaml, "tags"@) is None,
            }
            &&& r.review_count == match u32_field(yaml, "_review_count"@) {
                Some(n) => n,
                None => 0,
            }
            &&& opt_text(r.last_reviewed) == text_field(yaml, "_last_reviewed"@)
            &&& opt_text(r.next_review) == text_field(yaml, "_next_review"@)
            &&& opt_text(r.last_prompt_type) == text_field(yaml, "_last_prompt_type"@)
            &&& r.current_interval as int == interval_between(opt_text(r.last_reviewed), opt_text(r.next_review))
            &&& r.body@ == frontmatter_split(raw@).1
            &&& r.wikilinks@.map_values(|s: String| s@) == links_from(r.body@, 0)
        }),
{
    let (yaml, body) = split_frontmatter_text(raw);
    let ghost yv = opt_text(yaml);
    let term = text_of(&yaml, "term");
    let domain = text_of(&yaml, "domain");
    let tags = tags_of(&yaml, "tags");
    let review_count: u32 = match &yaml {
        Some(y) => match yaml_field(y.as_str(), "_review_count") {
            Some(f) => match f.unsigned {
                Some(n) => n as u32,
                None => 0,
            },
            None => 0,
        },
        None => 0,
    };
    let last_reviewed = text_of(&yaml, "_last_reviewed");
    let next_review = text_of(&yaml, "_next_review");
    let last_prompt_type = text_of(&yaml, "_last_prompt_type");
    let current_interval = compute_current_interval(
        match &last_reviewed {
            Some(s) => Some(s.as_str()),
            None => None,
        },
        match &next_review {
            Some(s) => Some(s.as_str()),
            None => None,
        },
    );
    let wikilinks = extract_wikilinks(body.as_str());
    ConceptFields {
        term,
        domain,
        tags,
        review_count,
        current_interval,
        last_reviewed,
        next_review,
        last_prompt_type,
        body,
        wikilinks,
    }
}

/// Whether the frontmatter of the note with text `raw` holds `key`.
pub fn has_field(raw: &str, key: &str) -> (r: bool)
    ensures
        r == (field_of(frontmatter_split(raw@).0, key@) is Some),
{
    let (yaml, _body) = split_frontmatter_text(raw);
    match &yaml {
        Some(y) => yaml_field(y.as_str(), key).is_some(),
        None => false,
    }
}

// ---------------------------------------------------------------------------
// The vault's settings
// ---------------------------------------------------------------------------

/// What the settings reader takes from one JSON value: its string
/// (`as_str`) and its unsigned number (`as_u64`).
pub struct JsonField {
    pub text: Option<String>,
    pub unsigned: Option<u64>,
}

/// The value of `key` in the JSON text `json`, as `serde_json` parses it
/// into a `Value` and `Value::get` finds it (`None` where the text does not
/// parse or holds no such key), read as its string and its unsigned number.
pub uninterp spec fn json_field_of(json: Seq<char>, key: Seq<char>) -> Option<(Option<Seq<char>>, Option<u64>)>;

/// Parses `json` with `serde_json::from_str` into a `Value`, looks `key` up
/// with `Value::get`, and converts what it finds; the result is named by
/// `json_field_of`.
#[verifier::external_body]
fn json_field(json: &str, key: &str) -> (r: Option<JsonField>)
    ensures
        json_field_of(json@, key@) == match r {
            Some(f) => Some((opt_text(f.text), f.unsigned)),
            None => None,
        },
{
    serde_json::from_str::<serde_json::Value>(json).ok().and_then(|v| {
        v.get(key).map(|f| JsonField { text: f.as_str().map(String::from), unsigned: f.as_u64() })
    })
}

/// The vault's settings from the text of its settings file, if it could be
/// read: `defaultReviewCount` (5 where absent or not an unsigned number) and
/// `defaultDomain` (where it is a string).
pub fn vault_config_from(json: Option<&str>) -> (r: VaultConfig)
    ensures
        r.default_review_count == match json {
            Some(j) => match json_field_of(j@, "defaultReviewCount"@) {
                Some(f) => match f.1 {
                    Some(n) => n as usize,
                    None => 5usize,
                },
                None => 5usize,
            },
            None => 5usize,
        },
        opt_text(r.default_domain) == match json {
            Some(j) => match json_field_of(j@, "defaultDomain"@) {
                Some(f) => f.0,
                None => None,
            },
            None => None,
        },
{
    match json {
        Some(j) => {
            let count: usize = match json_field(j, "defaultReviewCount") {
                Some(f) => match f.unsigned {
                    Some(n) => n as usize,
                    None => 5,
                },
                None => 5,
            };
            let domain = match json_field(j, "defaultDomain") {
                Some(f) => f.text,
                None => None,
            };
            VaultConfig { default_review_count: count, default_domain: domain }
        },
        None => VaultConfig { default_review_count: 5, default_domain: None },
    }
}

} // verus!
