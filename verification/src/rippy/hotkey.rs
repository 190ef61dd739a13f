//! Changing the hotkey settings from the command line.

use vstd::prelude::*;
use crate::rippy::config::{Config, keycode_for, keycode_spec, modifier_flag, modifier_flag_spec, string_views};
use crate::text::{chars_of, lowercase, push_all, push_str, split_char, split_on_char, string_of, to_lowercase, trim, trim_chars, views};

verus! {

/// The modifier names of a `--modifiers` value: split at commas, each
/// trimmed and lowercased.
pub open spec fn modifier_names(m: Seq<char>) -> Seq<Seq<char>> {
    split_char(m, ',').map_values(|p: Seq<char>| lowercase(trim(p)))
}

/// The first modifier name that is not known, if any.
pub open spec fn first_unknown(names: Seq<Seq<char>>) -> Option<Seq<char>>
    decreases names.len(),
{
    if names.len() == 0 {
        None
    } else {
        match first_unknown(names.drop_last()) {
            Some(n) => Some(n),
            None => if modifier_flag_spec(names.last()) is None {
                Some(names.last())
            } else {
                None
            },
        }
    }
}

/// The error for an unknown key.
pub open spec fn unknown_key_message(k: Seq<char>) -> Seq<char> {
    "Unknown key: '"@ + k + "'. Use a letter, number, or f1-f12."@
}

/// The error for an unknown modifier.
pub open spec fn unknown_modifier_message(m: Seq<char>) -> Seq<char> {
    "Unknown modifier: '"@ + m + "'. Use cmd, shift, ctrl, or alt."@
}

/// What `rippy hotkey set` does to the settings: an unknown key is refused
/// first, then an unknown modifier; otherwise each option given replaces its
/// setting.
pub open spec fn hotkey_set_result(
    key: Option<Seq<char>>,
    modifiers: Option<Seq<char>>,
) -> Result<(), Seq<char>> {
    if key is Some && keycode_spec(key->0) is None {
        Err(unknown_key_message(key->0))
    } else {
        match modifiers {
            Some(m) => match first_unknown(modifier_names(m)) {
                Some(bad) => Err(unknown_modifier_message(bad)),
                None => Ok(()),
            },
            None => Ok(()),
        }
    }
}

/// Applies `rippy hotkey set --key .. --modifiers .. --terminal ..` to the
/// settings. On an error the settings are left as they were.
pub fn apply_hotkey_set(
    cfg: &mut Config,
    key: Option<String>,
    modifiers: Option<String>,
    terminal: Option<String>,
) -> (r: Result<(), String>)
    ensures
        match (r, hotkey_set_result(
            match key {
                Some(k) => Some(k@),
                None => None,
            },
            match modifiers {
                Some(m) => Some(m@),
                None => None,
            },
        )) {
            (Ok(()), Ok(())) => {
                &&& final(cfg).hotkey.key@ == match key {
                    Some(k) => k@,
                    None => old(cfg).hotkey.key@,
                }
                &&& string_views(final(cfg).hotkey.modifiers@) == match modifiers {
                    Some(m) => modifier_names(m@),
                    None => string_views(old(cfg).hotkey.modifiers@),
                }
                &&& final(cfg).terminal.app@ == match terminal {
                    Some(t) => t@,
                    None => old(cfg).terminal.app@,
                }
                &&& final(cfg).history == old(cfg).history
            },
            (Err(e), Err(m)) => e@ == m && *final(cfg) == *old(cfg),
            _ => false,
        },
{
    if let Some(k) = &key {
        if keycode_for(k.as_str()).is_none() {
            let mut out: Vec<char> = Vec::new();
            push_str(&mut out, "Unknown key: '");
            push_all(&mut out, &chars_of(k.as_str()));
            push_str(&mut out, "'. Use a letter, number, or f1-f12.");
            return Err(string_of(&out));
        }
    }
    let mut names: Vec<String> = Vec::new();
    if let Some(m) = &modifiers {
        let parts = split_on_char(&chars_of(m.as_str()), ',');
        let ghost all = modifier_names(m@);
        let mut i: usize = 0;
        while i < parts.len()
            invariant
                *cfg == *old(cfg),
                modifiers == Some(*m),
                key matches Some(k) ==> keycode_spec(k@) is Some,
                views(parts@) == split_char(m@, ','),
                all == modifier_names(m@),
                i <= parts@.len(),
                string_views(names@) == all.take(i as int),
                first_unknown(all.take(i as int)) is None,
            decreases parts.len() - i,
        {
            let t = string_of(&trim_chars(&parts[i]));
            let name = to_lowercase(t.as_str());
            proof {
                assert(all[i as int] == lowercase(trim(parts@[i as int]@)));
                assert(all.take(i + 1).drop_last() =~= all.take(i as int));
            }
            if modifier_flag(name.as_str()).is_none() {
                let mut out: Vec<char> = Vec::new();
                push_str(&mut out, "Unknown modifier: '");
                push_all(&mut out, &chars_of(name.as_str()));
                push_str(&mut out, "'. Use cmd, shift, ctrl, or alt.");
                proof {
                    lemma_first_unknown_prefix(all, i as int);
                }
                assert(name@ == all[i as int]);
                return Err(string_of(&out));
            }
            let ghost before = string_views(names@);
            names.push(name);
            assert(string_views(names@) =~= before.push(all[i as int]));
            i = i + 1;
        }
        assert(all.take(i as int) =~= all);
    }
    if let Some(k) = key {
        cfg.hotkey.key = k;
    }
    if modifiers.is_some() {
        cfg.hotkey.modifiers = names;
    }
    if let Some(t) = terminal {
        cfg.terminal.app = t;
    }
    Ok(())
}

proof fn lemma_first_unknown_prefix(names: Seq<Seq<char>>, i: int)
    requires
        0 <= i < names.len(),
        first_unknown(names.take(i)) is None,
        modifier_flag_spec(names[i]) is None,
    ensures
        first_unknown(names) == Some(names[i]),
    decreases names.len() - i,
{
    assert(names.take(i + 1).drop_last() =~= names.take(i));
    assert(first_unknown(names.take(i + 1)) == Some(names[i]));
    lemma_first_unknown_extends(names, i + 1);
}

proof fn lemma_first_unknown_extends(names: Seq<Seq<char>>, n: int)
    requires
        0 <= n <= names.len(),
        first_unknown(names.take(n)) is Some,
    ensures
        first_unknown(names) == first_unknown(names.take(n)),
    decreases names.len() - n,
{
    if n < names.len() {
        assert(names.take(n + 1).drop_last() =~= names.take(n));
        lemma_first_unknown_extends(names, n + 1);
    } else {
        assert(names.take(n) =~= names);
    }
}

} // verus!
