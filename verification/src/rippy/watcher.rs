//! What the clipboard watcher keeps.

use vstd::prelude::*;
use crate::text::{byte_len, byte_len_at_most, chars_of};

verus! {

/// The largest clipboard content, in bytes, that is stored.
pub const MAX_ENTRY_SIZE: usize = 1_000_000;

/// Content is stored when there is some and it is at most `MAX_ENTRY_SIZE`
/// bytes long.
pub open spec fn store_spec(content: Option<Seq<char>>) -> bool {
    match content {
        Some(t) => byte_len(t) <= MAX_ENTRY_SIZE,
        None => false,
    }
}

/// Whether a clipboard reading should be stored.
pub fn should_store(content: &Option<String>) -> (r: bool)
    ensures
        r == store_spec(
            match content {
                Some(t) => Some(t@),
                None => None,
            },
        ),
{
    match content {
        Some(t) => {
            let v = chars_of(t.as_str());
            byte_len_at_most(&v, MAX_ENTRY_SIZE)
        },
        None => false,
    }
}


/// What the watcher remembers between clipboard readings.
pub struct WatchState {
    /// The clipboard's change count at the last reading (-1 before the first).
    pub last_change_count: i64,
    /// Entries stored since the history was last pruned.
    pub inserts_since_prune: u32,
    /// The last stored entry and when it was stored (milliseconds on a
    /// monotonic clock), while auto-expiry is on.
    pub last_insert: Option<(i64, u64)>,
}

/// What the watcher asks of the store after a reading.
#[derive(Debug, PartialEq, Eq)]
pub enum WatchAction {
    Nothing,
    /// Store this content, then report the new entry with `on_stored`.
    Store(String),
    /// Delete this entry: it was copied moments before the clipboard was
    /// cleared, as password managers do.
    Expire(i64),
}

impl WatchState {
    /// The state before the first reading.
    pub fn new() -> (r: WatchState)
        ensures
            r.last_change_count == -1,
            r.inserts_since_prune == 0,
            r.last_insert is None,
    {
        WatchState { last_change_count: -1, inserts_since_prune: 0, last_insert: None }
    }
}

/// The decision after a clipboard reading: nothing when the change count is
/// the same; otherwise store content worth storing; otherwise, with
/// auto-expiry on, forget the last stored entry and expire it when it is
/// younger than `auto_expire_seconds`.
pub fn on_reading(
    state: &mut WatchState,
    content: Option<String>,
    change_count: i64,
    now_ms: u64,
    auto_expire_seconds: u64,
) -> (r: WatchAction)
    ensures
        final(state).inserts_since_prune == old(state).inserts_since_prune,
        change_count == old(state).last_change_count ==> r == WatchAction::Nothing && *final(state) == *old(state),
        change_count != old(state).last_change_count ==> {
            &&& final(state).last_change_count == change_count
            &&& if store_spec(
                match content {
                    Some(t) => Some(t@),
                    None => None,
                },
            ) {
                r == WatchAction::Store(content->0) && final(state).last_insert == old(state).last_insert
            } else if auto_expire_seconds > 0 {
                &&& final(state).last_insert is None
                &&& r == match old(state).last_insert {
                    Some((id, at)) => if now_ms >= at && now_ms - at < auto_expire_seconds * 1000 {
                        WatchAction::Expire(id)
                    } else {
                        WatchAction::Nothing
                    },
                    None => WatchAction::Nothing,
                }
            } else {
                r == WatchAction::Nothing && final(state).last_insert == old(state).last_insert
            }
        },
{
    if change_count == state.last_change_count {
        return WatchAction::Nothing;
    }
    state.last_change_count = change_count;
    if should_store(&content) {
        return match content {
            Some(t) => WatchAction::Store(t),
            None => WatchAction::Nothing,
        };
    }
    if auto_expire_seconds > 0 {
        let last = state.last_insert;
        state.last_insert = None;
        match last {
            Some((id, at)) => {
                let window: u128 = auto_expire_seconds as u128 * 1000;
                if now_ms >= at && ((now_ms - at) as u128) < window {
                    WatchAction::Expire(id)
                } else {
                    WatchAction::Nothing
                }
            },
            None => WatchAction::Nothing,
        }
    } else {
        WatchAction::Nothing
    }
}

/// After storing: counts the entry and, with auto-expiry on, remembers it;
/// says whether the history is due for pruning (every hundred stored
/// entries, when a limit is set), and starts counting again if so.
pub fn on_stored(
    state: &mut WatchState,
    id: Option<i64>,
    now_ms: u64,
    max_entries: usize,
    auto_expire_seconds: u64,
) -> (prune: bool)
    requires
        old(state).inserts_since_prune < u32::MAX,
    ensures
        final(state).last_change_count == old(state).last_change_count,
        final(state).last_insert == match id {
            Some(i) => if auto_expire_seconds > 0 {
                Some((i, now_ms))
            } else {
                None
            },
            None => old(state).last_insert,
        },
        ({
            let n = if id is Some {
                old(state).inserts_since_prune + 1
            } else {
                old(state).inserts_since_prune as int
            };
            &&& prune == (max_entries > 0 && n >= 100)
            &&& final(state).inserts_since_prune == if prune {
                0
            } else {
                n
            }
        }),
{
    if let Some(i) = id {
        state.inserts_since_prune = state.inserts_since_prune + 1;
        state.last_insert = if auto_expire_seconds > 0 { Some((i, now_ms)) } else { None };
    }
    if max_entries > 0 && state.inserts_since_prune >= 100 {
        state.inserts_since_prune = 0;
        true
    } else {
        false
    }
}

} // verus!
