use clis::rippy::watcher::{on_reading, on_stored, should_store, WatchAction, WatchState, MAX_ENTRY_SIZE};

#[test]
fn should_store_rejects_none() {
    assert!(!should_store(&None));
}

#[test]
fn should_store_accepts_normal_content() {
    assert!(should_store(&Some("hello".to_string())));
}

#[test]
fn should_store_rejects_oversized_content() {
    let big = "x".repeat(MAX_ENTRY_SIZE + 1);
    assert!(!should_store(&Some(big)));
}

/// A store that keeps entries in memory, standing in for the database.
struct MemStore {
    next_id: i64,
    entries: Vec<(i64, String)>,
}

impl MemStore {
    fn new() -> Self {
        MemStore { next_id: 1, entries: Vec::new() }
    }
    fn insert(&mut self, content: &str) -> i64 {
        let id = self.next_id;
        self.next_id += 1;
        self.entries.push((id, content.to_string()));
        id
    }
    fn delete(&mut self, id: i64) {
        self.entries.retain(|(i, _)| *i != id);
    }
    fn count(&self) -> usize {
        self.entries.len()
    }
}

/// Runs the watcher's decisions over a sequence of clipboard readings, all
/// at the same instant.
fn run_poll_with_sequence(store: &mut MemStore, auto_expire_seconds: u64, steps: Vec<(Option<String>, i64)>) {
    let mut state = WatchState::new();
    let now_ms = 1_000u64;
    for (content, change_count) in steps {
        match on_reading(&mut state, content, change_count, now_ms, auto_expire_seconds) {
            WatchAction::Store(text) => {
                let id = store.insert(&text);
                on_stored(&mut state, Some(id), now_ms, 0, auto_expire_seconds);
            }
            WatchAction::Expire(id) => store.delete(id),
            WatchAction::Nothing => {}
        }
    }
}

#[test]
fn auto_expire_deletes_short_lived_entry() {
    let mut store = MemStore::new();
    run_poll_with_sequence(
        &mut store,
        30,
        vec![(Some("s3cr3t_password".to_string()), 1), (None, 2)],
    );
    assert_eq!(store.count(), 0, "transient entry should be deleted");
}

#[test]
fn auto_expire_disabled_keeps_entry_after_clear() {
    let mut store = MemStore::new();
    run_poll_with_sequence(&mut store, 0, vec![(Some("s3cr3t_password".to_string()), 1), (None, 2)]);
    assert_eq!(store.count(), 1, "entry should remain when auto-expire is disabled");
}

#[test]
fn auto_expire_keeps_entry_replaced_by_new_content() {
    let mut store = MemStore::new();
    run_poll_with_sequence(
        &mut store,
        30,
        vec![(Some("first copy".to_string()), 1), (Some("second copy".to_string()), 2)],
    );
    assert_eq!(store.count(), 2);
}

#[test]
fn auto_expire_only_deletes_most_recent() {
    let mut store = MemStore::new();
    run_poll_with_sequence(
        &mut store,
        30,
        vec![
            (Some("normal text".to_string()), 1),
            (Some("s3cr3t".to_string()), 2),
            (None, 3),
        ],
    );
    assert_eq!(store.count(), 1);
    assert_eq!(store.entries[0].1, "normal text");
}

#[test]
fn no_change_count_change_does_nothing() {
    let mut store = MemStore::new();
    run_poll_with_sequence(
        &mut store,
        30,
        vec![
            (Some("hello".to_string()), 1),
            (Some("hello".to_string()), 1),
            (Some("hello".to_string()), 1),
        ],
    );
    assert_eq!(store.count(), 1);
}

#[test]
fn expiry_window_is_exclusive() {
    let mut state = WatchState::new();
    assert_eq!(on_reading(&mut state, Some("pw".to_string()), 1, 0, 2), WatchAction::Store("pw".to_string()));
    on_stored(&mut state, Some(5), 0, 0, 2);
    // Cleared exactly two seconds later: no longer within the window.
    assert_eq!(on_reading(&mut state, None, 2, 2000, 2), WatchAction::Nothing);
    assert!(state.last_insert.is_none());
}

#[test]
fn prune_every_hundred_inserts() {
    let mut state = WatchState::new();
    let mut prunes = 0;
    for i in 0..250i64 {
        if on_stored(&mut state, Some(i), 0, 10, 0) {
            prunes += 1;
        }
    }
    assert_eq!(prunes, 2);
    assert_eq!(state.inserts_since_prune, 50);
}

#[test]
fn no_prune_without_limit() {
    let mut state = WatchState::new();
    for i in 0..150i64 {
        assert!(!on_stored(&mut state, Some(i), 0, 0, 0));
    }
    assert_eq!(state.inserts_since_prune, 150);
}
