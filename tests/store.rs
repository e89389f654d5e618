use rolebot::persistent::{Persistable, Persistent};
use rolebot::persistent_roles::State as RoleState;
use rolebot::reaction_roles::State as Registry;
use rolebot::selector::Selector;

#[test]
fn open_without_file_starts_empty() {
    let store: Persistent<Registry> = Persistent::open("reaction_roles.json".to_string(), None);
    assert!(store.read().messages().is_empty());
    assert_eq!(store.path(), "reaction_roles.json");
}

#[test]
fn write_of_equal_value_is_suppressed() {
    let mut store: Persistent<RoleState> = Persistent::open("roles.json".to_string(), None);
    let same = store.read().snapshot();
    assert!(!store.write(same));
    let mut next = store.read().snapshot();
    next.track_role(1, 2, vec![3]);
    assert!(store.write(next));
    let again = store.read().snapshot();
    assert!(!store.write(again));
}

#[test]
fn reopen_after_write_reads_back() {
    let mut store: Persistent<Registry> = Persistent::open("rr.json".to_string(), None);
    let mut next = store.read().snapshot();
    next.insert_selector(77, Selector::parse("<@&10> 🔴"));
    assert!(store.write(next));
    let written = store.read().snapshot();
    let reopened = Persistent::open("rr.json".to_string(), Some(written));
    assert!(reopened.read().same(store.read()));
    assert_eq!(reopened.read().selector(77).map(|s| s.len()), Some(1));
}

#[test]
fn states_compare_by_value() {
    let mut a = RoleState::new();
    let mut b = RoleState::new();
    a.track_role(1, 5, vec![9, 8]);
    b.track_role(1, 5, vec![9, 8]);
    assert!(a.same(&b));
    b.record_member(1, 9, &vec![]);
    assert!(!a.same(&b));
}
