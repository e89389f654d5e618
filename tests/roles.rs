use rolebot::persistent::{Persistable, Persistent};
use rolebot::persistent_roles::{
    add_role, guild_member_addition, guild_member_update, remove_role, users_with_role,
    GuildState, JoinAction, MemberRoles, State,
};

fn sorted(mut v: Vec<u64>) -> Vec<u64> {
    v.sort();
    v
}

#[test]
fn add_role_snapshots_current_holders_once() {
    let mut g = GuildState::new();
    g.add_role(1, vec![100, 200]);
    assert_eq!(g.user_roles(100), vec![1]);
    assert_eq!(g.user_roles(200), vec![1]);
    g.add_role(1, vec![300]);
    assert_eq!(g.user_roles(300), Vec::<u64>::new());
    g.add_role(2, vec![100]);
    assert_eq!(g.user_roles(100), vec![1, 2]);
    assert_eq!(sorted(g.tracked_roles()), vec![1, 2]);
}

#[test]
fn remove_role_strips_and_purges() {
    let mut g = GuildState::new();
    g.add_role(1, vec![100, 200]);
    g.add_role(2, vec![100]);
    g.remove_role(1);
    assert_eq!(g.user_roles(100), vec![2]);
    assert_eq!(g.users(), vec![100]);
    assert!(!g.tracks(1));
    g.remove_role(7);
    assert_eq!(g.user_roles(100), vec![2]);
}

#[test]
fn set_user_roles_empty_drops_user() {
    let mut g = GuildState::new();
    g.add_role(1, vec![]);
    g.set_user_roles(5, vec![1]);
    assert_eq!(g.user_roles(5), vec![1]);
    g.set_user_roles(5, vec![]);
    assert!(g.users().is_empty());
}

#[test]
fn from_parts_checks_invariants() {
    assert!(GuildState::from_parts(vec![1, 2], vec![(5, vec![2, 1])]).is_some());
    assert!(GuildState::from_parts(vec![1], vec![(5, vec![])]).is_none());
    assert!(GuildState::from_parts(vec![1], vec![(5, vec![3])]).is_none());
}

#[test]
fn users_with_role_filters_in_order() {
    let members = vec![
        MemberRoles { user: 1, roles: vec![4, 5] },
        MemberRoles { user: 2, roles: vec![6] },
        MemberRoles { user: 3, roles: vec![5] },
    ];
    assert_eq!(users_with_role(&members, 5), vec![1, 3]);
    assert_eq!(users_with_role(&members, 9), Vec::<u64>::new());
}

#[test]
fn member_update_keeps_tracked_roles_only() {
    let mut store: Persistent<State> = Persistent::open("p.json".to_string(), None);
    assert!(!guild_member_update(&mut store, 1, 10, &vec![1, 2]));
    assert!(add_role(&mut store, 1, 2, vec![]));
    assert!(guild_member_update(&mut store, 1, 10, &vec![1, 2, 3]));
    assert_eq!(store.read().guild(1).unwrap().user_roles(10), vec![2]);
    assert!(!guild_member_update(&mut store, 1, 10, &vec![2]));
    assert!(guild_member_update(&mut store, 1, 10, &vec![3]));
    assert!(store.read().guild(1).unwrap().users().is_empty());
}

#[test]
fn rejoin_restores_snapshot() {
    let mut store: Persistent<State> = Persistent::open("p.json".to_string(), None);
    add_role(&mut store, 7, 100, vec![1]);
    add_role(&mut store, 7, 200, vec![1]);
    let action = guild_member_addition(store.read(), 7, 1);
    match action.with_permission(true) {
        JoinAction::Grant(roles) => assert_eq!(roles, vec![100, 200]),
        _ => panic!("expected a grant"),
    }
    let denied = guild_member_addition(store.read(), 7, 1).with_permission(false);
    assert!(matches!(denied, JoinAction::Nothing));
    let stranger = guild_member_addition(store.read(), 7, 2);
    assert!(matches!(stranger, JoinAction::Nothing));
    assert!(matches!(guild_member_addition(store.read(), 8, 1), JoinAction::Nothing));
}

#[test]
fn remove_role_command_purges_state() {
    let mut store: Persistent<State> = Persistent::open("p.json".to_string(), None);
    add_role(&mut store, 7, 100, vec![1, 2]);
    add_role(&mut store, 7, 200, vec![1]);
    assert!(remove_role(&mut store, 7, 100));
    let g = store.read().guild(7).unwrap();
    assert_eq!(g.users(), vec![1]);
    assert_eq!(g.user_roles(1), vec![200]);
    assert!(!remove_role(&mut store, 7, 100));
    assert!(!remove_role(&mut store, 9, 100));
    assert!(matches!(guild_member_addition(store.read(), 7, 2), JoinAction::Nothing));
    assert_eq!(store.read().guild_ids(), vec![7]);
    let copy = store.read().snapshot();
    assert!(copy.same(store.read()));
}
