use rolebot::emoji::Emoji;
use rolebot::persistent::Persistent;
use rolebot::reaction_roles::{
    add_reaction, add_selector, delete_message, remove_reaction, update_message, ReactionAction,
    ReactionEvent, State,
};
use rolebot::reconcile::{reconcile, LiveReaction};

fn unicode(s: &str) -> Emoji {
    Emoji::Unicode(s.to_string())
}

fn event(message: u64, emoji: &str) -> ReactionEvent {
    ReactionEvent { guild: Some(1), user: Some(2), message, emoji: unicode(emoji) }
}

#[test]
fn end_to_end_selector_flow() {
    let mut store: Persistent<State> = Persistent::open("rr.json".to_string(), None);
    assert!(add_selector(&mut store, 77, "<@&10> 🔴\n<@&20> 🔵"));
    let selector = store.read().selector(77).unwrap();
    let bindings: Vec<(Emoji, u64)> = selector.iter().iter().map(|(e, r)| (e.clone(), *r)).collect();
    assert_eq!(bindings, vec![(unicode("🔴"), 10), (unicode("🔵"), 20)]);

    let plan = reconcile(selector, &vec![]);
    assert!(plan.remove.is_empty());
    assert_eq!(plan.add, vec![unicode("🔴"), unicode("🔵")]);

    let added = add_reaction(store.read(), &event(77, "🔴"));
    assert_eq!(added, ReactionAction::FetchMember { guild: 1, user: 2, role: 10 });
    assert_eq!(added.for_member(false), ReactionAction::Grant { guild: 1, user: 2, role: 10 });

    let removed = remove_reaction(store.read(), &event(77, "🔴"));
    assert_eq!(removed, ReactionAction::Revoke { guild: 1, user: 2, role: 10 });

    let stray = add_reaction(store.read(), &event(77, "⭐"));
    assert_eq!(stray, ReactionAction::DeleteReaction);
    assert_eq!(remove_reaction(store.read(), &event(77, "⭐")), ReactionAction::Nothing);
}

#[test]
fn bots_get_no_roles() {
    let action = ReactionAction::FetchMember { guild: 1, user: 2, role: 3 };
    assert_eq!(action.for_member(true), ReactionAction::Nothing);
    assert_eq!(ReactionAction::DeleteReaction.for_member(true), ReactionAction::DeleteReaction);
}

#[test]
fn events_off_selectors_or_guilds_do_nothing() {
    let mut store: Persistent<State> = Persistent::open("rr.json".to_string(), None);
    add_selector(&mut store, 77, "<@&10> 🔴");
    assert_eq!(add_reaction(store.read(), &event(78, "🔴")), ReactionAction::Nothing);
    let no_guild = ReactionEvent { guild: None, user: Some(2), message: 77, emoji: unicode("🔴") };
    assert_eq!(add_reaction(store.read(), &no_guild), ReactionAction::Nothing);
    let no_user = ReactionEvent { guild: Some(1), user: None, message: 77, emoji: unicode("🔴") };
    assert_eq!(remove_reaction(store.read(), &no_user), ReactionAction::Nothing);
}

#[test]
fn reconcile_converges_and_then_does_nothing() {
    let mut store: Persistent<State> = Persistent::open("rr.json".to_string(), None);
    add_selector(&mut store, 5, "<@&1> 🔴\n<@&2> 🔵\n<@&3> <:cat:44>");
    let selector = store.read().selector(5).unwrap();
    let live = vec![
        LiveReaction { emoji: unicode("🔴"), me: true },
        LiveReaction { emoji: unicode("⭐"), me: true },
        LiveReaction { emoji: unicode("🔵"), me: false },
        LiveReaction { emoji: unicode("🍕"), me: false },
    ];
    let plan = reconcile(selector, &live);
    assert_eq!(plan.remove, vec![unicode("⭐")]);
    assert_eq!(plan.add, vec![unicode("🔵"), Emoji::Custom { id: 44, name: None }]);

    let after = vec![
        LiveReaction { emoji: unicode("🔴"), me: true },
        LiveReaction { emoji: unicode("🔵"), me: true },
        LiveReaction { emoji: unicode("🍕"), me: false },
        LiveReaction { emoji: Emoji::Custom { id: 44, name: Some("cat".to_string()) }, me: true },
    ];
    let again = reconcile(selector, &after);
    assert!(again.remove.is_empty());
    assert!(again.add.is_empty());
}

#[test]
fn delete_and_edit_messages() {
    let mut store: Persistent<State> = Persistent::open("rr.json".to_string(), None);
    assert!(!delete_message(&mut store, 5));
    add_selector(&mut store, 5, "<@&1> 🔴");

    let none = update_message(&mut store, 6, Some("<@&2> 🔵".to_string()));
    assert!(!none.write && !none.reconcile);
    let empty = update_message(&mut store, 5, None);
    assert!(!empty.write && !empty.reconcile);

    let edit = update_message(&mut store, 5, Some("<@&2> 🔵".to_string()));
    assert!(edit.write && edit.reconcile);
    assert_eq!(store.read().selector(5).unwrap().get_role(&unicode("🔵")), Some(2));
    assert_eq!(store.read().selector(5).unwrap().get_role(&unicode("🔴")), None);

    let same = update_message(&mut store, 5, Some("<@&2> 🔵".to_string()));
    assert!(!same.write && same.reconcile);

    assert!(delete_message(&mut store, 5));
    assert!(!store.read().is_selector(5));
    assert!(store.read().messages().is_empty());
}
