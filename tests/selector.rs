use rolebot::emoji::{Emoji, ReactionKind};
use rolebot::selector::{bind_line, Selector};

fn unicode(s: &str) -> Emoji {
    Emoji::Unicode(s.to_string())
}

fn entries(selector: &Selector) -> Vec<(Emoji, u64)> {
    selector.iter().iter().map(|(e, r)| (e.clone(), *r)).collect()
}

#[test]
fn line_with_role_and_emoji_binds_them() {
    let selector = Selector::parse("<@&111> 🎮 extra text");
    assert_eq!(entries(&selector), vec![(unicode("🎮"), 111)]);
    assert_eq!(selector.get_role(&unicode("🎮")), Some(111));
}

#[test]
fn line_with_only_emoji_or_only_role_binds_nothing() {
    assert_eq!(Selector::parse("🎮 just an emoji").len(), 0);
    assert_eq!(Selector::parse("<@&111> just a role").len(), 0);
    assert_eq!(Selector::parse("").len(), 0);
    assert_eq!(Selector::parse("\n\n").len(), 0);
}

#[test]
fn lines_are_read_in_order() {
    let selector = Selector::parse("<@&10> 🔴\n<@&20> 🔵\r\nno binding here\n<@&30> 🟢\n");
    assert_eq!(
        entries(&selector),
        vec![(unicode("🔴"), 10), (unicode("🔵"), 20), (unicode("🟢"), 30)]
    );
}

#[test]
fn later_line_overrides_same_emoji() {
    let selector = Selector::parse("<@&10> 🔴\n<@&20> 🔵\n<@&30> 🔴");
    assert_eq!(entries(&selector), vec![(unicode("🔴"), 30), (unicode("🔵"), 20)]);
}

#[test]
fn first_role_and_first_emoji_of_a_line_win() {
    let selector = Selector::parse("<@&1> 🔴 <@&2> 🔵");
    assert_eq!(entries(&selector), vec![(unicode("🔴"), 1)]);
}

#[test]
fn digits_are_no_emoji() {
    let selector = Selector::parse("<@&5> 7 🎲");
    assert_eq!(entries(&selector), vec![(unicode("🎲"), 5)]);
    assert_eq!(Selector::parse("<@&5> 123").len(), 0);
}

#[test]
fn custom_emoji_takes_priority_over_unicode() {
    let selector = Selector::parse("🎮 <@&42> <:party:1234>");
    assert_eq!(
        entries(&selector),
        vec![(Emoji::Custom { id: 1234, name: Some("party".to_string()) }, 42)]
    );
}

#[test]
fn malformed_role_mention_is_skipped_for_the_next() {
    let selector = Selector::parse("<@&abc> <@&+77> 🎮");
    assert_eq!(entries(&selector), vec![(unicode("🎮"), 77)]);
    assert_eq!(Selector::parse("<@&99999999999999999999> 🎮").len(), 0);
    assert_eq!(Selector::parse("<@&12 🎮").len(), 0);
}

#[test]
fn malformed_custom_emoji_falls_back_to_unicode() {
    let selector = Selector::parse("<@&3> <:broken> 🎯");
    assert_eq!(entries(&selector), vec![(unicode("🎯"), 3)]);
    let selector = Selector::parse("<@&3> <:ok:x> 🎯");
    assert_eq!(entries(&selector), vec![(unicode("🎯"), 3)]);
}

#[test]
fn custom_emoji_with_wide_name_is_no_custom_emoji() {
    let selector = Selector::parse("<@&3> <:é:12> 🎯");
    assert_eq!(entries(&selector), vec![(unicode("🎯"), 3)]);
}

#[test]
fn parse_is_idempotent() {
    let text = "<@&10> 🔴\n<@&20> <:blue:99>\n<@&30> 🔴";
    let a = Selector::parse(text);
    let b = Selector::parse(text);
    assert!(a.same(&b));
    assert_eq!(entries(&a), entries(&b));
}

#[test]
fn custom_mention_matches_live_reaction_identity() {
    let selector = Selector::parse("<@&8> <:wave:555>");
    let live = Emoji::from_reaction(ReactionKind::Custom {
        animated: true,
        id: 555,
        name: Some("renamed".to_string()),
    });
    assert_eq!(selector.get_role(&live), Some(8));
    assert!(selector.contains(&live));
}

#[test]
fn insert_and_lookup() {
    let mut selector = Selector::new();
    selector.insert_role(unicode("🔴"), 1);
    selector.insert_role(Emoji::Custom { id: 9, name: None }, 2);
    selector.insert_role(unicode("🔴"), 3);
    assert_eq!(selector.len(), 2);
    assert_eq!(selector.get_role(&unicode("🔴")), Some(3));
    assert_eq!(selector.get_role(&Emoji::Custom { id: 9, name: Some("x".to_string()) }), Some(2));
    assert_eq!(selector.get_role(&unicode("🔵")), None);
    assert!(!selector.contains(&unicode("🔵")));
}

#[test]
fn bind_line_takes_the_given_unicode_match() {
    assert_eq!(bind_line("<@&5> anything", Some("x".to_string())), Some((unicode("x"), 5)));
    assert_eq!(
        bind_line("<@&5> <:a:9>", Some("🎮".to_string())),
        Some((Emoji::Custom { id: 9, name: Some("a".to_string()) }, 5))
    );
    assert_eq!(bind_line("no role here", Some("🎮".to_string())), None);
    assert_eq!(bind_line("<@&5> nothing", None), None);
}
