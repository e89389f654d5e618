use rolebot::emoji::{Emoji, ReactionKind};

#[test]
fn unicode_and_custom_are_never_equal() {
    let u = Emoji::Unicode("123".to_string());
    let c = Emoji::Custom { id: 123, name: None };
    assert_ne!(u, c);
}

#[test]
fn custom_identity_is_its_id() {
    let a = Emoji::Custom { id: 7, name: Some("a".to_string()) };
    let b = Emoji::Custom { id: 7, name: Some("b".to_string()) };
    let c = Emoji::Custom { id: 8, name: Some("a".to_string()) };
    assert_eq!(a, b);
    assert_ne!(a, c);
    assert!(!a.same(&b));
    assert!(a.same(&a.clone()));
}

#[test]
fn reaction_payload_round_trip() {
    let e = Emoji::from_reaction(ReactionKind::Custom {
        animated: true,
        id: 5,
        name: Some("cat".to_string()),
    });
    assert!(e.same(&Emoji::Custom { id: 5, name: Some("cat".to_string()) }));
    match e.to_reaction() {
        ReactionKind::Custom { animated, id, name } => {
            assert!(!animated);
            assert_eq!(id, 5);
            assert_eq!(name, Some("cat".to_string()));
        }
        other => panic!("unexpected payload {:?}", other),
    }
    let u = Emoji::from_reaction(ReactionKind::Unicode("⭐".to_string()));
    match u.to_reaction() {
        ReactionKind::Unicode(text) => assert_eq!(text, "⭐"),
        other => panic!("unexpected payload {:?}", other),
    }
}
