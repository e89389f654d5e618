use vstd::prelude::*;

verus! {

/// A reaction as the chat platform delivers it, and as it takes it back in
/// add/remove-reaction calls.
#[derive(Debug)]
pub enum ReactionKind {
    Custom { animated: bool, id: u64, name: Option<String> },
    Unicode(String),
}

/// The identity of an emoji: a unicode character sequence, or a custom
/// (image-backed) emoji known by its numeric id and, possibly, its name.
#[derive(Debug)]
pub enum Emoji {
    Unicode(String),
    Custom { id: u64, name: Option<String> },
}

/// Mathematical model of an [`Emoji`].
pub enum EmojiView {
    Unicode(Seq<char>),
    Custom { id: u64, name: Option<Seq<char>> },
}

/// What two emoji must share to be the same emoji: the unicode text, or the
/// custom emoji's id (its display name does not count).
pub enum EmojiKey {
    Unicode(Seq<char>),
    Custom(u64),
}

pub open spec fn name_view(name: Option<String>) -> Option<Seq<char>> {
    match name {
        Some(n) => Some(n@),
        None => None,
    }
}

impl EmojiView {
    pub open spec fn key(self) -> EmojiKey {
        match self {
            EmojiView::Unicode(text) => EmojiKey::Unicode(text),
            EmojiView::Custom { id, .. } => EmojiKey::Custom(id),
        }
    }
}

impl View for Emoji {
    type V = EmojiView;

    open spec fn view(&self) -> EmojiView {
        match self {
            Emoji::Unicode(text) => EmojiView::Unicode(text@),
            Emoji::Custom { id, name } => EmojiView::Custom { id: *id, name: name_view(*name) },
        }
    }
}

impl ReactionKind {
    /// The emoji identity that a reaction payload stands for.
    pub open spec fn emoji_view(self) -> EmojiView {
        match self {
            ReactionKind::Custom { id, name, .. } => EmojiView::Custom { id, name: name_view(name) },
            ReactionKind::Unicode(text) => EmojiView::Unicode(text@),
        }
    }
}

fn same_name(a: &Option<String>, b: &Option<String>) -> (r: bool)
    ensures
        r == (name_view(*a) == name_view(*b)),
{
    match (a, b) {
        (Some(x), Some(y)) => *x == *y,
        (None, None) => true,
        _ => false,
    }
}

fn copy_name(name: &Option<String>) -> (r: Option<String>)
    ensures
        name_view(r) == name_view(*name),
{
    match name {
        Some(n) => Some(n.clone()),
        None => None,
    }
}

impl Clone for Emoji {
    fn clone(&self) -> (r: Emoji)
        ensures
            r@ == self@,
    {
        match self {
            Emoji::Unicode(text) => Emoji::Unicode(text.clone()),
            Emoji::Custom { id, name } => Emoji::Custom { id: *id, name: copy_name(name) },
        }
    }
}

impl Emoji {
    /// The emoji that a live reaction payload stands for.
    pub fn from_reaction(reaction: ReactionKind) -> (r: Emoji)
        ensures
            r@ == reaction.emoji_view(),
    {
        match reaction {
            ReactionKind::Custom { id, name, .. } => Emoji::Custom { id, name },
            ReactionKind::Unicode(text) => Emoji::Unicode(text),
        }
    }

    /// The payload that names this emoji in a reaction call; custom emoji are
    /// sent as not animated.
    pub fn to_reaction(&self) -> (r: ReactionKind)
        ensures
            r.emoji_view() == self@,
            r matches ReactionKind::Custom { animated, .. } ==> !animated,
    {
        match self {
            Emoji::Unicode(text) => ReactionKind::Unicode(text.clone()),
            Emoji::Custom { id, name } => ReactionKind::Custom {
                animated: false,
                id: *id,
                name: copy_name(name),
            },
        }
    }

    /// Whether both are the same emoji under the same name.
    pub fn same(&self, other: &Emoji) -> (r: bool)
        ensures
            r == (self@ == other@),
    {
        match (self, other) {
            (Emoji::Unicode(a), Emoji::Unicode(b)) => *a == *b,
            (Emoji::Custom { id: a, name: n }, Emoji::Custom { id: b, name: m }) => *a == *b
                && same_name(n, m),
            _ => false,
        }
    }
}

impl PartialEq for Emoji {
    fn eq(&self, other: &Emoji) -> (r: bool) {
        match (self, other) {
            (Emoji::Unicode(a), Emoji::Unicode(b)) => *a == *b,
            (Emoji::Custom { id: a, .. }, Emoji::Custom { id: b, .. }) => *a == *b,
            _ => false,
        }
    }
}

impl vstd::std_specs::cmp::PartialEqSpecImpl for Emoji {
    open spec fn obeys_eq_spec() -> bool {
        true
    }

    open spec fn eq_spec(&self, other: &Emoji) -> bool {
        self@.key() == other@.key()
    }
}

impl Eq for Emoji {}

} // verus!
