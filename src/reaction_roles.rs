use vstd::prelude::*;
use std::collections::HashMap;
use vstd::std_specs::hash::spec_keys_iter;
use vstd::std_specs::iter::IteratorSpec;

use crate::emoji::{Emoji, EmojiView};
use crate::persistent::{Persistable, Persistent};
use crate::selector::{keys_unique, parsed, role_of, Selector};

verus! {

broadcast use vstd::std_specs::hash::group_hash_axioms;

pub open spec fn registry_wf(m: Map<u64, Seq<(EmojiView, u64)>>) -> bool {
    forall|k: u64| #[trigger] m.contains_key(k) ==> keys_unique(m[k])
}

/// The messages that are selectors, each with the table read from it.
pub struct State {
    selectors: HashMap<u64, Selector>,
}

impl View for State {
    type V = Map<u64, Seq<(EmojiView, u64)>>;

    closed spec fn view(&self) -> Map<u64, Seq<(EmojiView, u64)>> {
        self.selectors@.map_values(|s: Selector| s@)
    }
}

impl State {
    pub fn new() -> (r: State)
        ensures
            r@ == Map::<u64, Seq<(EmojiView, u64)>>::empty(),
    {
        let r = State { selectors: HashMap::new() };
        assert(r@ =~= Map::<u64, Seq<(EmojiView, u64)>>::empty());
        r
    }

    /// Registers `message` as a selector with the given table, in place of
    /// any it had.
    pub fn insert_selector(&mut self, message: u64, selector: Selector)
        requires
            registry_wf(old(self)@),
            selector.wf(),
        ensures
            registry_wf(final(self)@),
            final(self)@ == old(self)@.insert(message, selector@),
    {
        let ghost v = selector@;
        self.selectors.insert(message, selector);
        assert(self@ =~= old(self)@.insert(message, v));
    }

    /// Unregisters `message`, handing back its table.
    pub fn remove_selector(&mut self, message: u64) -> (r: Option<Selector>)
        requires
            registry_wf(old(self)@),
        ensures
            registry_wf(final(self)@),
            final(self)@ == old(self)@.remove(message),
            match r {
                Some(s) => old(self)@.contains_key(message) && s@ == old(self)@[message],
                None => !old(self)@.contains_key(message),
            },
    {
        let r = self.selectors.remove(&message);
        assert(self@ =~= old(self)@.remove(message));
        r
    }

    /// The table of `message`, if it is a selector.
    pub fn selector(&self, message: u64) -> (r: Option<&Selector>)
        ensures
            match r {
                Some(s) => self@.contains_key(message) && s@ == self@[message],
                None => !self@.contains_key(message),
            },
    {
        self.selectors.get(&message)
    }

    /// Whether `message` is a selector.
    pub fn is_selector(&self, message: u64) -> (r: bool)
        ensures
            r == self@.contains_key(message),
    {
        self.selectors.contains_key(&message)
    }

    /// The selector messages, in no particular order.
    pub fn messages(&self) -> (r: Vec<u64>)
        ensures
            r@.to_set() == self@.dom(),
            r@.no_duplicates(),
    {
        let mut out: Vec<u64> = Vec::new();
        let ghost all = spec_keys_iter(&self.selectors).remaining().unref();
        let ghost mut n: int = 0;
        for m in it: self.selectors.keys()
            invariant
                all.to_set() == self.selectors@.dom(),
                all.no_duplicates(),
                n == it.index(),
                all == it.seq().unref(),
                out@ == all.take(n),
        {
            out.push(*m);
            proof {
                n = n + 1;
            }
        }
        assert(out@ =~= all);
        assert(self@.dom() =~= self.selectors@.dom());
        out
    }
}

impl Persistable for State {
    open spec fn initial_view() -> Map<u64, Seq<(EmojiView, u64)>> {
        Map::empty()
    }

    fn initial() -> (r: State) {
        State::new()
    }

    fn snapshot(&self) -> (r: State) {
        let r = State { selectors: self.selectors.clone() };
        assert(r@ =~= self@);
        r
    }

    fn same(&self, other: &State) -> (r: bool) {
        if self.selectors.len() != other.selectors.len() {
            proof {
                if self@ == other@ {
                    assert(self.selectors@.dom() =~= self@.dom());
                    assert(other.selectors@.dom() =~= other@.dom());
                }
            }
            return false;
        }
        let ghost keys = spec_keys_iter(&self.selectors).remaining().unref();
        let ghost mut m: int = 0;
        for message in it: self.selectors.keys()
            invariant
                keys.to_set() == self.selectors@.dom(),
                keys.no_duplicates(),
                m == it.index(),
                keys == it.seq().unref(),
                self.selectors@.len() == other.selectors@.len(),
                forall|i: int| 0 <= i < m ==> other.selectors@.contains_key(#[trigger] keys[i])
                    && other.selectors@[keys[i]]@ == self.selectors@[keys[i]]@,
        {
            proof {
                assert(keys[m] == *message);
            }
            match other.selectors.get(message) {
                Some(theirs) => {
                    if !self.selectors.get(message).unwrap().same(theirs) {
                        proof {
                            assert(self@[*message] != other@[*message]);
                        }
                        return false;
                    }
                },
                None => {
                    proof {
                        assert(self@.contains_key(*message));
                        assert(!other@.contains_key(*message));
                    }
                    return false;
                },
            }
            proof {
                m = m + 1;
            }
        }
        proof {
            assert forall|x: u64| #[trigger] self.selectors@.contains_key(x) implies other.selectors@.contains_key(x)
                && other.selectors@[x]@ == self.selectors@[x]@ by {
                assert(keys.to_set().contains(x));
                let i = choose|i: int| 0 <= i < keys.len() && keys[i] == x;
            }
            vstd::set_lib::lemma_subset_equality(self.selectors@.dom(), other.selectors@.dom());
            assert(self@ =~= other@);
        }
        true
    }
}

/// A reaction added to or taken off a message.
pub struct ReactionEvent {
    pub guild: Option<u64>,
    pub user: Option<u64>,
    pub message: u64,
    pub emoji: Emoji,
}

/// What a reaction event calls for.
#[derive(Debug, PartialEq, Eq, Structural)]
pub enum ReactionAction {
    Nothing,
    /// Fetch the member, then see [`ReactionAction::for_member`].
    FetchMember { guild: u64, user: u64, role: u64 },
    /// Give the member the role.
    Grant { guild: u64, user: u64, role: u64 },
    /// Take the role from the member.
    Revoke { guild: u64, user: u64, role: u64 },
    /// Take the reaction off the message: its emoji maps to no role.
    DeleteReaction,
}

/// What a reaction added to a message calls for.
pub open spec fn added_step(m: Map<u64, Seq<(EmojiView, u64)>>, guild: Option<u64>, user: Option<u64>, message: u64, emoji: EmojiView) -> ReactionAction {
    match (guild, user) {
        (Some(g), Some(u)) => if !m.contains_key(message) {
            ReactionAction::Nothing
        } else {
            match role_of(m[message], emoji.key()) {
                Some(r) => ReactionAction::FetchMember { guild: g, user: u, role: r },
                None => ReactionAction::DeleteReaction,
            }
        },
        _ => ReactionAction::Nothing,
    }
}

/// What a reaction taken off a message calls for.
pub open spec fn removed_step(m: Map<u64, Seq<(EmojiView, u64)>>, guild: Option<u64>, user: Option<u64>, message: u64, emoji: EmojiView) -> ReactionAction {
    match (guild, user) {
        (Some(g), Some(u)) => if !m.contains_key(message) {
            ReactionAction::Nothing
        } else {
            match role_of(m[message], emoji.key()) {
                Some(r) => ReactionAction::Revoke { guild: g, user: u, role: r },
                None => ReactionAction::Nothing,
            }
        },
        _ => ReactionAction::Nothing,
    }
}

/// A user added a reaction: on a selector, an emoji with a role makes the
/// member a candidate for it, and any other emoji is taken off again.
pub fn add_reaction(state: &State, event: &ReactionEvent) -> (r: ReactionAction)
    ensures
        r == added_step(state@, event.guild, event.user, event.message, event.emoji@),
{
    let (guild, user) = match (event.guild, event.user) {
        (Some(g), Some(u)) => (g, u),
        _ => {
            return ReactionAction::Nothing;
        },
    };
    match state.selector(event.message) {
        Some(selector) => match selector.get_role(&event.emoji) {
            Some(role) => ReactionAction::FetchMember { guild, user, role },
            None => ReactionAction::DeleteReaction,
        },
        None => ReactionAction::Nothing,
    }
}

/// A user took a reaction off: on a selector, the emoji's role is taken back.
pub fn remove_reaction(state: &State, event: &ReactionEvent) -> (r: ReactionAction)
    ensures
        r == removed_step(state@, event.guild, event.user, event.message, event.emoji@),
{
    let (guild, user) = match (event.guild, event.user) {
        (Some(g), Some(u)) => (g, u),
        _ => {
            return ReactionAction::Nothing;
        },
    };
    match state.selector(event.message) {
        Some(selector) => match selector.get_role(&event.emoji) {
            Some(role) => ReactionAction::Revoke { guild, user, role },
            None => ReactionAction::Nothing,
        },
        None => ReactionAction::Nothing,
    }
}

impl ReactionAction {
    /// The action once the member is known: bots are given no roles.
    pub fn for_member(self, is_bot: bool) -> (r: ReactionAction)
        ensures
            r == match self {
                ReactionAction::FetchMember { guild, user, role } => if is_bot {
                    ReactionAction::Nothing
                } else {
                    ReactionAction::Grant { guild, user, role }
                },
                _ => self,
            },
    {
        match self {
            ReactionAction::FetchMember { guild, user, role } => {
                if is_bot {
                    ReactionAction::Nothing
                } else {
                    ReactionAction::Grant { guild, user, role }
                }
            },
            other => other,
        }
    }
}

/// A message was deleted: a selector message is unregistered. The result
/// says whether the store has to be written.
pub fn delete_message(store: &mut Persistent<State>, message: u64) -> (changed: bool)
    requires
        registry_wf(old(store)@),
    ensures
        registry_wf(final(store)@),
        final(store)@ == old(store)@.remove(message),
        final(store).path_view() == old(store).path_view(),
        changed == old(store)@.contains_key(message),
{
    if !store.read().is_selector(message) {
        assert(old(store)@.remove(message) =~= old(store)@);
        return false;
    }
    let mut next = store.read().snapshot();
    next.remove_selector(message);
    store.write(next)
}

/// Registers `message` as a selector, with the table read from `content`.
/// The result says whether the store has to be written.
pub fn add_selector(store: &mut Persistent<State>, message: u64, content: &str) -> (changed: bool)
    requires
        registry_wf(old(store)@),
    ensures
        registry_wf(final(store)@),
        final(store)@ == old(store)@.insert(message, parsed(content@)),
        final(store).path_view() == old(store).path_view(),
        changed == (old(store)@ != final(store)@),
{
    let mut next = store.read().snapshot();
    next.insert_selector(message, Selector::parse(content));
    store.write(next)
}

/// What an edit of a message calls for.
pub struct EditOutcome {
    /// The store has to be written.
    pub write: bool,
    /// The message's reactions have to be brought in line with its selector.
    pub reconcile: bool,
}

/// A message was edited: a selector message gets the table read from its new
/// content, and its reactions are to be reconciled. Edits that carry no
/// content, and other messages, change nothing.
pub fn update_message(store: &mut Persistent<State>, message: u64, content: Option<String>) -> (r: EditOutcome)
    requires
        registry_wf(old(store)@),
    ensures
        registry_wf(final(store)@),
        final(store).path_view() == old(store).path_view(),
        match content {
            Some(text) => if old(store)@.contains_key(message) {
                &&& final(store)@ == old(store)@.insert(message, parsed(text@))
                &&& r.reconcile
                &&& r.write == (old(store)@ != final(store)@)
            } else {
                final(store)@ == old(store)@ && !r.reconcile && !r.write
            },
            None => final(store)@ == old(store)@ && !r.reconcile && !r.write,
        },
{
    match content {
        Some(text) => {
            if !store.read().is_selector(message) {
                return EditOutcome { write: false, reconcile: false };
            }
            let write = add_selector(store, message, &text);
            EditOutcome { write, reconcile: true }
        },
        None => EditOutcome { write: false, reconcile: false },
    }
}

} // verus!
