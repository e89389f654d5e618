use vstd::prelude::*;

use crate::emoji::{Emoji, EmojiKey, EmojiView};
use crate::selector::{keys_of, Selector};

verus! {

/// One reaction on a message: its emoji, and whether the bot placed it.
pub struct LiveReaction {
    pub emoji: Emoji,
    pub me: bool,
}

/// The reaction calls that bring a message in line with its selector.
pub struct ReconcilePlan {
    /// The bot's own reactions to take off, in the order the message lists them.
    pub remove: Vec<Emoji>,
    /// The reactions for the bot to add, in selector order.
    pub add: Vec<Emoji>,
}

pub open spec fn live_view(live: Seq<LiveReaction>) -> Seq<(EmojiView, bool)> {
    live.map_values(|r: LiveReaction| (r.emoji@, r.me))
}

pub open spec fn emoji_views(v: Seq<Emoji>) -> Seq<EmojiView> {
    v.map_values(|e: Emoji| e@)
}

/// The keys of the reactions that the bot placed.
pub open spec fn own_keys(live: Seq<(EmojiView, bool)>) -> Set<EmojiKey> {
    Set::new(|k: EmojiKey| exists|i: int| 0 <= i < live.len() && live[i].1 && live[i].0.key() == k)
}

pub open spec fn view_keys(v: Seq<EmojiView>) -> Set<EmojiKey> {
    Set::new(|k: EmojiKey| exists|i: int| 0 <= i < v.len() && v[i].key() == k)
}

/// The bot's reactions whose emoji the selector does not bind.
pub open spec fn stale(sel: Seq<(EmojiView, u64)>, live: Seq<(EmojiView, bool)>) -> Seq<EmojiView>
    decreases live.len(),
{
    if live.len() == 0 {
        seq![]
    } else {
        let prev = stale(sel, live.drop_last());
        if live.last().1 && !keys_of(sel).contains(live.last().0.key()) {
            prev.push(live.last().0)
        } else {
            prev
        }
    }
}

/// The selector's emoji that are not among the bot's reactions.
pub open spec fn missing(sel: Seq<(EmojiView, u64)>, own: Set<EmojiKey>) -> Seq<EmojiView>
    decreases sel.len(),
{
    if sel.len() == 0 {
        seq![]
    } else {
        let prev = missing(sel.drop_last(), own);
        if !own.contains(sel.last().0.key()) {
            prev.push(sel.last().0)
        } else {
            prev
        }
    }
}

/// The reactions of a message once a plan has been carried out: the bot's
/// reactions with a removed key are gone, and the added ones are the bot's.
pub open spec fn after_plan(
    live: Seq<(EmojiView, bool)>,
    remove: Seq<EmojiView>,
    add: Seq<EmojiView>,
) -> Seq<(EmojiView, bool)> {
    live.map_values(|r: (EmojiView, bool)| (r.0, r.1 && !view_keys(remove).contains(r.0.key())))
        + add.map_values(|e: EmojiView| (e, true))
}

proof fn lemma_stale_keys(sel: Seq<(EmojiView, u64)>, live: Seq<(EmojiView, bool)>)
    ensures
        view_keys(stale(sel, live)) == own_keys(live).difference(keys_of(sel)),
    decreases live.len(),
{
    if live.len() > 0 {
        let prev_live = live.drop_last();
        lemma_stale_keys(sel, prev_live);
        let s = stale(sel, live);
        let p = stale(sel, prev_live);
        assert forall|k: EmojiKey| #[trigger] view_keys(s).contains(k) <==> own_keys(live).difference(keys_of(sel)).contains(k) by {
            if view_keys(p).contains(k) {
                let i = choose|i: int| 0 <= i < p.len() && p[i].key() == k;
                assert(s[i] == p[i]);
                let j = choose|j: int| 0 <= j < prev_live.len() && prev_live[j].1 && prev_live[j].0.key() == k;
                assert(live[j] == prev_live[j]);
            }
            if view_keys(s).contains(k) {
                let i = choose|i: int| 0 <= i < s.len() && s[i].key() == k;
                if i < p.len() {
                    assert(view_keys(p).contains(k));
                } else {
                    assert(live[live.len() - 1] == live.last());
                }
            }
            if own_keys(live).difference(keys_of(sel)).contains(k) {
                let j = choose|j: int| 0 <= j < live.len() && live[j].1 && live[j].0.key() == k;
                if j < live.len() - 1 {
                    assert(prev_live[j] == live[j]);
                    assert(own_keys(prev_live).contains(k));
                    let i = choose|i: int| 0 <= i < p.len() && p[i].key() == k;
                    assert(s[i] == p[i]);
                } else {
                    assert(s[s.len() - 1] == live.last().0);
                }
            }
        }
        assert(view_keys(s) =~= own_keys(live).difference(keys_of(sel)));
    } else {
        assert(view_keys(stale(sel, live)) =~= own_keys(live).difference(keys_of(sel)));
    }
}

proof fn lemma_missing_keys(sel: Seq<(EmojiView, u64)>, own: Set<EmojiKey>)
    ensures
        view_keys(missing(sel, own)) == keys_of(sel).difference(own),
    decreases sel.len(),
{
    if sel.len() > 0 {
        let prev_sel = sel.drop_last();
        lemma_missing_keys(prev_sel, own);
        let s = missing(sel, own);
        let p = missing(prev_sel, own);
        assert forall|k: EmojiKey| #[trigger] view_keys(s).contains(k) <==> keys_of(sel).difference(own).contains(k) by {
            if view_keys(p).contains(k) {
                let i = choose|i: int| 0 <= i < p.len() && p[i].key() == k;
                assert(s[i] == p[i]);
                let j = choose|j: int| 0 <= j < prev_sel.len() && prev_sel[j].0.key() == k;
                assert(sel[j] == prev_sel[j]);
            }
            if view_keys(s).contains(k) {
                let i = choose|i: int| 0 <= i < s.len() && s[i].key() == k;
                if i < p.len() {
                    assert(view_keys(p).contains(k));
                } else {
                    assert(sel[sel.len() - 1] == sel.last());
                }
            }
            if keys_of(sel).difference(own).contains(k) {
                let j = choose|j: int| 0 <= j < sel.len() && sel[j].0.key() == k;
                if j < sel.len() - 1 {
                    assert(prev_sel[j] == sel[j]);
                    assert(keys_of(prev_sel).contains(k));
                    let i = choose|i: int| 0 <= i < p.len() && p[i].key() == k;
                    assert(s[i] == p[i]);
                } else {
                    assert(s[s.len() - 1] == sel.last().0);
                }
            }
        }
        assert(view_keys(s) =~= keys_of(sel).difference(own));
    } else {
        assert(view_keys(missing(sel, own)) =~= keys_of(sel).difference(own));
    }
}

proof fn lemma_after_plan_keys(live: Seq<(EmojiView, bool)>, remove: Seq<EmojiView>, add: Seq<EmojiView>)
    ensures
        own_keys(after_plan(live, remove, add)) == own_keys(live).difference(view_keys(remove)).union(
            view_keys(add),
        ),
{
    let a = after_plan(live, remove, add);
    let n = live.len();
    assert forall|k: EmojiKey| #[trigger] own_keys(a).contains(k) <==> own_keys(live).difference(view_keys(remove)).union(view_keys(add)).contains(k) by {
        if own_keys(a).contains(k) {
            let i = choose|i: int| 0 <= i < a.len() && a[i].1 && a[i].0.key() == k;
            if i >= n {
                assert(add[i - n].key() == k);
            }
        }
        if own_keys(live).difference(view_keys(remove)).contains(k) {
            let j = choose|j: int| 0 <= j < live.len() && live[j].1 && live[j].0.key() == k;
            assert(a[j].1 && a[j].0.key() == k);
        }
        if view_keys(add).contains(k) {
            let j = choose|j: int| 0 <= j < add.len() && add[j].key() == k;
            assert(a[n + j].1 && a[n + j].0.key() == k);
        }
    }
    assert(own_keys(a) =~= own_keys(live).difference(view_keys(remove)).union(view_keys(add)));
}

/// Reconciling converges: once the plan has been carried out, the bot's own
/// reactions are exactly the selector's emoji, and a second plan for the
/// message that results is empty.
pub proof fn lemma_reconcile_converges(sel: Seq<(EmojiView, u64)>, live: Seq<(EmojiView, bool)>)
    ensures
        ({
            let after = after_plan(live, stale(sel, live), missing(sel, own_keys(live)));
            &&& own_keys(after) == keys_of(sel)
            &&& stale(sel, after) == Seq::<EmojiView>::empty()
            &&& missing(sel, own_keys(after)) == Seq::<EmojiView>::empty()
        }),
{
    let remove = stale(sel, live);
    let add = missing(sel, own_keys(live));
    let after = after_plan(live, remove, add);
    lemma_stale_keys(sel, live);
    lemma_missing_keys(sel, own_keys(live));
    lemma_after_plan_keys(live, remove, add);
    assert(own_keys(after) =~= keys_of(sel));
    lemma_stale_keys(sel, after);
    lemma_missing_keys(sel, own_keys(after));
    let s2 = stale(sel, after);
    let m2 = missing(sel, own_keys(after));
    if s2.len() > 0 {
        assert(view_keys(s2).contains(s2[0].key()));
    }
    if m2.len() > 0 {
        assert(view_keys(m2).contains(m2[0].key()));
    }
}

/// Whether some emoji of `v` has the key of `e`.
fn holds_key(v: &Vec<Emoji>, e: &Emoji) -> (r: bool)
    ensures
        r == view_keys(emoji_views(v@)).contains(e@.key()),
{
    let mut i: usize = 0;
    while i < v.len()
        invariant
            i <= v.len(),
            forall|j: int| 0 <= j < i ==> v@[j]@.key() != e@.key(),
        decreases v.len() - i,
    {
        if v[i] == *e {
            assert(emoji_views(v@)[i as int].key() == e@.key());
            return true;
        }
        i = i + 1;
    }
    proof {
        if view_keys(emoji_views(v@)).contains(e@.key()) {
            let j = choose|j: int| 0 <= j < v@.len() && emoji_views(v@)[j].key() == e@.key();
            assert(v@[j]@.key() != e@.key());
        }
    }
    false
}

/// The reactions to take off and to add so that the bot's own reactions on a
/// message become exactly the selector's emoji.
pub fn reconcile(selector: &Selector, live: &Vec<LiveReaction>) -> (r: ReconcilePlan)
    ensures
        emoji_views(r.remove@) == stale(selector@, live_view(live@)),
        emoji_views(r.add@) == missing(selector@, own_keys(live_view(live@))),
{
    let ghost lv = live_view(live@);
    let mut own: Vec<Emoji> = Vec::new();
    let mut remove: Vec<Emoji> = Vec::new();
    let mut i: usize = 0;
    while i < live.len()
        invariant
            i <= live.len(),
            lv == live_view(live@),
            emoji_views(remove@) == stale(selector@, lv.take(i as int)),
            view_keys(emoji_views(own@)) == own_keys(lv.take(i as int)),
        decreases live.len() - i,
    {
        let ghost before = own@;
        let reaction = &live[i];
        proof {
            assert(lv.take(i + 1).drop_last() =~= lv.take(i as int));
            assert(lv.take(i + 1).last() == (reaction.emoji@, reaction.me));
        }
        if reaction.me {
            if !selector.contains(&reaction.emoji) {
                remove.push(reaction.emoji.clone());
                assert(emoji_views(remove@) =~= stale(selector@, lv.take(i + 1)));
            }
            own.push(reaction.emoji.clone());
        }
        assert(emoji_views(remove@) =~= stale(selector@, lv.take(i + 1)));
        proof {
            let t = lv.take(i + 1);
            assert forall|k: EmojiKey| #[trigger] view_keys(emoji_views(own@)).contains(k) <==> own_keys(t).contains(k) by {
                if own_keys(t).contains(k) {
                    let j = choose|j: int| 0 <= j < t.len() && t[j].1 && t[j].0.key() == k;
                    if j < i {
                        assert(lv.take(i as int)[j] == t[j]);
                        assert(own_keys(lv.take(i as int)).contains(k));
                        let m = choose|m: int| 0 <= m < before.len() && emoji_views(before)[m].key() == k;
                        assert(emoji_views(own@)[m] == emoji_views(before)[m]);
                    } else {
                        assert(emoji_views(own@)[own@.len() - 1].key() == k);
                    }
                }
                if view_keys(emoji_views(own@)).contains(k) {
                    let m = choose|m: int| 0 <= m < own@.len() && emoji_views(own@)[m].key() == k;
                    if m < before.len() {
                        assert(emoji_views(before)[m] == emoji_views(own@)[m]);
                        assert(view_keys(emoji_views(before)).contains(k));
                        let j = choose|j: int| 0 <= j < i && lv.take(i as int)[j].1 && lv.take(i as int)[j].0.key() == k;
                        assert(t[j] == lv.take(i as int)[j]);
                    } else {
                        assert(t[i as int].1 && t[i as int].0.key() == k);
                    }
                }
            }
            assert(view_keys(emoji_views(own@)) =~= own_keys(t));
        }
        i = i + 1;
    }
    assert(lv.take(live.len() as int) =~= lv);
    let entries = selector.iter();
    let mut add: Vec<Emoji> = Vec::new();
    let mut j: usize = 0;
    let ghost sel = selector@;
    while j < entries.len()
        invariant
            j <= entries.len(),
            sel == selector@,
            entries@.map_values(|p: (Emoji, u64)| (p.0@, p.1)) == sel,
            view_keys(emoji_views(own@)) == own_keys(lv),
            emoji_views(add@) == missing(sel.take(j as int), own_keys(lv)),
        decreases entries.len() - j,
    {
        proof {
            assert(sel.take(j + 1).drop_last() =~= sel.take(j as int));
            assert(sel.take(j + 1).last() == sel[j as int]);
            assert(sel[j as int].0 == entries@[j as int].0@);
        }
        if !holds_key(&own, &entries[j].0) {
            add.push(entries[j].0.clone());
        }
        assert(emoji_views(add@) =~= missing(sel.take(j + 1), own_keys(lv)));
        j = j + 1;
    }
    assert(sel.take(entries.len() as int) =~= sel);
    ReconcilePlan { remove, add }
}

} // verus!
