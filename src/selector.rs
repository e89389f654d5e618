use vstd::prelude::*;
use vstd::string::StrSliceExecFns;

use crate::emoji::{Emoji, EmojiKey, EmojiView};
use crate::mention::{
    emoji_mention, emoji_mention_readable, emoji_name_end, find_first, first_match,
    is_ascii_char, parse_emoji_mention, parse_role_mention, role_mention,
};
use crate::scan::{
    chars_of, copy_range, find_char, find_from, lemma_find_from, lemma_find_from_skip, lines_of,
    strip_cr,
};

verus! {

/// The character class that a unicode emoji on a selector line is taken from:
/// the Emoji property, without the decimal digits.
pub const UNICODE_EMOJI: &'static str = "[\\p{Emoji}--\\p{Digit}]";

/// Index of the first entry at or after `i` whose emoji has key `k`.
pub open spec fn key_index_from(s: Seq<(EmojiView, u64)>, k: EmojiKey, i: int) -> Option<int>
    decreases s.len() - i,
{
    if i < 0 || i >= s.len() {
        None
    } else if s[i].0.key() == k {
        Some(i)
    } else {
        key_index_from(s, k, i + 1)
    }
}

pub open spec fn key_index(s: Seq<(EmojiView, u64)>, k: EmojiKey) -> Option<int> {
    key_index_from(s, k, 0)
}

/// The role bound to the emoji key `k`.
pub open spec fn role_of(s: Seq<(EmojiView, u64)>, k: EmojiKey) -> Option<u64> {
    match key_index(s, k) {
        Some(i) => Some(s[i].1),
        None => None,
    }
}

/// No emoji key stands twice.
pub open spec fn keys_unique(s: Seq<(EmojiView, u64)>) -> bool {
    forall|i: int, j: int| 0 <= i < j < s.len() ==> s[i].0.key() != s[j].0.key()
}

/// The keys that a table binds.
pub open spec fn keys_of(s: Seq<(EmojiView, u64)>) -> Set<EmojiKey> {
    Set::new(|k: EmojiKey| exists|i: int| 0 <= i < s.len() && s[i].0.key() == k)
}

/// The table after binding `e` to `role`: an entry with the same key is
/// replaced where it stands, else the binding goes last.
pub open spec fn with_entry(s: Seq<(EmojiView, u64)>, e: EmojiView, role: u64) -> Seq<(EmojiView, u64)> {
    match key_index(s, e.key()) {
        Some(i) => s.update(i, (e, role)),
        None => s.push((e, role)),
    }
}

pub proof fn lemma_key_index(s: Seq<(EmojiView, u64)>, k: EmojiKey, i: int)
    requires
        0 <= i,
    ensures
        match key_index_from(s, k, i) {
            Some(j) => i <= j < s.len() && s[j].0.key() == k
                && forall|m: int| i <= m < j ==> s[m].0.key() != k,
            None => forall|m: int| i <= m < s.len() ==> s[m].0.key() != k,
        },
    decreases s.len() - i,
{
    if i < s.len() && s[i].0.key() != k {
        lemma_key_index(s, k, i + 1);
    }
}

pub proof fn lemma_with_entry(s: Seq<(EmojiView, u64)>, e: EmojiView, role: u64)
    requires
        keys_unique(s),
    ensures
        keys_unique(with_entry(s, e, role)),
        keys_of(with_entry(s, e, role)) == keys_of(s).insert(e.key()),
{
    lemma_key_index(s, e.key(), 0);
    let t = with_entry(s, e, role);
    assert forall|k: EmojiKey| #[trigger] keys_of(t).contains(k) <==> keys_of(s).insert(e.key()).contains(k) by {
        if keys_of(s).contains(k) {
            let i = choose|i: int| 0 <= i < s.len() && s[i].0.key() == k;
            if k != e.key() {
                assert(t[i].0.key() == k);
            } else {
                match key_index(s, e.key()) {
                    Some(j) => assert(t[j].0.key() == k),
                    None => {},
                }
            }
        }
        if k == e.key() {
            match key_index(s, e.key()) {
                Some(j) => assert(t[j].0.key() == k),
                None => assert(t[s.len() as int].0.key() == k),
            }
        }
    }
    assert(keys_of(t) =~= keys_of(s).insert(e.key()));
}

/// A role mention opens at `pos`: `<@&`.
pub open spec fn role_opens_at(line: Seq<char>, pos: int) -> bool {
    0 <= pos && pos + 3 <= line.len() && line[pos] == '<' && line[pos + 1] == '@' && line[pos + 2]
        == '&'
}

/// A custom emoji mention opens at `pos`: `<:`.
pub open spec fn custom_opens_at(line: Seq<char>, pos: int) -> bool {
    0 <= pos && pos + 2 <= line.len() && line[pos] == '<' && line[pos + 1] == ':'
}

/// The first role mention at or after `pos` that names a role. A mention runs
/// from its opening `<@&` to the first `>` after it; the search goes on after
/// the end of one that does not read as a role.
pub open spec fn first_role_from(line: Seq<char>, pos: int) -> Option<u64>
    decreases line.len() - pos,
{
    if pos < 0 || pos >= line.len() {
        None
    } else if role_opens_at(line, pos) {
        match find_from(line, '>', pos + 3) {
            None => None,
            Some(j) => {
                proof {
                    lemma_find_from(line, '>', pos + 3);
                }
                match role_mention(line.subrange(pos, j + 1)) {
                    Some(r) => Some(r),
                    None => first_role_from(line, j + 1),
                }
            },
        }
    } else {
        first_role_from(line, pos + 1)
    }
}

/// The custom emoji that a `<:...>` token names, if it reads as one.
pub open spec fn custom_token(m: Seq<char>) -> Option<EmojiView> {
    if emoji_mention_readable(m) {
        match emoji_mention(m) {
            Some((_, name, id)) => Some(EmojiView::Custom { id, name: Some(name) }),
            None => None,
        }
    } else {
        None
    }
}

/// The first custom emoji mention at or after `pos` that reads as one; the
/// tokens are cut as for roles, from `<:` to the next `>`.
pub open spec fn first_custom_from(line: Seq<char>, pos: int) -> Option<EmojiView>
    decreases line.len() - pos,
{
    if pos < 0 || pos >= line.len() {
        None
    } else if custom_opens_at(line, pos) {
        match find_from(line, '>', pos + 2) {
            None => None,
            Some(j) => {
                proof {
                    lemma_find_from(line, '>', pos + 2);
                }
                match custom_token(line.subrange(pos, j + 1)) {
                    Some(e) => Some(e),
                    None => first_custom_from(line, j + 1),
                }
            },
        }
    } else {
        first_custom_from(line, pos + 1)
    }
}

/// The emoji of a line: its first custom emoji, else `unicode`, the first
/// unicode emoji found on it.
pub open spec fn line_emoji_given(line: Seq<char>, unicode: Option<Seq<char>>) -> Option<EmojiView> {
    match first_custom_from(line, 0) {
        Some(e) => Some(e),
        None => match unicode {
            Some(t) => Some(EmojiView::Unicode(t)),
            None => None,
        },
    }
}

/// What a line binds, given its first unicode emoji: its emoji to its role,
/// where it has both.
pub open spec fn line_binding_given(line: Seq<char>, unicode: Option<Seq<char>>) -> Option<(EmojiView, u64)> {
    match (first_role_from(line, 0), line_emoji_given(line, unicode)) {
        (Some(r), Some(e)) => Some((e, r)),
        _ => None,
    }
}

/// What a line binds.
pub open spec fn line_binding(line: Seq<char>) -> Option<(EmojiView, u64)> {
    line_binding_given(line, first_match(UNICODE_EMOJI@, line))
}

pub open spec fn text_view(t: Option<String>) -> Option<Seq<char>> {
    match t {
        Some(s) => Some(s@),
        None => None,
    }
}

/// The table that a run of lines builds, each binding after the ones above it.
pub open spec fn selector_of_lines(lines: Seq<Seq<char>>) -> Seq<(EmojiView, u64)>
    decreases lines.len(),
{
    if lines.len() == 0 {
        seq![]
    } else {
        let prev = selector_of_lines(lines.drop_last());
        match line_binding(lines.last()) {
            Some((e, r)) => with_entry(prev, e, r),
            None => prev,
        }
    }
}

/// The selector that a message text describes.
pub open spec fn parsed(text: Seq<char>) -> Seq<(EmojiView, u64)> {
    selector_of_lines(lines_of(text))
}

/// Reading a selector depends on the text alone: reading the same text again,
/// such as the source of a selector that was read before, gives the same table.
pub proof fn lemma_parse_idempotent(text: Seq<char>, again: Seq<char>)
    requires
        again == text,
    ensures
        parsed(again) == parsed(text),
        keys_unique(parsed(text)),
{
    lemma_selector_of_lines_unique(lines_of(text));
}

proof fn lemma_selector_of_lines_unique(lines: Seq<Seq<char>>)
    ensures
        keys_unique(selector_of_lines(lines)),
    decreases lines.len(),
{
    if lines.len() > 0 {
        lemma_selector_of_lines_unique(lines.drop_last());
        match line_binding(lines.last()) {
            Some((e, r)) => lemma_with_entry(selector_of_lines(lines.drop_last()), e, r),
            None => {},
        }
    }
}

/// Whether `m` is a readable custom emoji mention.
fn readable_mention(m: &Vec<char>) -> (r: bool)
    ensures
        r == emoji_mention_readable(m@),
{
    if m.len() < 2 || m[0] != '<' || m[1] != ':' {
        return false;
    }
    let end = match find_char(m, ':', 2) {
        Some(k) => k,
        None => m.len(),
    };
    proof {
        lemma_find_from(m@, ':', 2);
    }
    assert(end as int == emoji_name_end(m@));
    let mut i: usize = 2;
    while i < end
        invariant
            2 <= i,
            end <= m.len(),
            end as int == emoji_name_end(m@),
            forall|k: int| 2 <= k < i ==> is_ascii_char(#[trigger] m@[k]),
        decreases end - i,
    {
        if !((m[i] as u32) < 128) {
            return false;
        }
        i = i + 1;
    }
    true
}

/// The role of a line.
fn first_role(line: &Vec<char>, text: &str) -> (r: Option<u64>)
    requires
        line@ == text@,
    ensures
        r == first_role_from(line@, 0),
{
    let mut pos: usize = 0;
    while pos < line.len()
        invariant
            pos <= line.len(),
            line@ == text@,
            first_role_from(line@, 0) == first_role_from(line@, pos as int),
        decreases line.len() - pos,
    {
        if line.len() - pos >= 3 && line[pos] == '<' && line[pos + 1] == '@' && line[pos + 2]
            == '&' {
            match find_char(line, '>', pos + 3) {
                None => {
                    return None;
                },
                Some(j) => {
                    proof {
                        lemma_find_from(line@, '>', pos + 3);
                    }
                    let token = text.substring_char(pos, j + 1);
                    match parse_role_mention(token) {
                        Some(r) => {
                            return Some(r);
                        },
                        None => {
                            pos = j + 1;
                        },
                    }
                },
            }
        } else {
            pos = pos + 1;
        }
    }
    None
}

/// The first custom emoji of a line.
fn first_custom(line: &Vec<char>, text: &str) -> (r: Option<Emoji>)
    requires
        line@ == text@,
    ensures
        match r {
            Some(e) => first_custom_from(line@, 0) == Some(e@),
            None => first_custom_from(line@, 0) is None,
        },
{
    let mut pos: usize = 0;
    while pos < line.len()
        invariant
            pos <= line.len(),
            line@ == text@,
            first_custom_from(line@, 0) == first_custom_from(line@, pos as int),
        decreases line.len() - pos,
    {
        if line.len() - pos >= 2 && line[pos] == '<' && line[pos + 1] == ':' {
            match find_char(line, '>', pos + 2) {
                None => {
                    return None;
                },
                Some(j) => {
                    proof {
                        lemma_find_from(line@, '>', pos + 2);
                    }
                    let token = copy_range(line, pos, j + 1);
                    let text_token = text.substring_char(pos, j + 1);
                    if readable_mention(&token) {
                        match parse_emoji_mention(text_token) {
                            Some((_, name, id)) => {
                                let e = Emoji::Custom { id, name: Some(name) };
                                return Some(e);
                            },
                            None => {
                                pos = j + 1;
                            },
                        }
                    } else {
                        pos = j + 1;
                    }
                },
            }
        } else {
            pos = pos + 1;
        }
    }
    None
}

/// The binding of one line of a selector message, given `unicode_match`, the
/// first unicode emoji found on the line.
pub fn bind_line(line: &str, unicode_match: Option<String>) -> (r: Option<(Emoji, u64)>)
    ensures
        match r {
            Some((e, role)) => line_binding_given(line@, text_view(unicode_match)) == Some((e@, role)),
            None => line_binding_given(line@, text_view(unicode_match)) is None,
        },
{
    let chars = chars_of(line);
    let role = match first_role(&chars, line) {
        Some(role) => role,
        None => {
            return None;
        },
    };
    match first_custom(&chars, line) {
        Some(e) => Some((e, role)),
        None => match unicode_match {
            Some(t) => Some((Emoji::Unicode(t), role)),
            None => None,
        },
    }
}

/// An emoji to role table read from a message, in the order of its lines.
pub struct Selector {
    entries: Vec<(Emoji, u64)>,
}

impl View for Selector {
    type V = Seq<(EmojiView, u64)>;

    closed spec fn view(&self) -> Seq<(EmojiView, u64)> {
        self.entries@.map_values(|p: (Emoji, u64)| (p.0@, p.1))
    }
}

impl Clone for Selector {
    fn clone(&self) -> (r: Selector)
        ensures
            r@ == self@,
    {
        let mut entries: Vec<(Emoji, u64)> = Vec::new();
        let mut i: usize = 0;
        while i < self.entries.len()
            invariant
                i <= self.entries.len(),
                entries@.map_values(|p: (Emoji, u64)| (p.0@, p.1)) == self@.take(i as int),
            decreases self.entries.len() - i,
        {
            let e = self.entries[i].0.clone();
            let ghost prev = entries@;
            entries.push((e, self.entries[i].1));
            assert(self@[i as int] == (self.entries@[i as int].0@, self.entries@[i as int].1));
            assert(entries@ == prev.push((e, self.entries@[i as int].1)));
            assert(entries@.map_values(|p: (Emoji, u64)| (p.0@, p.1)) =~= prev.map_values(|p: (Emoji, u64)| (p.0@, p.1)).push((e@, self.entries@[i as int].1)));
            assert(entries@.map_values(|p: (Emoji, u64)| (p.0@, p.1)) =~= self@.take(i + 1));
            i = i + 1;
        }
        let r = Selector { entries };
        assert(r@ =~= self@);
        r
    }
}

impl Selector {
    /// Whether both hold the same bindings in the same order.
    pub fn same(&self, other: &Selector) -> (r: bool)
        ensures
            r == (self@ == other@),
    {
        if self.entries.len() != other.entries.len() {
            return false;
        }
        let mut i: usize = 0;
        while i < self.entries.len()
            invariant
                i <= self.entries.len() == other.entries.len(),
                self@.len() == other@.len(),
                forall|j: int| 0 <= j < i ==> self@[j] == other@[j],
            decreases self.entries.len() - i,
        {
            assert(self@[i as int] == (self.entries@[i as int].0@, self.entries@[i as int].1));
            assert(other@[i as int] == (other.entries@[i as int].0@, other.entries@[i as int].1));
            if !self.entries[i].0.same(&other.entries[i].0) || self.entries[i].1 != other.entries[i].1 {
                return false;
            }
            i = i + 1;
        }
        assert(self@ =~= other@);
        true
    }

    /// Each emoji is bound to at most one role.
    pub open spec fn wf(&self) -> bool {
        keys_unique(self@)
    }

    pub fn new() -> (r: Selector)
        ensures
            r@ == Seq::<(EmojiView, u64)>::empty(),
            r.wf(),
    {
        let r = Selector { entries: Vec::new() };
        assert(r@ =~= Seq::<(EmojiView, u64)>::empty());
        r
    }

    pub fn len(&self) -> (r: usize)
        ensures
            r == self@.len(),
    {
        self.entries.len()
    }

    /// Where the binding of `emoji`'s key stands, if it is bound.
    fn position(&self, emoji: &Emoji) -> (r: Option<usize>)
        ensures
            self@.len() == self.entries.len(),
            match r {
                Some(i) => i < self.entries.len() && key_index(self@, emoji@.key()) == Some(i as int),
                None => key_index(self@, emoji@.key()) is None,
            },
    {
        let mut i: usize = 0;
        while i < self.entries.len()
            invariant
                i <= self.entries.len(),
                key_index(self@, emoji@.key()) == key_index_from(self@, emoji@.key(), i as int),
            decreases self.entries.len() - i,
        {
            assert(self@[i as int].0 == self.entries@[i as int].0@);
            if self.entries[i].0 == *emoji {
                return Some(i);
            }
            i = i + 1;
        }
        None
    }

    /// Binds `emoji` to `role`; a binding of the same emoji is replaced.
    pub fn insert_role(&mut self, emoji: Emoji, role: u64)
        requires
            old(self).wf(),
        ensures
            final(self)@ == with_entry(old(self)@, emoji@, role),
            final(self).wf(),
    {
        proof {
            lemma_with_entry(self@, emoji@, role);
        }
        let ghost e = emoji@;
        match self.position(&emoji) {
            Some(i) => {
                self.entries.set(i, (emoji, role));
                assert(self@ =~= with_entry(old(self)@, e, role));
            },
            None => {
                self.entries.push((emoji, role));
                assert(self@ =~= with_entry(old(self)@, e, role));
            },
        }
    }

    /// The role bound to `emoji`.
    pub fn get_role(&self, emoji: &Emoji) -> (r: Option<u64>)
        ensures
            r == role_of(self@, emoji@.key()),
    {
        match self.position(emoji) {
            Some(i) => {
                assert(self@[i as int].1 == self.entries@[i as int].1);
                Some(self.entries[i].1)
            },
            None => None,
        }
    }

    /// Whether `emoji` is bound to a role.
    pub fn contains(&self, emoji: &Emoji) -> (r: bool)
        ensures
            r == keys_of(self@).contains(emoji@.key()),
    {
        proof {
            lemma_key_index(self@, emoji@.key(), 0);
            if keys_of(self@).contains(emoji@.key()) {
                let i = choose|i: int| 0 <= i < self@.len() && self@[i].0.key() == emoji@.key();
                assert(self@[i].0.key() == emoji@.key());
            }
        }
        self.position(emoji).is_some()
    }

    /// Reads a selector from a message text, line by line: the first role
    /// mention of a line is bound to its first emoji, where it has both, and a
    /// later line binds an emoji over an earlier one.
    pub fn parse(content: &str) -> (r: Selector)
        ensures
            r@ == parsed(content@),
            r.wf(),
    {
        let chars = chars_of(content);
        let n = chars.len();
        let mut selector = Selector::new();
        let mut start: usize = 0;
        let ghost mut done: Seq<Seq<char>> = seq![];
        proof {
            assert(content@.skip(0) =~= content@);
            assert(done + lines_of(content@) =~= lines_of(content@));
        }
        while start < n
            invariant
                start <= n,
                n == chars@.len(),
                chars@ == content@,
                lines_of(content@) == done + lines_of(content@.skip(start as int)),
                selector@ == selector_of_lines(done),
                selector.wf(),
            decreases n - start,
        {
            let found = find_char(&chars, '\n', start);
            proof {
                lemma_find_from(chars@, '\n', start as int);
                lemma_find_from_skip(chars@, '\n', start as int);
            }
            let (hi, next) = match found {
                Some(j) => {
                    if j > start && chars[j - 1] == '\r' {
                        (j - 1, j + 1)
                    } else {
                        (j, j + 1)
                    }
                },
                None => (n, n),
            };
            let text = content.substring_char(start, hi);
            let ghost line = text@;
            proof {
                let t = content@.skip(start as int);
                match found {
                    Some(j) => {
                        assert(t.take(j - start) =~= content@.subrange(start as int, j as int));
                        assert(strip_cr(t.take(j - start)) =~= line);
                        assert(t.skip(j - start + 1) =~= content@.skip(next as int));
                    },
                    None => {
                        assert(t =~= line);
                        assert(content@.skip(n as int) =~= Seq::<char>::empty());
                    },
                }
                assert(lines_of(t) =~= seq![line] + lines_of(content@.skip(next as int)));
                assert(lines_of(content@) =~= done.push(line) + lines_of(content@.skip(next as int)));
                assert(done.push(line).drop_last() =~= done);
            }
            let unicode_match = find_first(UNICODE_EMOJI, text);
            match bind_line(text, unicode_match) {
                Some((e, role)) => {
                    selector.insert_role(e, role);
                },
                None => {},
            }
            proof {
                done = done.push(line);
            }
            start = next;
        }
        proof {
            assert(content@.skip(n as int) =~= Seq::<char>::empty());
            assert(done =~= lines_of(content@));
        }
        selector
    }

    /// The bindings, in the order of the lines they came from.
    pub fn iter(&self) -> (r: &Vec<(Emoji, u64)>)
        ensures
            r@.map_values(|p: (Emoji, u64)| (p.0@, p.1)) == self@,
    {
        &self.entries
    }
}

} // verus!
