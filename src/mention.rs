use vstd::prelude::*;

use crate::scan::find_from;

verus! {

pub open spec fn is_digit(c: char) -> bool {
    '0' <= c && c <= '9'
}

pub open spec fn is_ascii_char(c: char) -> bool {
    (c as u32) < 128
}

/// The number that a string of decimal digits spells.
pub open spec fn digits_value(s: Seq<char>) -> nat
    decreases s.len(),
{
    if s.len() == 0 {
        0
    } else {
        digits_value(s.drop_last()) * 10 + ((s.last() as u32) - ('0' as u32)) as nat
    }
}

/// A `u64` read from text as std reads one: an optional `+`, then one or more
/// decimal digits, and nothing else; a value past `u64::MAX` is no number.
pub open spec fn parse_decimal(s: Seq<char>) -> Option<u64> {
    let d = if s.len() > 0 && s[0] == '+' { s.skip(1) } else { s };
    if d.len() > 0 && (forall|i: int| 0 <= i < d.len() ==> is_digit(#[trigger] d[i]))
        && digits_value(d) <= u64::MAX {
        Some(digits_value(d) as u64)
    } else {
        None
    }
}

/// Bytes that a character takes in UTF-8.
pub open spec fn utf8_width(c: char) -> nat {
    if (c as u32) < 0x80 {
        1
    } else if (c as u32) < 0x800 {
        2
    } else if (c as u32) < 0x10000 {
        3
    } else {
        4
    }
}

/// Bytes that a text takes in UTF-8.
pub open spec fn utf8_len(s: Seq<char>) -> nat
    decreases s.len(),
{
    if s.len() == 0 {
        0
    } else {
        utf8_len(s.drop_last()) + utf8_width(s.last())
    }
}

/// The role id in a role mention `<@&id>`.
pub open spec fn role_mention(m: Seq<char>) -> Option<u64> {
    if m.len() >= 4 && m[0] == '<' && m[1] == '@' && m[2] == '&' && m.last() == '>' {
        parse_decimal(m.subrange(3, m.len() - 1))
    } else {
        None
    }
}

/// A custom emoji mention `<:name:id>` or `<a:name:id>`, read as
/// (animated, name, id): the name runs to the first `:`, the id from there to
/// the first `>`. Its UTF-8 form must take 6 to 56 bytes.
pub open spec fn emoji_mention(m: Seq<char>) -> Option<(bool, Seq<char>, u64)> {
    if !(6 <= utf8_len(m) && utf8_len(m) <= 56) {
        None
    } else if !(m.len() >= 3 && m[0] == '<' && (m[1] == ':' || (m[1] == 'a' && m[2] == ':'))
        && m.last() == '>') {
        None
    } else {
        let animated = m[1] == 'a';
        let rest = if animated { m.skip(3) } else { m.skip(2) };
        match find_from(rest, ':', 0) {
            None => None,
            Some(k) => {
                let after = rest.skip(k + 1);
                let id = match find_from(after, '>', 0) {
                    Some(e) => after.take(e),
                    None => after,
                };
                match parse_decimal(id) {
                    Some(x) => Some((animated, rest.take(k), x)),
                    None => None,
                }
            },
        }
    }
}

/// End of the name in a custom emoji mention that starts with `<:`.
pub open spec fn emoji_name_end(m: Seq<char>) -> int {
    match find_from(m, ':', 2) {
        Some(k) => k,
        None => m.len() as int,
    }
}

/// A mention that starts with `<:` and whose name is ASCII: the reading of
/// the name goes by characters where the id is then cut by bytes, so that
/// with a wider character in the name the two do not meet.
pub open spec fn emoji_mention_readable(m: Seq<char>) -> bool {
    &&& m.len() >= 2
    &&& m[0] == '<'
    &&& m[1] == ':'
    &&& forall|i: int| 2 <= i < emoji_name_end(m) ==> is_ascii_char(#[trigger] m[i])
}

/// Relies on serenity::utils::parse_role: the id of a role mention.
#[verifier::external_body]
pub(crate) fn parse_role_mention(mention: &str) -> (r: Option<u64>)
    ensures
        r == role_mention(mention@),
{
    serenity::utils::parse_role(mention)
}

/// Relies on serenity::utils::parse_emoji: the animated flag, name and id of
/// a custom emoji mention.
#[verifier::external_body]
pub(crate) fn parse_emoji_mention(mention: &str) -> (r: Option<(bool, String, u64)>)
    requires
        emoji_mention_readable(mention@),
    ensures
        match r {
            Some((animated, name, id)) => emoji_mention(mention@) == Some((animated, name@, id)),
            None => emoji_mention(mention@) is None,
        },
{
    serenity::utils::parse_emoji(mention).map(|e| (e.animated, e.name, e.id.0))
}

/// Relies on `str::parse::<u64>`: an optional `+` and decimal digits, within
/// range.
#[verifier::external_body]
pub(crate) fn parse_u64(text: &str) -> (r: Option<u64>)
    ensures
        r == parse_decimal(text@),
{
    text.parse::<u64>().ok()
}

/// What regex finds first for `pattern` in `text`; no match where the
/// pattern does not compile.
pub uninterp spec fn first_match(pattern: Seq<char>, text: Seq<char>) -> Option<Seq<char>>;

/// Relies on regex::Regex::new and Regex::find: the leftmost-first match of
/// `pattern` in `text`.
#[verifier::external_body]
pub(crate) fn find_first(pattern: &str, text: &str) -> (r: Option<String>)
    ensures
        match r {
            Some(m) => first_match(pattern@, text@) == Some(m@),
            None => first_match(pattern@, text@) is None,
        },
{
    match regex::Regex::new(pattern) {
        Ok(re) => re.find(text).map(|m| m.as_str().to_string()),
        Err(_) => None,
    }
}

} // verus!
