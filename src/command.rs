use vstd::prelude::*;

use crate::mention::{parse_decimal, parse_u64};
use crate::scan::chars_of;

verus! {

/// The permission bit that lets a member manage roles.
pub const MANAGE_ROLES: u64 = 0x1000_0000;

/// Why an admin command failed, as its author is told.
#[derive(Debug)]
pub enum CommandError {
    /// A call to the chat platform failed.
    Platform,
    InvalidCommand,
    /// The command was given outside a guild.
    NotAllowed,
    /// The author lacks these permission bits.
    NoPermission(u64),
    /// The referenced message could not be fetched.
    InvalidMessageReference,
    /// An argument that should be an id is not one.
    MalformedArgument(String),
}

/// An admin command, read from the words that follow the bot's mention.
#[derive(Debug)]
pub enum Command {
    /// `add role selector <message id>`
    AddSelector(u64),
    /// `add role persist <role id>...`: each reference is read in turn with
    /// [`parse_argument`].
    AddPersist(Vec<String>),
    /// `remove role persist <role id>...`
    RemovePersist(Vec<String>),
}

pub enum CommandShape {
    Invalid,
    AddSelector,
    AddPersist,
    RemovePersist,
}

pub open spec fn word_add() -> Seq<char> {
    seq!['a', 'd', 'd']
}

pub open spec fn word_remove() -> Seq<char> {
    seq!['r', 'e', 'm', 'o', 'v', 'e']
}

pub open spec fn word_role() -> Seq<char> {
    seq!['r', 'o', 'l', 'e']
}

pub open spec fn word_selector() -> Seq<char> {
    seq!['s', 'e', 'l', 'e', 'c', 't', 'o', 'r']
}

pub open spec fn word_persist() -> Seq<char> {
    seq!['p', 'e', 'r', 's', 'i', 's', 't']
}

/// Which command a run of words is.
pub open spec fn command_shape(t: Seq<Seq<char>>) -> CommandShape {
    if t.len() == 4 && t[0] == word_add() && t[1] == word_role() && t[2] == word_selector() {
        CommandShape::AddSelector
    } else if t.len() >= 3 && t[0] == word_add() && t[1] == word_role() && t[2] == word_persist() {
        CommandShape::AddPersist
    } else if t.len() >= 3 && t[0] == word_remove() && t[1] == word_role() && t[2]
        == word_persist() {
        CommandShape::RemovePersist
    } else {
        CommandShape::Invalid
    }
}

pub open spec fn words_view(t: Seq<String>) -> Seq<Seq<char>> {
    t.map_values(|s: String| s@)
}

pub open spec fn has_permission(permissions: u64, required: u64) -> bool {
    permissions & required == required
}

/// Succeeds where `permissions` holds every bit of `required`.
pub fn require_permission(permissions: u64, required: u64) -> (r: Result<(), CommandError>)
    ensures
        match r {
            Ok(()) => has_permission(permissions, required),
            Err(CommandError::NoPermission(p)) => !has_permission(permissions, required) && p
                == required,
            Err(_) => false,
        },
{
    if permissions & required == required {
        Ok(())
    } else {
        Err(CommandError::NoPermission(required))
    }
}

/// An id argument.
pub fn parse_argument(argument: &str) -> (r: Result<u64, CommandError>)
    ensures
        match r {
            Ok(id) => parse_decimal(argument@) == Some(id),
            Err(CommandError::MalformedArgument(a)) => parse_decimal(argument@) is None && a@
                == argument@,
            Err(_) => false,
        },
{
    match parse_u64(argument) {
        Some(id) => Ok(id),
        None => Err(CommandError::MalformedArgument(argument.to_owned())),
    }
}

/// The guild a command was given in; commands outside a guild are not allowed.
pub fn command_guild(guild: Option<u64>) -> (r: Result<u64, CommandError>)
    ensures
        match r {
            Ok(g) => guild == Some(g),
            Err(CommandError::NotAllowed) => guild is None,
            Err(_) => false,
        },
{
    match guild {
        Some(g) => Ok(g),
        None => Err(CommandError::NotAllowed),
    }
}

/// Whether `token` is `word`.
fn word_is(token: &String, word: &Vec<char>) -> (r: bool)
    ensures
        r == (token@ == word@),
{
    let chars = chars_of(token.as_str());
    if chars.len() != word.len() {
        return false;
    }
    let mut i: usize = 0;
    while i < chars.len()
        invariant
            i <= chars.len() == word.len(),
            chars@ == token@,
            forall|j: int| 0 <= j < i ==> chars@[j] == word@[j],
        decreases chars.len() - i,
    {
        if chars[i] != word[i] {
            return false;
        }
        i = i + 1;
    }
    assert(chars@ =~= word@);
    true
}

fn copy_words(tokens: &Vec<String>, from: usize) -> (r: Vec<String>)
    requires
        from <= tokens.len(),
    ensures
        words_view(r@) == words_view(tokens@).skip(from as int),
{
    let mut out: Vec<String> = Vec::new();
    let mut i = from;
    while i < tokens.len()
        invariant
            from <= i <= tokens.len(),
            words_view(out@) == words_view(tokens@).subrange(from as int, i as int),
        decreases tokens.len() - i,
    {
        let word = tokens[i].clone();
        let ghost prev = out@;
        assert(word@ == tokens@[i as int]@);
        out.push(word);
        assert(out@ == prev.push(word));
        assert(words_view(out@) =~= words_view(prev).push(word@));
        assert(words_view(out@) =~= words_view(tokens@).subrange(from as int, i + 1));
        i = i + 1;
    }
    assert(words_view(tokens@).subrange(from as int, tokens.len() as int) =~= words_view(
        tokens@,
    ).skip(from as int));
    out
}

/// Reads an admin command from the words after the bot's mention. The author
/// needs the manage-roles permission for each command; the message id of
/// `add role selector` must be a number.
pub fn try_handle_command(tokens: &Vec<String>, permissions: u64) -> (r: Result<Command, CommandError>)
    ensures
        ({
            let t = words_view(tokens@);
            let allowed = has_permission(permissions, MANAGE_ROLES);
            match r {
                Ok(Command::AddSelector(id)) => command_shape(t) is AddSelector && allowed
                    && parse_decimal(t[3]) == Some(id),
                Ok(Command::AddPersist(refs)) => command_shape(t) is AddPersist && allowed
                    && words_view(refs@) == t.skip(3),
                Ok(Command::RemovePersist(refs)) => command_shape(t) is RemovePersist && allowed
                    && words_view(refs@) == t.skip(3),
                Err(CommandError::InvalidCommand) => command_shape(t) is Invalid,
                Err(CommandError::NoPermission(p)) => !(command_shape(t) is Invalid) && !allowed
                    && p == MANAGE_ROLES,
                Err(CommandError::MalformedArgument(a)) => command_shape(t) is AddSelector
                    && allowed && parse_decimal(t[3]) is None && a@ == t[3],
                Err(_) => false,
            }
        }),
{
    let ghost t = words_view(tokens@);
    let n = tokens.len();
    let add = vec!['a', 'd', 'd'];
    let remove = vec!['r', 'e', 'm', 'o', 'v', 'e'];
    let role = vec!['r', 'o', 'l', 'e'];
    let selector = vec!['s', 'e', 'l', 'e', 'c', 't', 'o', 'r'];
    let persist = vec!['p', 'e', 'r', 's', 'i', 's', 't'];
    assert(add@ =~= word_add());
    assert(remove@ =~= word_remove());
    assert(role@ =~= word_role());
    assert(selector@ =~= word_selector());
    assert(persist@ =~= word_persist());
    if n < 3 || !word_is(&tokens[1], &role) {
        return Err(CommandError::InvalidCommand);
    }
    assert(t[1] == tokens@[1]@);
    let first_add = word_is(&tokens[0], &add);
    let first_remove = word_is(&tokens[0], &remove);
    let third_selector = word_is(&tokens[2], &selector);
    let third_persist = word_is(&tokens[2], &persist);
    assert(t[0] == tokens@[0]@ && t[2] == tokens@[2]@);
    if first_add && third_selector && n == 4 {
        require_permission(permissions, MANAGE_ROLES)?;
        assert(t[3] == tokens@[3]@);
        let id = parse_argument(tokens[3].as_str())?;
        Ok(Command::AddSelector(id))
    } else if first_add && third_persist {
        require_permission(permissions, MANAGE_ROLES)?;
        Ok(Command::AddPersist(copy_words(tokens, 3)))
    } else if first_remove && third_persist {
        require_permission(permissions, MANAGE_ROLES)?;
        Ok(Command::RemovePersist(copy_words(tokens, 3)))
    } else {
        Err(CommandError::InvalidCommand)
    }
}

} // verus!
