use vstd::prelude::*;

use crate::text::{
    find_from, find_from_exec, head_token, lemma_find_from_bounds, str_eq, trim_trailing,
    trim_trailing_exec,
};

verus! {

/// One inbound chat message, as the transport hands it over: who sent it,
/// where it was sent, and its line of text.
pub struct ChatEvent {
    pub sender_identity: String,
    pub destination: String,
    pub verb_line: String,
}

/// A recognised command: the verb with its prefix marker, the argument
/// tail, where the reply goes, and who asked.
pub struct ParsedCommand {
    pub verb: String,
    pub argument_tail: String,
    pub reply_target: String,
    pub invoker: String,
}

/// True when a line carries a command: trimmed of trailing whitespace it
/// begins with the prefix marker '@'.
pub open spec fn is_command_line(line: Seq<char>) -> bool {
    trim_trailing(line).len() > 0 && trim_trailing(line)[0] == '@'
}

/// The verb of a command line: its leading space-delimited token.
pub open spec fn verb_of(line: Seq<char>) -> Seq<char> {
    head_token(trim_trailing(line))
}

/// The argument tail of a command line: what follows the verb, with the one
/// separating space removed and trailing whitespace trimmed.
pub open spec fn tail_of(line: Seq<char>) -> Seq<char> {
    let t = trim_trailing(line);
    match find_from(t, " "@, 0) {
        None => Seq::empty(),
        Some(i) => t.subrange(i + 1, t.len() as int),
    }
}

/// Where the reply goes: back to the invoker when the message came directly
/// to the bot, else to the shared destination — the reply stays where the
/// conversation is.
pub open spec fn reply_target_of(
    destination: Seq<char>,
    invoker: Seq<char>,
    bot_identity: Seq<char>,
) -> Seq<char> {
    if destination == bot_identity {
        invoker
    } else {
        destination
    }
}

/// Extracts the command a chat event carries, or nothing when its line
/// carries none — a normal outcome, not an error.
pub fn parse_command(event: &ChatEvent, bot_identity: &str) -> (r: Option<ParsedCommand>)
    ensures
        r is Some <==> is_command_line(event.verb_line@),
        r matches Some(pc) ==> pc.verb@ == verb_of(event.verb_line@) && pc.argument_tail@
            == tail_of(event.verb_line@) && pc.invoker@ == event.sender_identity@
            && pc.reply_target@ == reply_target_of(
            event.destination@,
            event.sender_identity@,
            bot_identity@,
        ),
{
    let t = trim_trailing_exec(event.verb_line.as_str());
    let n = t.as_str().unicode_len();
    if n == 0 {
        return None;
    }
    if t.as_str().get_char(0) != '@' {
        return None;
    }
    proof {
        reveal_strlit(" ");
    }
    let (verb, argument_tail) = match find_from_exec(t.as_str(), " ", 0) {
        None => (t.as_str().to_owned(), String::new()),
        Some(i) => {
            proof {
                lemma_find_from_bounds(t@, " "@, 0);
            }
            let v = t.as_str().substring_char(0, i).to_owned();
            let a = t.as_str().substring_char(i + 1, n).to_owned();
            (v, a)
        },
    };
    let reply_target = if str_eq(event.destination.as_str(), bot_identity) {
        event.sender_identity.clone()
    } else {
        event.destination.clone()
    };
    Some(
        ParsedCommand {
            verb,
            argument_tail,
            reply_target,
            invoker: event.sender_identity.clone(),
        },
    )
}

} // verus!
