use vstd::prelude::*;

use crate::codec::encode_spec;
use crate::fold::lower_of;
use crate::handlers::{candidates_of, choose_among, query_profile, query_reply, set_profile};
use crate::parser::{
    is_command_line, parse_command, reply_target_of, tail_of, verb_of, ChatEvent,
};
use crate::store::Store;
use crate::text::reply_text;
use crate::text::str_eq;

verus! {

/// One outbound reply: where it goes and what it says.
pub struct Outbound {
    pub target: String,
    pub text: String,
}

/// The verbs the dispatcher knows, matched exactly.
pub open spec fn known_verb(v: Seq<char>) -> bool {
    v == "@choose"@ || v == "@iam"@ || v == "@whois"@ || v == "@whoami"@
}

/// No two of the known verbs are the same word.
proof fn lemma_verbs_distinct()
    ensures
        "@choose"@ != "@iam"@,
        "@choose"@ != "@whois"@,
        "@choose"@ != "@whoami"@,
        "@iam"@ != "@whois"@,
        "@iam"@ != "@whoami"@,
        "@whois"@ != "@whoami"@,
{
    reveal_strlit("@choose");
    reveal_strlit("@iam");
    reveal_strlit("@whois");
    reveal_strlit("@whoami");
    assert("@choose"@.len() == 7);
    assert("@iam"@.len() == 4);
    assert("@whois"@.len() == 6);
    assert("@whoami"@.len() == 7);
    assert("@choose"@[1] == 'c');
    assert("@whoami"@[1] == 'w');
}

/// Routes one chat event: parses it, runs the one handler its verb names,
/// and yields at most one reply.  A line that carries no command, or a verb
/// the dispatcher does not know, is ignored in silence, and the store is
/// left untouched.
pub fn dispatch(event: &ChatEvent, bot_identity: &str, store: &mut Store) -> (r: Option<Outbound>)
    requires
        old(store).wf(),
    ensures
        final(store).wf(),
        final(store).writes_fail() == old(store).writes_fail(),
        r is Some <==> is_command_line(event.verb_line@) && known_verb(verb_of(event.verb_line@)),
        !(is_command_line(event.verb_line@) && known_verb(verb_of(event.verb_line@)))
            ==> final(store).contents() == old(store).contents(),
        r matches Some(o) ==> o.target@ == reply_target_of(
            event.destination@,
            event.sender_identity@,
            bot_identity@,
        ),
        is_command_line(event.verb_line@) && verb_of(event.verb_line@) == "@choose"@
            ==> final(store).contents() == old(store).contents() && (r matches Some(o)
            ==> exists|i: int|
                0 <= i < candidates_of(tail_of(event.verb_line@)).len() && o.text@ == reply_text(
                    event.sender_identity@,
                    candidates_of(tail_of(event.verb_line@))[i],
                )),
        is_command_line(event.verb_line@) && verb_of(event.verb_line@) == "@iam"@
            ==> (old(store).writes_fail() ==> final(store).contents() == old(store).contents()
            && (r matches Some(o) ==> o.text@ == reply_text(
                event.sender_identity@,
                "Something went wrong."@,
            ))) && (!old(store).writes_fail()
            ==> final(store).contents() == old(store).contents().insert(
            lower_of(event.sender_identity@),
            encode_spec(lower_of(event.sender_identity@), tail_of(event.verb_line@)),
        ) && (r matches Some(o) ==> o.text@ == reply_text(event.sender_identity@, "Got it!"@))),
        is_command_line(event.verb_line@) && verb_of(event.verb_line@) == "@whois"@
            ==> final(store).contents() == old(store).contents() && (r matches Some(o) ==> o.text@
            == query_reply(
            old(store).contents(),
            tail_of(event.verb_line@),
            event.sender_identity@,
            true,
        )),
        is_command_line(event.verb_line@) && verb_of(event.verb_line@) == "@whoami"@
            ==> final(store).contents() == old(store).contents() && (r matches Some(o) ==> o.text@
            == query_reply(
            old(store).contents(),
            tail_of(event.verb_line@),
            event.sender_identity@,
            false,
        )),
{
    proof {
        lemma_verbs_distinct();
    }
    match parse_command(event, bot_identity) {
        None => None,
        Some(pc) => {
            if str_eq(pc.verb.as_str(), "@choose") {
                let text = choose_among(pc.argument_tail.as_str(), pc.invoker.as_str());
                Some(Outbound { target: pc.reply_target, text })
            } else if str_eq(pc.verb.as_str(), "@iam") {
                let text = set_profile(pc.argument_tail.as_str(), pc.invoker.as_str(), store);
                Some(Outbound { target: pc.reply_target, text })
            } else if str_eq(pc.verb.as_str(), "@whois") {
                let text = query_profile(pc.argument_tail.as_str(), pc.invoker.as_str(), true, store);
                Some(Outbound { target: pc.reply_target, text })
            } else if str_eq(pc.verb.as_str(), "@whoami") {
                let text = query_profile(
                    pc.argument_tail.as_str(),
                    pc.invoker.as_str(),
                    false,
                    store,
                );
                Some(Outbound { target: pc.reply_target, text })
            } else {
                None
            }
        },
    }
}

} // verus!
