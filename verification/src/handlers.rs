use vstd::prelude::*;

use crate::codec::encode_spec;
use crate::fold::{fold_identity, lower_of};
use crate::store::{load_model, ProfileRecord, Store};
use crate::text::{
    format_reply, head_token, head_token_exec, lemma_split_on_len, reply_text, split_literal,
    split_on, views_of,
};

verus! {

// ---------------------------------------------------------------------------
// Choosing among candidates
// ---------------------------------------------------------------------------

/// The candidates a choice line offers: the argument tail split on the
/// literal delimiter " or ".  An empty tail yields one empty candidate.
pub open spec fn candidates_of(tail: Seq<char>) -> Seq<Seq<char>> {
    split_on(tail, " or "@)
}

/// Relies on rand::random_range: a uniformly drawn index below `len`.
#[verifier::external_body]
fn pick_index(len: usize) -> (r: usize)
    requires
        1 <= len,
    ensures
        r < len,
{
    rand::random_range(0..len)
}

/// The reply that picks the candidate at a given position: "{invoker}:
/// {candidate}".
pub fn choose_at(argument_tail: &str, invoker: &str, index: usize) -> (r: String)
    requires
        (index as int) < candidates_of(argument_tail@).len(),
    ensures
        r@ == reply_text(invoker@, candidates_of(argument_tail@)[index as int]),
{
    proof {
        reveal_strlit(" or ");
    }
    let v = split_literal(argument_tail, " or ");
    proof {
        assert(views_of(v@).len() == v@.len());
        assert(views_of(v@)[index as int] == v@[index as int]@);
    }
    format_reply(invoker, v[index].as_str())
}

/// Draws one candidate uniformly at random and replies "{invoker}:
/// {candidate}".  The reply always carries one of the tail's candidates.
pub fn choose_among(argument_tail: &str, invoker: &str) -> (r: String)
    ensures
        exists|i: int|
            0 <= i < candidates_of(argument_tail@).len() && r@ == reply_text(
                invoker@,
                candidates_of(argument_tail@)[i],
            ),
{
    proof {
        reveal_strlit(" or ");
        lemma_split_on_len(argument_tail@, " or "@);
    }
    let v = split_literal(argument_tail, " or ");
    proof {
        assert(views_of(v@).len() == v@.len());
    }
    let index = pick_index(v.len());
    choose_at(argument_tail, invoker, index)
}

// ---------------------------------------------------------------------------
// Saving a profile
// ---------------------------------------------------------------------------

/// Saves the argument tail as the invoker's profile description, under the
/// invoker's folded identity.  A write failure is reported in the reply and
/// leaves every stored record unchanged.
pub fn set_profile(argument_tail: &str, invoker: &str, store: &mut Store) -> (r: String)
    requires
        old(store).wf(),
    ensures
        final(store).wf(),
        final(store).writes_fail() == old(store).writes_fail(),
        old(store).writes_fail() ==> r@ == reply_text(invoker@, "Something went wrong."@)
            && final(store).contents() == old(store).contents(),
        !old(store).writes_fail() ==> r@ == reply_text(invoker@, "Got it!"@)
            && final(store).contents() == old(store).contents().insert(
            lower_of(invoker@),
            encode_spec(lower_of(invoker@), argument_tail@),
        ),
{
    let record = ProfileRecord::new(invoker, argument_tail);
    match store.save(&record) {
        Ok(()) => format_reply(invoker, "Got it!"),
        Err(_) => format_reply(invoker, "Something went wrong."),
    }
}

// ---------------------------------------------------------------------------
// Querying a profile
// ---------------------------------------------------------------------------

/// The reply a profile query produces over the store's backing entries.
/// With `wants_target` the query names somebody — its target is the leading
/// token of the argument tail, and an empty tail is answered with a prompt
/// for a name; without it the invoker asks about themselves.
pub open spec fn query_reply(
    contents: Map<Seq<char>, Seq<char>>,
    argument_tail: Seq<char>,
    invoker: Seq<char>,
    wants_target: bool,
) -> Seq<char> {
    if wants_target {
        if argument_tail.len() == 0 {
            reply_text(invoker, "Who is who? I need a name!"@)
        } else {
            let t = head_token(argument_tail);
            match load_model(contents, lower_of(t)) {
                Some(kd) => reply_text(invoker, t + " is "@ + kd.1),
                None => reply_text(invoker, "I don't know who "@ + t + " is."@),
            }
        }
    } else {
        match load_model(contents, lower_of(invoker)) {
            Some(kd) => reply_text(invoker, "you are "@ + kd.1),
            None => reply_text(invoker, "I don't know who you are."@),
        }
    }
}

/// A profile saved by an invoker is found by every query whose target folds
/// to the same key — lookups are case-insensitive with respect to the
/// casing used at save time — and the reply echoes the asked spelling with
/// the saved description.
pub proof fn lemma_set_then_query(
    contents: Map<Seq<char>, Seq<char>>,
    invoker: Seq<char>,
    desc: Seq<char>,
    asker: Seq<char>,
    tail: Seq<char>,
)
    requires
        tail.len() > 0,
        lower_of(head_token(tail)) == lower_of(invoker),
    ensures
        query_reply(
            contents.insert(lower_of(invoker), encode_spec(lower_of(invoker), desc)),
            tail,
            asker,
            true,
        ) == reply_text(asker, head_token(tail) + " is "@ + desc),
{
    crate::codec::lemma_decode_encode(lower_of(invoker), desc);
}

/// Answers a profile query.  An absent record and an unreadable one get the
/// same answer; the store is only read.
pub fn query_profile(argument_tail: &str, invoker: &str, wants_target: bool, store: &Store) -> (r:
    String)
    requires
        store.wf(),
    ensures
        r@ == query_reply(store.contents(), argument_tail@, invoker@, wants_target),
{
    if wants_target {
        if argument_tail.is_empty() {
            format_reply(invoker, "Who is who? I need a name!")
        } else {
            let t = head_token_exec(argument_tail);
            let key = fold_identity(t.as_str());
            match store.load(key.as_str()) {
                Ok(rec) => {
                    let mut body = t;
                    body.append(" is ");
                    body.append(rec.description.as_str());
                    format_reply(invoker, body.as_str())
                },
                Err(_) => {
                    let mut body = "I don't know who ".to_owned();
                    body.append(t.as_str());
                    body.append(" is.");
                    format_reply(invoker, body.as_str())
                },
            }
        }
    } else {
        let key = fold_identity(invoker);
        match store.load(key.as_str()) {
            Ok(rec) => {
                let mut body = "you are ".to_owned();
                body.append(rec.description.as_str());
                format_reply(invoker, body.as_str())
            },
            Err(_) => format_reply(invoker, "I don't know who you are."),
        }
    }
}

} // verus!
