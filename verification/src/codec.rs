use vstd::prelude::*;

use crate::text::{is_match_at, match_at, push_char};

verus! {

// ---------------------------------------------------------------------------
// The stored text form of a record
//
// A record is kept as one line of structured text with exactly two quoted
// fields, nickname and description:
//
//     {"nickname":"<key>","description":"<text>"}
//
// Inside a quoted field every quote and backslash is preceded by a
// backslash, so any key and any description can be stored and read back.
// ---------------------------------------------------------------------------

/// A character that cannot stand bare inside a quoted field.
pub open spec fn needs_escape(c: char) -> bool {
    c == '"' || c == '\\'
}

/// The body of a quoted field: every quote and backslash is preceded by a
/// backslash.
pub open spec fn escape(s: Seq<char>) -> Seq<char>
    decreases s.len(),
{
    if s.len() == 0 {
        s
    } else {
        (if needs_escape(s[0]) {
            seq!['\\', s[0]]
        } else {
            seq![s[0]]
        }) + escape(s.skip(1))
    }
}

/// Reads a quoted field's body up to its closing quote: the field's content
/// and what follows the quote, or nothing when the body is malformed or
/// unterminated.
pub open spec fn parse_body(s: Seq<char>) -> Option<(Seq<char>, Seq<char>)>
    decreases s.len(),
{
    if s.len() == 0 {
        None
    } else if s[0] == '"' {
        Some((Seq::empty(), s.skip(1)))
    } else if s[0] == '\\' {
        if 2 <= s.len() && needs_escape(s[1]) {
            match parse_body(s.skip(2)) {
                None => None,
                Some(p) => Some((seq![s[1]] + p.0, p.1)),
            }
        } else {
            None
        }
    } else {
        match parse_body(s.skip(1)) {
            None => None,
            Some(p) => Some((seq![s[0]] + p.0, p.1)),
        }
    }
}

/// The text before the nickname field's body.
pub open spec fn key_prefix() -> Seq<char> {
    "{\"nickname\":\""@
}

/// The text between the nickname field and the description field's body.
pub open spec fn desc_sep() -> Seq<char> {
    ",\"description\":\""@
}

/// The stored text of a record with the given key and description.
pub open spec fn encode_spec(key: Seq<char>, desc: Seq<char>) -> Seq<char> {
    key_prefix() + escape(key) + seq!['"'] + desc_sep() + escape(desc) + seq!['"'] + seq!['}']
}

pub open spec fn starts_with(s: Seq<char>, p: Seq<char>) -> bool {
    p.len() <= s.len() && s.subrange(0, p.len() as int) == p
}

/// The key and description a stored text holds, or nothing when the text is
/// not a well-formed record.
pub open spec fn decode_spec(s: Seq<char>) -> Option<(Seq<char>, Seq<char>)> {
    if !starts_with(s, key_prefix()) {
        None
    } else {
        match parse_body(s.skip(key_prefix().len() as int)) {
            None => None,
            Some(kp) => if !starts_with(kp.1, desc_sep()) {
                None
            } else {
                match parse_body(kp.1.skip(desc_sep().len() as int)) {
                    None => None,
                    Some(dp) => if dp.1 == seq!['}'] {
                        Some((kp.0, dp.0))
                    } else {
                        None
                    },
                }
            },
        }
    }
}

// ---------------------------------------------------------------------------
// Executable encoding
// ---------------------------------------------------------------------------

/// Escapes `s` for use as a quoted field's body.
fn escape_exec(s: &str) -> (r: String)
    ensures
        r@ == escape(s@),
{
    let n = s.unicode_len();
    let mut out = String::new();
    proof {
        assert(s@.skip(0) =~= s@);
    }
    let mut i: usize = 0;
    while i < n
        invariant
            n == s@.len(),
            0 <= i <= n,
            out@ + escape(s@.skip(i as int)) == escape(s@),
        decreases n - i,
    {
        let c = s.get_char(i);
        let ghost pre = out@;
        proof {
            assert(s@.skip(i as int)[0] == s@[i as int]);
            assert(s@.skip(i as int).skip(1) =~= s@.skip(i + 1));
        }
        if c == '"' || c == '\\' {
            push_char(&mut out, '\\');
            push_char(&mut out, c);
            proof {
                assert(out@ =~= pre + seq!['\\', c]);
                assert(out@ + escape(s@.skip(i + 1)) =~= pre + escape(s@.skip(i as int)));
            }
        } else {
            push_char(&mut out, c);
            proof {
                assert(out@ =~= pre + seq![c]);
                assert(out@ + escape(s@.skip(i + 1)) =~= pre + escape(s@.skip(i as int)));
            }
        }
        i = i + 1;
    }
    proof {
        assert(escape(s@.skip(n as int)) =~= Seq::<char>::empty());
        assert(out@ =~= out@ + escape(s@.skip(n as int)));
    }
    out
}

/// Builds the stored text of a record with the given key and description.
pub fn encode_fields(key: &str, desc: &str) -> (r: String)
    ensures
        r@ == encode_spec(key@, desc@),
{
    let mut out = "{\"nickname\":\"".to_owned();
    let ek = escape_exec(key);
    out.append(ek.as_str());
    push_char(&mut out, '"');
    out.append(",\"description\":\"");
    let ed = escape_exec(desc);
    out.append(ed.as_str());
    push_char(&mut out, '"');
    push_char(&mut out, '}');
    proof {
        assert(out@ =~= encode_spec(key@, desc@));
    }
    out
}

// ---------------------------------------------------------------------------
// Executable decoding
// ---------------------------------------------------------------------------

/// Reads a quoted field's body in `s` starting at `start`: the content and
/// the position after the closing quote.
fn parse_body_exec(s: &str, start: usize, n: usize) -> (r: Option<(String, usize)>)
    requires
        start <= n,
        n == s@.len(),
    ensures
        match r {
            None => parse_body(s@.skip(start as int)) is None,
            Some(p) => parse_body(s@.skip(start as int)) == Some((p.0@, s@.skip(p.1 as int)))
                && start <= p.1 <= n,
        },
{
    let mut content = String::new();
    let mut i: usize = start;
    loop
        invariant
            start <= i <= n,
            n == s@.len(),
            (match parse_body(s@.skip(i as int)) {
                None => parse_body(s@.skip(start as int)) is None,
                Some(p) => parse_body(s@.skip(start as int)) == Some((content@ + p.0, p.1)),
            }),
        decreases n - i,
    {
        if i == n {
            proof {
                assert(s@.skip(i as int).len() == 0);
            }
            return None;
        }
        let c = s.get_char(i);
        proof {
            assert(s@.skip(i as int)[0] == s@[i as int]);
            assert(s@.skip(i as int).len() == n - i);
        }
        if c == '"' {
            proof {
                assert(s@.skip(i as int).skip(1) =~= s@.skip(i + 1));
                assert(content@ + Seq::<char>::empty() =~= content@);
            }
            return Some((content, i + 1));
        } else if c == '\\' {
            if i + 1 < n {
                let c2 = s.get_char(i + 1);
                proof {
                    assert(s@.skip(i as int)[1] == s@[i + 1]);
                }
                if c2 == '"' || c2 == '\\' {
                    let ghost pre = content@;
                    push_char(&mut content, c2);
                    proof {
                        assert(s@.skip(i as int).skip(2) =~= s@.skip(i + 2));
                        match parse_body(s@.skip(i + 2)) {
                            None => {},
                            Some(p) => {
                                assert(content@ + p.0 =~= pre + (seq![c2] + p.0));
                            },
                        }
                    }
                    i = i + 2;
                } else {
                    return None;
                }
            } else {
                return None;
            }
        } else {
            let ghost pre = content@;
            push_char(&mut content, c);
            proof {
                assert(s@.skip(i as int).skip(1) =~= s@.skip(i + 1));
                match parse_body(s@.skip(i + 1)) {
                    None => {},
                    Some(p) => {
                        assert(content@ + p.0 =~= pre + (seq![c] + p.0));
                    },
                }
            }
            i = i + 1;
        }
    }
}

/// Reads a stored text back into its key and description, or nothing when
/// the text is not a well-formed record.
pub fn decode_fields(s: &str) -> (r: Option<(String, String)>)
    ensures
        match decode_spec(s@) {
            None => r is None,
            Some(kd) => r matches Some(p) && p.0@ == kd.0 && p.1@ == kd.1,
        },
{
    let n = s.unicode_len();
    let kp = "{\"nickname\":\"";
    let kpl = kp.unicode_len();
    proof {
        assert(kp@ == key_prefix());
    }
    if kpl > n {
        return None;
    }
    if !match_at(s, kp, 0, kpl) {
        return None;
    }
    proof {
        assert(s@.subrange(0, kpl as int) == kp@);
    }
    let key_end = parse_body_exec(s, kpl, n);
    match key_end {
        None => None,
        Some((key, j)) => {
            let ds = ",\"description\":\"";
            let dsl = ds.unicode_len();
            proof {
                assert(ds@ == desc_sep());
            }
            if dsl > n - j {
                proof {
                    assert(s@.skip(j as int).len() < dsl);
                }
                return None;
            }
            if !match_at(s, ds, j, dsl) {
                proof {
                    assert(s@.skip(j as int).subrange(0, dsl as int) != ds@) by {
                        assert(s@.subrange(j as int, j + dsl) != ds@);
                        assert(s@.skip(j as int).subrange(0, dsl as int) =~= s@.subrange(
                            j as int,
                            j + dsl,
                        ));
                    }
                }
                return None;
            }
            proof {
                assert(s@.skip(j as int).subrange(0, dsl as int) =~= s@.subrange(j as int, j + dsl));
                assert(s@.skip(j as int).skip(dsl as int) =~= s@.skip(j + dsl));
            }
            let desc_end = parse_body_exec(s, j + dsl, n);
            match desc_end {
                None => None,
                Some((desc, j2)) => {
                    if n - j2 == 1 && s.get_char(j2) == '}' {
                        proof {
                            assert(s@.skip(j2 as int) =~= seq!['}']);
                        }
                        Some((key, desc))
                    } else {
                        proof {
                            assert(s@.skip(j2 as int) != seq!['}']) by {
                                if n - j2 == 1 {
                                    assert(s@.skip(j2 as int)[0] == s@[j2 as int]);
                                } else {
                                    assert(s@.skip(j2 as int).len() != 1);
                                }
                            }
                        }
                        None
                    }
                },
            }
        },
    }
}

// ---------------------------------------------------------------------------
// The round trip
// ---------------------------------------------------------------------------

/// Reading a quoted field's body back from its escaped form yields the
/// original content and leaves exactly what followed the closing quote.
proof fn lemma_parse_escape(s: Seq<char>, rest: Seq<char>)
    ensures
        parse_body(escape(s) + seq!['"'] + rest) == Some((s, rest)),
    decreases s.len(),
{
    let u = escape(s) + seq!['"'] + rest;
    if s.len() == 0 {
        assert(u =~= seq!['"'] + rest);
        assert(u[0] == '"');
        assert(u.skip(1) =~= rest);
        assert(s =~= Seq::<char>::empty());
    } else {
        let c = s[0];
        let tail_u = escape(s.skip(1)) + seq!['"'] + rest;
        lemma_parse_escape(s.skip(1), rest);
        if needs_escape(c) {
            assert(escape(s) == seq!['\\', c] + escape(s.skip(1)));
            assert(u[0] == '\\');
            assert(u[1] == c);
            assert(2 <= u.len());
            assert(u.skip(2) =~= tail_u);
            assert(seq![c] + s.skip(1) =~= s);
        } else {
            assert(escape(s) == seq![c] + escape(s.skip(1)));
            assert(u[0] == c);
            assert(u.skip(1) =~= tail_u);
            assert(seq![c] + s.skip(1) =~= s);
        }
    }
}

/// The stored text of a record reads back as exactly the key and
/// description it was built from.
pub proof fn lemma_decode_encode(key: Seq<char>, desc: Seq<char>)
    ensures
        decode_spec(encode_spec(key, desc)) == Some((key, desc)),
{
    let enc = encode_spec(key, desc);
    let kp = key_prefix();
    let rest1 = desc_sep() + escape(desc) + seq!['"'] + seq!['}'];
    assert(starts_with(enc, kp)) by {
        assert(enc.subrange(0, kp.len() as int) =~= kp);
    }
    assert(enc.skip(kp.len() as int) =~= escape(key) + seq!['"'] + rest1);
    lemma_parse_escape(key, rest1);
    assert(starts_with(rest1, desc_sep())) by {
        assert(rest1.subrange(0, desc_sep().len() as int) =~= desc_sep());
    }
    assert(rest1.skip(desc_sep().len() as int) =~= escape(desc) + seq!['"'] + seq!['}']);
    lemma_parse_escape(desc, seq!['}']);
}

} // verus!
