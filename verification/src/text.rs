use vstd::prelude::*;

verus! {

// ---------------------------------------------------------------------------
// Searching for a delimiter
// ---------------------------------------------------------------------------

/// True when `d` occurs in `s` starting at position `i`.
pub open spec fn is_match_at(s: Seq<char>, d: Seq<char>, i: int) -> bool {
    0 <= i && i + d.len() <= s.len() && s.subrange(i, i + d.len()) == d
}

/// The first position at or after `from` where `d` occurs in `s`.
pub open spec fn find_from(s: Seq<char>, d: Seq<char>, from: int) -> Option<int>
    recommends
        0 <= from,
        0 < d.len(),
    decreases s.len() - from,
{
    if d.len() == 0 || from + d.len() > s.len() {
        None
    } else if is_match_at(s, d, from) {
        Some(from)
    } else {
        find_from(s, d, from + 1)
    }
}

/// A found position lies between `from` and the end of `s`, and a match
/// stands there.
pub proof fn lemma_find_from_bounds(s: Seq<char>, d: Seq<char>, from: int)
    requires
        0 <= from,
        find_from(s, d, from) is Some,
    ensures
        from <= find_from(s, d, from).unwrap(),
        is_match_at(s, d, find_from(s, d, from).unwrap()),
    decreases s.len() - from,
{
    if d.len() == 0 || from + d.len() > s.len() {
    } else if is_match_at(s, d, from) {
    } else {
        lemma_find_from_bounds(s, d, from + 1);
    }
}

/// Compares two string slices character by character.
pub fn str_eq(a: &str, b: &str) -> (r: bool)
    ensures
        r == (a@ == b@),
{
    let n = a.unicode_len();
    if n != b.unicode_len() {
        return false;
    }
    let mut i: usize = 0;
    while i < n
        invariant
            n == a@.len(),
            n == b@.len(),
            0 <= i <= n,
            forall|j: int| 0 <= j < i ==> a@[j] == b@[j],
        decreases n - i,
    {
        if a.get_char(i) != b.get_char(i) {
            return false;
        }
        i = i + 1;
    }
    proof {
        assert(a@ =~= b@);
    }
    true
}

/// True when `d` occurs in `s` at position `i`.
pub fn match_at(s: &str, d: &str, i: usize, dl: usize) -> (r: bool)
    requires
        dl == d@.len(),
        i + dl <= s@.len(),
        s@.len() <= usize::MAX,
    ensures
        r == is_match_at(s@, d@, i as int),
{
    let mut j: usize = 0;
    while j < dl
        invariant
            dl == d@.len(),
            i + dl <= s@.len(),
            s@.len() <= usize::MAX,
            0 <= j <= dl,
            forall|p: int| 0 <= p < j ==> s@[i + p] == d@[p],
        decreases dl - j,
    {
        if s.get_char(i + j) != d.get_char(j) {
            proof {
                assert(s@.subrange(i as int, i + dl) != d@) by {
                    assert(s@.subrange(i as int, i + dl)[j as int] == s@[i + j]);
                }
            }
            return false;
        }
        j = j + 1;
    }
    proof {
        assert(s@.subrange(i as int, i + dl) =~= d@);
    }
    true
}

/// The first occurrence of `d` in `s` at or after `from`, if any.
pub fn find_from_exec(s: &str, d: &str, from: usize) -> (r: Option<usize>)
    requires
        1 <= d@.len(),
        from <= s@.len(),
    ensures
        match r {
            Some(i) => find_from(s@, d@, from as int) == Some(i as int),
            None => find_from(s@, d@, from as int) is None,
        },
{
    let n = s.unicode_len();
    let dl = d.unicode_len();
    if dl > n {
        return None;
    }
    let mut i: usize = from;
    while i <= n - dl
        invariant
            n == s@.len(),
            dl == d@.len(),
            1 <= dl <= n,
            from <= i,
            find_from(s@, d@, from as int) == find_from(s@, d@, i as int),
        decreases n - i,
    {
        if match_at(s, d, i, dl) {
            return Some(i);
        }
        i = i + 1;
    }
    None
}

// ---------------------------------------------------------------------------
// Splitting on a delimiter
// ---------------------------------------------------------------------------

/// `s` split on the delimiter `d`: the pieces between occurrences of `d`,
/// in order.  A string without the delimiter is one piece, so the result is
/// never empty.
pub open spec fn split_on(s: Seq<char>, d: Seq<char>) -> Seq<Seq<char>>
    recommends
        0 < d.len(),
    decreases s.len(),
    via split_on_decreases
{
    if d.len() == 0 {
        seq![s]
    } else {
        match find_from(s, d, 0) {
            None => seq![s],
            Some(i) => seq![s.subrange(0, i)] + split_on(s.subrange(i + d.len(), s.len() as int), d),
        }
    }
}

#[via_fn]
proof fn split_on_decreases(s: Seq<char>, d: Seq<char>) {
    if d.len() > 0 {
        if find_from(s, d, 0) is Some {
            lemma_find_from_bounds(s, d, 0);
        }
    }
}

/// Splitting yields at least one piece.
pub proof fn lemma_split_on_len(s: Seq<char>, d: Seq<char>)
    ensures
        1 <= split_on(s, d).len(),
{
}

/// The views of a sequence of strings.
pub open spec fn views_of(v: Seq<String>) -> Seq<Seq<char>> {
    v.map_values(|x: String| x@)
}

/// Splits `s` on the delimiter `d`.
pub fn split_literal(s: &str, d: &str) -> (r: Vec<String>)
    requires
        1 <= d@.len(),
    ensures
        views_of(r@) == split_on(s@, d@),
        1 <= r@.len(),
{
    let n = s.unicode_len();
    let dl = d.unicode_len();
    let mut out: Vec<String> = Vec::new();
    let mut pos: usize = 0;
    proof {
        assert(views_of(out@) =~= Seq::<Seq<char>>::empty());
        assert(s@.subrange(0, n as int) =~= s@);
        assert(views_of(out@) + split_on(s@, d@) =~= split_on(s@, d@));
    }
    loop
        invariant_except_break
            views_of(out@) + split_on(s@.subrange(pos as int, n as int), d@) == split_on(s@, d@),
        invariant
            n == s@.len(),
            dl == d@.len(),
            1 <= dl,
            0 <= pos <= n,
        ensures
            views_of(out@) == split_on(s@, d@),
            1 <= out@.len(),
        decreases n - pos,
    {
        let rest = s.substring_char(pos, n);
        match find_from_exec(rest, d, 0) {
            None => {
                let ghost pieces = views_of(out@);
                out.push(rest.to_owned());
                proof {
                    assert(split_on(rest@, d@) =~= seq![rest@]);
                    assert(views_of(out@) =~= pieces.push(rest@));
                    assert(views_of(out@) =~= split_on(s@, d@)) by {
                        assert(pieces + seq![rest@] =~= pieces.push(rest@));
                    }
                    lemma_split_on_len(s@, d@);
                }
                break;
            },
            Some(i) => {
                proof {
                    lemma_find_from_bounds(rest@, d@, 0);
                }
                let piece = rest.substring_char(0, i);
                let ghost pieces = views_of(out@);
                out.push(piece.to_owned());
                proof {
                    assert(views_of(out@) =~= pieces.push(piece@));
                    let tail0 = rest@.subrange(i + dl, rest@.len() as int);
                    assert(split_on(rest@, d@) == seq![piece@] + split_on(tail0, d@));
                    assert(tail0 =~= s@.subrange(pos + i + dl, n as int));
                    assert(views_of(out@) + split_on(s@.subrange(pos + i + dl, n as int), d@)
                        =~= pieces + split_on(rest@, d@));
                }
                pos = pos + i + dl;
            },
        }
    }
    out
}

// ---------------------------------------------------------------------------
// Trimming trailing whitespace
// ---------------------------------------------------------------------------

/// The whitespace characters recognised when trimming a line.
pub open spec fn is_space(c: char) -> bool {
    c == ' ' || c == '\t' || c == '\r' || c == '\n'
}

/// `s` with its trailing whitespace removed.
pub open spec fn trim_trailing(s: Seq<char>) -> Seq<char>
    decreases s.len(),
{
    if s.len() > 0 && is_space(s.last()) {
        trim_trailing(s.drop_last())
    } else {
        s
    }
}

/// Whitespace test on a single character.
fn is_space_exec(c: char) -> (r: bool)
    ensures
        r == is_space(c),
{
    c == ' ' || c == '\t' || c == '\r' || c == '\n'
}

/// Removes trailing whitespace from `s`.
pub fn trim_trailing_exec(s: &str) -> (r: String)
    ensures
        r@ == trim_trailing(s@),
{
    let n = s.unicode_len();
    let mut e: usize = n;
    proof {
        assert(s@.subrange(0, n as int) =~= s@);
    }
    while e > 0 && is_space_exec(s.get_char(e - 1))
        invariant
            n == s@.len(),
            0 <= e <= n,
            trim_trailing(s@.subrange(0, e as int)) == trim_trailing(s@),
        decreases e,
    {
        proof {
            let cur = s@.subrange(0, e as int);
            assert(cur.last() == s@[e - 1]);
            assert(cur.drop_last() =~= s@.subrange(0, e - 1));
        }
        e = e - 1;
    }
    proof {
        let cur = s@.subrange(0, e as int);
        assert(trim_trailing(cur) == cur);
    }
    let r = s.substring_char(0, e);
    r.to_owned()
}

// ---------------------------------------------------------------------------
// Tokens and replies
// ---------------------------------------------------------------------------

/// The leading token of `s`: everything before the first space, or all of
/// `s` when it has no space.
pub open spec fn head_token(s: Seq<char>) -> Seq<char> {
    match find_from(s, " "@, 0) {
        None => s,
        Some(i) => s.subrange(0, i),
    }
}

/// Extracts the leading token of `s`.
pub fn head_token_exec(s: &str) -> (r: String)
    ensures
        r@ == head_token(s@),
{
    proof {
        reveal_strlit(" ");
    }
    match find_from_exec(s, " ", 0) {
        None => s.to_owned(),
        Some(i) => {
            proof {
                lemma_find_from_bounds(s@, " "@, 0);
            }
            let t = s.substring_char(0, i);
            t.to_owned()
        },
    }
}

/// The reply text a handler produces for an invoker: "{invoker}: {body}".
pub open spec fn reply_text(invoker: Seq<char>, body: Seq<char>) -> Seq<char> {
    invoker + ": "@ + body
}

/// Builds the reply string "{invoker}: {body}".
pub fn format_reply(invoker: &str, body: &str) -> (r: String)
    ensures
        r@ == reply_text(invoker@, body@),
{
    let mut s = invoker.to_owned();
    s.append(": ");
    s.append(body);
    s
}

/// Relies on String::push: appends exactly the one character `c`.
#[verifier::external_body]
pub(crate) fn push_char(s: &mut String, c: char)
    ensures
        final(s)@ == old(s)@.push(c),
{
    s.push(c);
}

} // verus!
