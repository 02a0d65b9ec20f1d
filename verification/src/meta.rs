//! Whitespace tokenization of metadata lines.
//!
//! `# HELP` and `# TYPE` lines are read as whitespace-separated tokens:
//! the help text is the tokens after the metric name joined by single
//! spaces, and the `TYPE` line's third and fourth tokens are the family's
//! name and kind.

use vstd::prelude::*;

use vstd::string::StrSliceExecFns;

verus! {

/// The view of a list of owned strings as character sequences.
pub open spec fn strings_view(ss: Seq<String>) -> Seq<Seq<char>> {
    ss.map_values(|x: String| x@)
}

/// A whitespace character of a metadata line.
pub open spec fn is_space(c: char) -> bool {
    c == ' ' || c == '\t'
}

/// The end of the whitespace run beginning at `pos`.
pub open spec fn skip_spaces(s: Seq<char>, pos: int) -> int
    decreases s.len() - pos,
{
    if !(0 <= pos < s.len()) {
        s.len() as int
    } else if is_space(s[pos]) {
        skip_spaces(s, pos + 1)
    } else {
        pos
    }
}

/// What `skip_spaces` returns: the first non-space position at or after
/// `pos`, or the end of the text.
pub proof fn lemma_skip_spaces(s: Seq<char>, pos: int)
    requires
        0 <= pos,
    ensures
        ({
            let b = skip_spaces(s, pos);
            &&& b <= s.len()
            &&& pos <= s.len() ==> pos <= b
            &&& b < s.len() ==> !is_space(s[b])
            &&& forall|j: int| pos <= j < b ==> is_space(#[trigger] s[j])
        }),
    decreases s.len() - pos,
{
    if 0 <= pos < s.len() && is_space(s[pos]) {
        lemma_skip_spaces(s, pos + 1);
    }
}

/// The end of the token beginning at `pos`: the first space at or after
/// `pos`, or the end of the text.
pub open spec fn token_end(s: Seq<char>, pos: int) -> int
    decreases s.len() - pos,
{
    if !(0 <= pos < s.len()) {
        s.len() as int
    } else if is_space(s[pos]) {
        pos
    } else {
        token_end(s, pos + 1)
    }
}

/// What `token_end` returns.
pub proof fn lemma_token_end(s: Seq<char>, pos: int)
    requires
        0 <= pos,
    ensures
        ({
            let e = token_end(s, pos);
            &&& e <= s.len()
            &&& pos <= s.len() ==> pos <= e
            &&& e < s.len() ==> is_space(s[e])
            &&& forall|j: int| pos <= j < e ==> !is_space(#[trigger] s[j])
        }),
    decreases s.len() - pos,
{
    if 0 <= pos < s.len() && !is_space(s[pos]) {
        lemma_token_end(s, pos + 1);
    }
}

/// The whitespace-separated tokens of `s` from position `pos` on.
pub open spec fn tokens_from(s: Seq<char>, pos: int) -> Seq<Seq<char>>
    decreases s.len() - pos,
    when 0 <= pos
    via tokens_from_dec
{
    let b = skip_spaces(s, pos);
    if b >= s.len() {
        Seq::empty()
    } else {
        let e = token_end(s, b);
        seq![s.subrange(b, e)] + tokens_from(s, e)
    }
}

#[via_fn]
proof fn tokens_from_dec(s: Seq<char>, pos: int) {
    lemma_skip_spaces(s, pos);
    let b = skip_spaces(s, pos);
    if b < s.len() {
        lemma_token_end(s, b);
    }
}

/// The whitespace-separated tokens of a whole line.
pub open spec fn spec_tokens(s: Seq<char>) -> Seq<Seq<char>> {
    tokens_from(s, 0)
}

/// Find the end of the token beginning at `pos`.
#[verifier::loop_isolation(false)]
fn token_end_x(s: &str, pos: usize) -> (e: usize)
    requires
        pos <= s@.len(),
    ensures
        pos <= e <= s@.len(),
        e as int == token_end(s@, pos as int),
{
    let n = s.unicode_len();
    let mut i = pos;
    while i < n
        invariant
            pos <= i <= n,
            token_end(s@, pos as int) == token_end(s@, i as int),
        decreases n - i,
    {
        let c = s.get_char(i);
        if c == ' ' || c == '\t' {
            return i;
        }
        i = i + 1;
    }
    i
}

/// Split a line into its whitespace-separated tokens.
#[verifier::loop_isolation(false)]
pub(crate) fn split_tokens(s: &str) -> (r: Vec<String>)
    ensures
        strings_view(r@) == spec_tokens(s@),
{
    let n = s.unicode_len();
    let mut toks: Vec<String> = Vec::new();
    let mut pos: usize = 0;
    proof {
        assert(strings_view(toks@) + tokens_from(s@, 0) =~= tokens_from(s@, 0));
    }
    while pos < n
        invariant
            pos <= n,
            spec_tokens(s@) == strings_view(toks@) + tokens_from(s@, pos as int),
        decreases n - pos,
    {
        let c = s.get_char(pos);
        if c == ' ' || c == '\t' {
            pos = pos + 1;
        } else {
            let e = token_end_x(s, pos);
            proof {
                lemma_token_end(s@, pos as int);
            }
            let tok = s.substring_char(pos, e).to_owned();
            let ghost before = toks@;
            toks.push(tok);
            proof {
                assert(strings_view(toks@) =~= strings_view(before).push(
                    s@.subrange(pos as int, e as int),
                ));
                assert(tokens_from(s@, pos as int) == seq![s@.subrange(pos as int, e as int)]
                    + tokens_from(s@, e as int));
                assert(strings_view(before) + tokens_from(s@, pos as int) =~= strings_view(toks@)
                    + tokens_from(s@, e as int));
            }
            pos = e;
        }
    }
    proof {
        assert(strings_view(toks@) + tokens_from(s@, pos as int) =~= strings_view(toks@));
    }
    toks
}

} // verus!
