//! The argument tokenizer: splits a raw command line into shell-like tokens.
//! Whitespace separates tokens, except that a run between matching quote
//! characters is kept inside one token with the quotes stripped. An
//! unterminated quote is not an error: it consumes to the end of the input.
//! No escape characters are processed beyond quoting.

use vstd::prelude::*;

verus! {

/// Token-separating whitespace.
pub open spec fn is_space_char(c: char) -> bool {
    c == ' ' || c == '\t' || c == '\n' || c == '\r'
}

/// A quote character; a quoted run ends only at the same character.
pub open spec fn is_quote_char(c: char) -> bool {
    c == '"' || c == '\''
}

/// State of the tokenizer after reading a prefix of the line: the tokens
/// already emitted, the token being collected, the pending quote character
/// if one is open, and whether a token is being collected at all (so that
/// an empty quoted run still yields an empty token).
pub struct LexState {
    pub toks: Seq<Seq<char>>,
    pub cur: Seq<char>,
    pub quote: Option<char>,
    pub started: bool,
}

pub open spec fn lex_init() -> LexState {
    LexState { toks: Seq::empty(), cur: Seq::empty(), quote: None, started: false }
}

/// One character of input advances the tokenizer state.
pub open spec fn lex_step(st: LexState, c: char) -> LexState {
    match st.quote {
        Some(q) => {
            if c == q {
                LexState { quote: None, ..st }
            } else {
                LexState { cur: st.cur.push(c), ..st }
            }
        },
        None => {
            if is_quote_char(c) {
                LexState { quote: Some(c), started: true, ..st }
            } else if is_space_char(c) {
                if st.started {
                    LexState { toks: st.toks.push(st.cur), cur: Seq::empty(), started: false, ..st }
                } else {
                    st
                }
            } else {
                LexState { cur: st.cur.push(c), started: true, ..st }
            }
        },
    }
}

/// Tokenizer state after the first `n` characters of `s`.
pub open spec fn lex_fold(s: Seq<char>, n: int) -> LexState
    recommends
        0 <= n <= s.len(),
    decreases n,
{
    if n <= 0 {
        lex_init()
    } else {
        lex_step(lex_fold(s, n - 1), s[n - 1])
    }
}

/// The tokens of a whole line: fold over every character, then close the
/// trailing token if one was being collected.
pub open spec fn spec_split_shell(s: Seq<char>) -> Seq<Seq<char>> {
    let st = lex_fold(s, s.len() as int);
    if st.started {
        st.toks.push(st.cur)
    } else {
        st.toks
    }
}

/// Relies on std's `String::push`: appends exactly one character.
#[verifier::external_body]
pub(crate) fn push_char(s: &mut String, c: char)
    ensures
        final(s)@ == old(s)@.push(c),
{
    s.push(c);
}

/// Runtime test for token-separating whitespace.
fn is_space(c: char) -> (b: bool)
    ensures
        b == is_space_char(c),
{
    match c {
        ' ' | '\t' | '\n' | '\r' => true,
        _ => false,
    }
}

/// Runtime test for a quote character.
fn is_quote(c: char) -> (b: bool)
    ensures
        b == is_quote_char(c),
{
    match c {
        '"' | '\'' => true,
        _ => false,
    }
}

/// Split a raw command line into tokens, honoring quoting. Pure: the result
/// is a function of the line alone, and re-splitting the same line restarts
/// from the beginning.
pub fn split_shell(line: &str) -> (r: Vec<String>)
    ensures
        r.deep_view() == spec_split_shell(line@),
{
    let n = line.unicode_len();
    let mut toks: Vec<String> = Vec::new();
    let mut cur = String::new();
    let mut quote: Option<char> = None;
    let mut started = false;
    let mut i: usize = 0;
    while i < n
        invariant
            n == line@.len(),
            i <= n,
            toks@.len() == lex_fold(line@, i as int).toks.len(),
            forall|m: int|
                0 <= m < toks@.len() ==> (#[trigger] toks@[m])@ == lex_fold(line@, i as int).toks[m],
            cur@ == lex_fold(line@, i as int).cur,
            quote == lex_fold(line@, i as int).quote,
            started == lex_fold(line@, i as int).started,
        decreases n - i,
    {
        let c = line.get_char(i);
        let ghost pre = lex_fold(line@, i as int);
        proof {
            assert(lex_fold(line@, i + 1) == lex_step(pre, c));
        }
        match quote {
            Some(q) => {
                if c == q {
                    quote = None;
                } else {
                    push_char(&mut cur, c);
                }
            },
            None => {
                if is_quote(c) {
                    quote = Some(c);
                    started = true;
                } else if is_space(c) {
                    if started {
                        let ghost prevs = toks@;
                        toks.push(cur);
                        proof {
                            assert(forall|m: int| 0 <= m < prevs.len() ==> toks@[m] == prevs[m]);
                        }
                        cur = String::new();
                        started = false;
                    }
                } else {
                    push_char(&mut cur, c);
                    started = true;
                }
            },
        }
        i = i + 1;
    }
    if started {
        let ghost prevs = toks@;
        toks.push(cur);
        proof {
            assert(forall|m: int| 0 <= m < prevs.len() ==> toks@[m] == prevs[m]);
        }
    }
    proof {
        assert(toks.deep_view() =~= spec_split_shell(line@));
    }
    toks
}

} // verus!
