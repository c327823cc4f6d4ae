use vstd::prelude::*;
use crate::errors::{ErrV, LazoError};
use crate::text::{is_ws, is_ws_char};

verus! {

/// The lexer's state during the single left-to-right scan: finished tokens,
/// the token being accumulated, the parenthesis/bracket nesting depth, and
/// whether the scan stands inside a quoted string.
pub struct LexState {
    pub tokens: Seq<Seq<char>>,
    pub cur: Seq<char>,
    pub depth: int,
    pub quote: bool,
}

/// The state before any character is read.
pub open spec fn lex_init() -> LexState {
    LexState { tokens: Seq::empty(), cur: Seq::empty(), depth: 0, quote: false }
}

/// One character of the scan. Openers and closers adjust the depth; outside
/// quotes, whitespace at depth zero finishes the accumulated token and is
/// preserved verbatim at any deeper level; a quote character toggles the
/// in-quote flag; a closer at depth zero is a fatal syntax error.
pub open spec fn lex_step(st: LexState, c: char) -> Result<LexState, ErrV> {
    if (c == '(' || c == '[') && !st.quote {
        Ok(LexState { tokens: st.tokens, cur: st.cur.push(c), depth: st.depth + 1, quote: st.quote })
    } else if (c == ')' || c == ']') && !st.quote {
        if st.depth > 0 {
            Ok(
                LexState {
                    tokens: st.tokens,
                    cur: st.cur.push(c),
                    depth: st.depth - 1,
                    quote: st.quote,
                },
            )
        } else {
            Err(ErrV::Syntax(("there's duplicate end of the parentheses")@))
        }
    } else if is_ws(c) && !st.quote {
        if st.depth != 0 {
            Ok(
                LexState {
                    tokens: st.tokens,
                    cur: st.cur.push(c),
                    depth: st.depth,
                    quote: st.quote,
                },
            )
        } else if st.cur.len() > 0 {
            Ok(
                LexState {
                    tokens: st.tokens.push(st.cur),
                    cur: Seq::empty(),
                    depth: st.depth,
                    quote: st.quote,
                },
            )
        } else {
            Ok(st)
        }
    } else if c == '"' {
        Ok(LexState { tokens: st.tokens, cur: st.cur.push(c), depth: st.depth, quote: !st.quote })
    } else {
        Ok(LexState { tokens: st.tokens, cur: st.cur.push(c), depth: st.depth, quote: st.quote })
    }
}

/// The scan from position `i` on.
pub open spec fn lex_run(st: LexState, s: Seq<char>, i: int) -> Result<LexState, ErrV>
    decreases s.len() - i,
{
    if i < 0 || i >= s.len() {
        Ok(st)
    } else {
        match lex_step(st, s[i]) {
            Ok(st2) => lex_run(st2, s, i + 1),
            Err(e) => Err(e),
        }
    }
}

/// End of input: a still-open quote or unclosed nesting is a fatal syntax
/// error; otherwise a trailing partial token is flushed as a final token.
pub open spec fn lex_finish(st: LexState) -> Result<Seq<Seq<char>>, ErrV> {
    if st.quote {
        Err(ErrV::Syntax(("there's not end of the quote")@))
    } else if st.depth != 0 {
        Err(ErrV::Syntax(("there's not end of the parentheses")@))
    } else if st.cur.len() > 0 {
        Ok(st.tokens.push(st.cur))
    } else {
        Ok(st.tokens)
    }
}

/// The ordered token strings of a source text, or the first syntax error of
/// the scan.
pub open spec fn tokenize_spec(s: Seq<char>) -> Result<Seq<Seq<char>>, ErrV> {
    match lex_run(lex_init(), s, 0) {
        Ok(st) => lex_finish(st),
        Err(e) => Err(e),
    }
}

/// The views of a vector of token strings.
pub open spec fn tokens_view(ts: Seq<String>) -> Seq<Seq<char>> {
    Seq::new(ts.len(), |i: int| ts[i]@)
}

/// Across a scan, the accumulated token and every finished token grow by at
/// most the number of characters read.
pub proof fn lemma_lex_run_lens(st: LexState, s: Seq<char>, i: int, b: int)
    requires
        0 <= i <= s.len(),
        st.cur.len() <= b,
        forall|k: int| 0 <= k < st.tokens.len() ==> (#[trigger] st.tokens[k]).len() <= b,
    ensures
        match lex_run(st, s, i) {
            Ok(st2) => st2.cur.len() <= b + s.len() - i && forall|k: int|
                0 <= k < st2.tokens.len() ==> (#[trigger] st2.tokens[k]).len() <= b + s.len() - i,
            Err(_) => true,
        },
    decreases s.len() - i,
{
    if 0 <= i < s.len() {
        match lex_step(st, s[i]) {
            Ok(st2) => {
                lemma_lex_run_lens(st2, s, i + 1, b + 1);
            },
            Err(_) => {},
        }
    }
}

/// Every token of a successful scan is no longer than the input.
pub proof fn lemma_tokenize_lens(s: Seq<char>)
    ensures
        match tokenize_spec(s) {
            Ok(toks) => forall|k: int|
                0 <= k < toks.len() ==> (#[trigger] toks[k]).len() <= s.len(),
            Err(_) => true,
        },
{
    lemma_lex_run_lens(lex_init(), s, 0, 0);
}

/// The combined size of the tokens from position `i` on, counting one
/// separator per token.
pub open spec fn toks_weight(toks: Seq<Seq<char>>, i: int) -> int
    decreases toks.len() - i,
{
    if i < 0 || i >= toks.len() {
        0
    } else {
        toks[i].len() + 1 + toks_weight(toks, i + 1)
    }
}

/// The combined token size is never negative.
pub proof fn lemma_weight_nonneg(toks: Seq<Seq<char>>, i: int)
    ensures
        toks_weight(toks, i) >= 0,
    decreases toks.len() - i,
{
    if 0 <= i < toks.len() {
        lemma_weight_nonneg(toks, i + 1);
    }
}

/// Appending one token adds its size plus one separator.
pub proof fn lemma_weight_push(toks: Seq<Seq<char>>, t: Seq<char>, i: int)
    requires
        0 <= i <= toks.len(),
    ensures
        toks_weight(toks.push(t), i) == toks_weight(toks, i) + t.len() + 1,
    decreases toks.len() - i,
{
    if i < toks.len() {
        lemma_weight_push(toks, t, i + 1);
        assert(toks.push(t)[i] == toks[i]);
    } else {
        assert(toks.push(t)[i] == t);
        assert(toks_weight(toks.push(t), i + 1) == 0);
        assert(toks_weight(toks, i) == 0);
    }
}

/// Across a scan, the combined size of finished tokens plus the accumulated
/// token grows by at most one per character read.
pub proof fn lemma_lex_run_weight(st: LexState, s: Seq<char>, i: int)
    requires
        0 <= i <= s.len(),
    ensures
        match lex_run(st, s, i) {
            Ok(st2) => toks_weight(st2.tokens, 0) + st2.cur.len() <= toks_weight(st.tokens, 0)
                + st.cur.len() + (s.len() - i),
            Err(_) => true,
        },
    decreases s.len() - i,
{
    if 0 <= i < s.len() {
        match lex_step(st, s[i]) {
            Ok(st2) => {
                if st2.tokens != st.tokens {
                    lemma_weight_push(st.tokens, st.cur, 0);
                }
                lemma_lex_run_weight(st2, s, i + 1);
            },
            Err(_) => {},
        }
    }
}

/// The tokens of a successful scan weigh no more than the input plus one.
pub proof fn lemma_tokenize_weight(s: Seq<char>)
    ensures
        match tokenize_spec(s) {
            Ok(toks) => toks_weight(toks, 0) <= s.len() + 1,
            Err(_) => true,
        },
{
    lemma_lex_run_weight(lex_init(), s, 0);
    match lex_run(lex_init(), s, 0) {
        Ok(st) => {
            if !st.quote && st.depth == 0 && st.cur.len() > 0 {
                lemma_weight_push(st.tokens, st.cur, 0);
            }
        },
        Err(_) => {},
    }
}

/// Turns source text into an ordered sequence of token strings, tracking
/// nesting and quoting; whitespace splits tokens only at depth zero outside
/// quotes. Unbalanced closers, unclosed nesting and an unterminated quote
/// are syntax errors.
pub fn tokenize(input: String) -> (r: Result<Vec<String>, LazoError>)
    ensures
        match r {
            Ok(ts) => tokenize_spec(input@) == Ok::<Seq<Seq<char>>, ErrV>(tokens_view(ts@)),
            Err(e) => tokenize_spec(input@) == Err::<Seq<Seq<char>>, ErrV>(e@),
        },
{
    let s = input.as_str();
    let n = s.unicode_len();
    let mut tokens: Vec<String> = Vec::new();
    let mut cur: String = String::new();
    let mut depth: usize = 0;
    let mut quote: bool = false;
    let mut i: usize = 0;
    proof {
        assert(tokens_view(tokens@) =~= Seq::<Seq<char>>::empty());
        assert(LexState {
            tokens: tokens_view(tokens@),
            cur: cur@,
            depth: depth as int,
            quote,
        } == lex_init());
    }
    while i < n
        invariant
            0 <= i <= n,
            n == s@.len(),
            s@ == input@,
            depth <= i,
            lex_run(lex_init(), input@, 0) == lex_run(
                LexState { tokens: tokens_view(tokens@), cur: cur@, depth: depth as int, quote },
                input@,
                i as int,
            ),
        decreases n - i,
    {
        let ghost st = LexState {
            tokens: tokens_view(tokens@),
            cur: cur@,
            depth: depth as int,
            quote,
        };
        let c = s.get_char(i);
        if (c == '(' || c == '[') && !quote {
            crate::text::push_char(&mut cur, c);
            depth += 1;
        } else if (c == ')' || c == ']') && !quote {
            if depth > 0 {
                crate::text::push_char(&mut cur, c);
                depth -= 1;
            } else {
                return Err(
                    LazoError::Syntax(
                        String::from_str("there's duplicate end of the parentheses"),
                    ),
                );
            }
        } else if is_ws_char(c) && !quote {
            if depth != 0 {
                crate::text::push_char(&mut cur, c);
            } else if cur.as_str().unicode_len() > 0 {
                tokens.push(cur);
                cur = String::new();
                proof {
                    assert(tokens_view(tokens@) =~= st.tokens.push(st.cur));
                }
            }
        } else if c == '"' {
            quote = !quote;
            crate::text::push_char(&mut cur, c);
        } else {
            crate::text::push_char(&mut cur, c);
        }
        proof {
            let st2 = LexState {
                tokens: tokens_view(tokens@),
                cur: cur@,
                depth: depth as int,
                quote,
            };
            assert(lex_step(st, input@[i as int]) == Ok::<LexState, ErrV>(st2));
        }
        i += 1;
    }
    if quote {
        return Err(LazoError::Syntax(String::from_str("there's not end of the quote")));
    }
    if depth != 0 {
        return Err(LazoError::Syntax(String::from_str("there's not end of the parentheses")));
    }
    if cur.as_str().unicode_len() > 0 {
        let ghost st = LexState {
            tokens: tokens_view(tokens@),
            cur: cur@,
            depth: depth as int,
            quote,
        };
        tokens.push(cur);
        proof {
            assert(tokens_view(tokens@) =~= st.tokens.push(st.cur));
        }
    }
    Ok(tokens)
}

} // verus!
