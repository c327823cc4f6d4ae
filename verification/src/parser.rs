use vstd::prelude::*;
use crate::errors::{ErrV, LazoError};
use crate::lexer::{lemma_tokenize_lens, lemma_tokenize_weight, lemma_weight_nonneg, tokenize,
    tokenize_spec, tokens_view, toks_weight};
use crate::text::{lemma_trim_len, parse_i64, parse_i64_spec, trim, trim_spec};
use crate::value::{lemma_vals_of, vals_of, Type, Val};

verus! {

/// The value denoted by one token. Literal forms are tried first — numeric,
/// boolean, null, quoted string — then parenthesized text re-tokenizes into
/// a pending call, bracketed text into list data, a leading single quote
/// marks an explicit symbol, and any other text is a bare symbol.
pub open spec fn parse_spec(token: Seq<char>) -> Result<Val, ErrV>
    decreases token.len(),
    via parse_spec_dec
{
    let t = trim_spec(token);
    match parse_i64_spec(t) {
        Some(n) => Ok(Val::Number(n as int)),
        None => if t == ("true")@ {
            Ok(Val::Bool(true))
        } else if t == ("false")@ {
            Ok(Val::Bool(false))
        } else if t == ("null")@ {
            Ok(Val::Null)
        } else if t.len() >= 2 && t[0] == '"' && t.last() == '"' {
            Ok(Val::Str(t.subrange(1, t.len() - 1)))
        } else if t.len() >= 2 && t[0] == '(' && t.last() == ')' {
            match tokenize_spec(t.subrange(1, t.len() - 1)) {
                Ok(toks) => match parse_items(toks, 0, Seq::empty()) {
                    Ok(vs) => Ok(Val::Expr(vs)),
                    Err(e) => Err(e),
                },
                Err(e) => Err(e),
            }
        } else if t.len() >= 2 && t[0] == '[' && t.last() == ']' {
            match tokenize_spec(t.subrange(1, t.len() - 1)) {
                Ok(toks) => match parse_items(toks, 0, Seq::empty()) {
                    Ok(vs) => Ok(Val::List(vs)),
                    Err(e) => Err(e),
                },
                Err(e) => Err(e),
            }
        } else if t.len() >= 1 && t[0] == '\'' {
            Ok(Val::Symbol(t.drop_first()))
        } else {
            Ok(Val::Symbol(t))
        },
    }
}

/// The values of the tokens from position `i` on, appended to an
/// accumulator; the first failing token's error wins.
pub open spec fn parse_items(toks: Seq<Seq<char>>, i: int, acc: Seq<Val>) -> Result<Seq<Val>, ErrV>
    decreases toks_weight(toks, i),
    via parse_items_dec
{
    if i < 0 || i >= toks.len() {
        Ok(acc)
    } else {
        match parse_spec(toks[i]) {
            Ok(v) => parse_items(toks, i + 1, acc.push(v)),
            Err(e) => Err(e),
        }
    }
}

#[via_fn]
proof fn parse_spec_dec(token: Seq<char>) {
    let t = trim_spec(token);
    lemma_trim_len(token);
    if t.len() >= 2 {
        let interior = t.subrange(1, t.len() - 1);
        lemma_tokenize_weight(interior);
        match tokenize_spec(interior) {
            Ok(toks) => {
                lemma_weight_nonneg(toks, 0);
            },
            Err(_) => {},
        }
    }
}

#[via_fn]
proof fn parse_items_dec(toks: Seq<Seq<char>>, i: int, acc: Seq<Val>) {
    if 0 <= i < toks.len() {
        lemma_weight_nonneg(toks, i + 1);
    }
}

/// Parses one token into a value, re-tokenizing and parsing recursively for
/// nested parenthesized and bracketed forms.
pub fn parse(token: String) -> (r: Result<Type, LazoError>)
    ensures
        match r {
            Ok(t) => parse_spec(token@) == Ok::<Val, ErrV>(t@),
            Err(e) => parse_spec(token@) == Err::<Val, ErrV>(e@),
        },
    decreases token@.len(), 0int,
{
    let t: String = trim(token.as_str());
    let ts = t.as_str();
    let n = ts.unicode_len();
    proof {
        lemma_trim_len(token@);
    }
    if let Some(num) = parse_i64(ts) {
        return Ok(Type::Number(num));
    }
    let word_true = String::from_str("true");
    if t.eq(&word_true) {
        return Ok(Type::Bool(true));
    }
    let word_false = String::from_str("false");
    if t.eq(&word_false) {
        return Ok(Type::Bool(false));
    }
    let word_null = String::from_str("null");
    if t.eq(&word_null) {
        return Ok(Type::Null);
    }
    if n >= 2 && ts.get_char(0) == '"' && ts.get_char(n - 1) == '"' {
        let mid = ts.substring_char(1, n - 1);
        return Ok(Type::Str(String::from_str(mid)));
    }
    if n >= 2 && ts.get_char(0) == '(' && ts.get_char(n - 1) == ')' {
        let mid = ts.substring_char(1, n - 1);
        match parse_all(mid) {
            Ok(items) => {
                return Ok(Type::Expr(items));
            },
            Err(e) => {
                return Err(e);
            },
        }
    }
    if n >= 2 && ts.get_char(0) == '[' && ts.get_char(n - 1) == ']' {
        let mid = ts.substring_char(1, n - 1);
        match parse_all(mid) {
            Ok(items) => {
                return Ok(Type::List(items));
            },
            Err(e) => {
                return Err(e);
            },
        }
    }
    if n >= 1 && ts.get_char(0) == '\'' {
        let rest = ts.substring_char(1, n);
        proof {
            assert(ts@.subrange(1, n as int) =~= t@.drop_first());
        }
        return Ok(Type::Symbol(String::from_str(rest)));
    }
    Ok(Type::Symbol(t))
}

/// Tokenizes interior text and parses each token in order.
fn parse_all(interior: &str) -> (r: Result<Vec<Type>, LazoError>)
    ensures
        match r {
            Ok(items) => ({
                &&& tokenize_spec(interior@) is Ok
                &&& parse_items(tokenize_spec(interior@)->Ok_0, 0, Seq::empty()) == Ok::<
                    Seq<Val>,
                    ErrV,
                >(vals_of(items@))
            }),
            Err(e) => tokenize_spec(interior@) == Err::<Seq<Seq<char>>, ErrV>(e@) || (
            tokenize_spec(interior@) is Ok && parse_items(
                tokenize_spec(interior@)->Ok_0,
                0,
                Seq::empty(),
            ) == Err::<Seq<Val>, ErrV>(e@)),
        },
    decreases interior@.len(), 1int,
{
    let ghost iv = interior@;
    let subtoks = match tokenize(String::from_str(interior)) {
        Ok(sv) => sv,
        Err(e) => {
            return Err(e);
        },
    };
    let ghost toks = tokens_view(subtoks@);
    proof {
        lemma_tokenize_lens(iv);
    }
    let mut items: Vec<Type> = Vec::new();
    let mut i: usize = 0;
    while i < subtoks.len()
        invariant
            0 <= i <= subtoks@.len(),
            iv == interior@,
            toks == tokens_view(subtoks@),
            tokenize_spec(iv) == Ok::<Seq<Seq<char>>, ErrV>(toks),
            forall|k: int| 0 <= k < toks.len() ==> (#[trigger] toks[k]).len() <= iv.len(),
            parse_items(toks, 0, Seq::empty()) == parse_items(toks, i as int, vals_of(items@)),
        decreases subtoks@.len() - i,
    {
        let ghost acc = vals_of(items@);
        let ghost prev = items@;
        let piece = subtoks[i].clone();
        proof {
            assert(piece@ == toks[i as int]);
            assert(toks[i as int].len() <= iv.len());
            assert(piece@.len() <= interior@.len());
        }
        match parse(piece) {
            Ok(v) => {
                items.push(v);
                proof {
                    lemma_vals_of(prev);
                    lemma_vals_of(items@);
                    assert(vals_of(items@) =~= acc.push(v@));
                }
            },
            Err(e) => {
                proof {
                    assert(parse_items(toks, i as int, acc) == Err::<Seq<Val>, ErrV>(e@));
                    assert(parse_items(toks, 0, Seq::empty()) == Err::<Seq<Val>, ErrV>(e@));
                }
                return Err(e);
            },
        }
        i += 1;
    }
    Ok(items)
}

} // verus!
