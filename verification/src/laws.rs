use vstd::prelude::*;
use crate::errors::ErrV;
use crate::eval::{apply_builtin_spec, eval_spec};
use crate::text::{all_digits, dec_str, digit_char, digit_val, digits_val, is_digit, is_ws,
    ltrim_spec, parse_i64_spec, parse_int_spec, render_int_spec, rtrim_spec, trim_spec};
use crate::lexer::{lex_init, lex_run, lex_step, tokenize_spec, LexState};
use crate::parser::{parse_items, parse_spec};
use crate::value::{get_bool_spec, get_list_spec, get_number_spec, get_string_spec, join_sp,
    render_spec, Builtin, Val};

verus! {

/// The scan over a whole character run.
pub open spec fn run_str(st: LexState, cs: Seq<char>) -> Result<LexState, ErrV> {
    lex_run(st, cs, 0)
}

/// A character with no lexical role: not whitespace, not a delimiter, not
/// a quote.
pub open spec fn plain_char(c: char) -> bool {
    !is_ws(c) && c != '(' && c != ')' && c != '[' && c != ']' && c != '"'
}

/// A value whose canonical rendering reads back as the same value: numbers
/// within the scalar's range, booleans, null, strings free of the quote
/// character, symbols whose text no literal form claims and that hold no
/// delimiter, and expressions or lists of such values. Functions are
/// excluded: their rendering is a lambda form, which reads back as a
/// pending call.
pub open spec fn re_readable(v: Val) -> bool
    decreases v, 0int,
{
    match v {
        Val::Number(n) => i64::MIN as int <= n <= i64::MAX as int,
        Val::Bool(_) => true,
        Val::Null => true,
        Val::Str(s) => forall|i: int| 0 <= i < s.len() ==> s[i] != '"',
        Val::Symbol(s) => s.len() > 0 && parse_i64_spec(s) is None && s != ("true")@ && s != (
        "false")@ && s != ("null")@ && s[0] != '\'' && forall|i: int|
            0 <= i < s.len() ==> !is_ws(#[trigger] s[i]) && s[i] != '(' && s[i] != ')' && s[i]
                != '[' && s[i] != ']' && s[i] != '"',
        Val::Expr(items) => all_re_readable(items, 0),
        Val::List(items) => all_re_readable(items, 0),
        Val::Builtin(_) => false,
        Val::Closure(_, _) => false,
    }
}

/// Every item from position `i` on is re-readable.
pub open spec fn all_re_readable(items: Seq<Val>, i: int) -> bool
    decreases items, items.len() - i,
{
    if i < 0 || i >= items.len() {
        true
    } else {
        re_readable(items[i]) && all_re_readable(items, i + 1)
    }
}

/// Arity law: applying a user-defined function to the wrong number of
/// arguments always yields the arity error carrying the supplied and the
/// declared count, and leaves the caller's scope exactly as the head's
/// evaluation left it. The body never runs: the outcome does not depend on
/// it.
pub proof fn lemma_arity_error(
    es: Seq<Val>,
    s: Map<Seq<char>, Val>,
    fuel: nat,
    params: Seq<Val>,
    body: Seq<Val>,
    s1: Map<Seq<char>, Val>,
)
    requires
        fuel >= 1,
        es.len() >= 1,
        eval_spec(es[0], s, (fuel - 1) as nat) == (
            Ok::<Val, ErrV>(Val::Closure(params, body)),
            s1,
        ),
        params.len() != es.len() - 1,
    ensures
        eval_spec(Val::Expr(es), s, fuel) == (
            Err::<Val, ErrV>(ErrV::Function(es.len() - 1 as int, params.len() as int)),
            s1,
        ),
{
}

/// Scope isolation: when a user-defined call completes, the caller's scope
/// is exactly what the head's evaluation left, whatever names the body
/// bound in its own copy.
pub proof fn lemma_scope_isolation(
    es: Seq<Val>,
    s: Map<Seq<char>, Val>,
    fuel: nat,
    params: Seq<Val>,
    body: Seq<Val>,
    s1: Map<Seq<char>, Val>,
)
    requires
        fuel >= 1,
        es.len() >= 1,
        eval_spec(es[0], s, (fuel - 1) as nat) == (
            Ok::<Val, ErrV>(Val::Closure(params, body)),
            s1,
        ),
        params.len() == es.len() - 1,
    ensures
        eval_spec(Val::Expr(es), s, fuel).1 == s1,
{
}

/// Unevaluated-argument law: when the conditional's test evaluates falsy,
/// the outcome is exactly the third argument's evaluation. The second
/// argument stands in the statement as an arbitrary value that the
/// conclusion does not mention: the untaken branch is never evaluated, so
/// an error expression there cannot raise.
pub proof fn lemma_if_false_skips_branch(
    c: Val,
    untaken: Val,
    taken: Val,
    s: Map<Seq<char>, Val>,
    sub: nat,
    cv: Val,
    s1: Map<Seq<char>, Val>,
)
    requires
        eval_spec(c, s, sub) == (Ok::<Val, ErrV>(cv), s1),
        !get_bool_spec(cv),
    ensures
        apply_builtin_spec(Builtin::If, seq![c, untaken, taken], s, sub) == eval_spec(
            taken,
            s1,
            sub,
        ),
{
    assert(seq![c, untaken, taken].len() == 3);
    assert(seq![c, untaken, taken][0] == c);
    assert(seq![c, untaken, taken][2] == taken);
}

/// The mirror image: a truthy test selects exactly the second argument,
/// and the third is never evaluated.
pub proof fn lemma_if_true_takes_branch(
    c: Val,
    taken: Val,
    untaken: Val,
    s: Map<Seq<char>, Val>,
    sub: nat,
    cv: Val,
    s1: Map<Seq<char>, Val>,
)
    requires
        eval_spec(c, s, sub) == (Ok::<Val, ErrV>(cv), s1),
        get_bool_spec(cv),
    ensures
        apply_builtin_spec(Builtin::If, seq![c, taken, untaken], s, sub) == eval_spec(
            taken,
            s1,
            sub,
        ),
{
    assert(seq![c, taken, untaken].len() == 3);
    assert(seq![c, taken, untaken][0] == c);
    assert(seq![c, taken, untaken][1] == taken);
}

/// Coercion totality: each of the four coercions assigns a result to every
/// one of the value model's variants — none can fail or leave a case out.
pub proof fn lemma_coercion_totality(v: Val)
    ensures
        match v {
            Val::Number(n) => get_number_spec(v) == n && get_bool_spec(v) == (n != 0),
            Val::Bool(b) => get_number_spec(v) == (if b {
                1int
            } else {
                0int
            }) && get_bool_spec(v) == b,
            Val::Str(t) => get_string_spec(v) == t && get_bool_spec(v) == (t.len() > 0),
            Val::Symbol(t) => get_string_spec(v) == t && get_bool_spec(v) == (t.len() > 0),
            Val::Expr(items) => get_list_spec(v) == items && get_bool_spec(v) == (items.len() > 0),
            Val::List(items) => get_list_spec(v) == items && get_bool_spec(v) == (items.len() > 0),
            Val::Builtin(_) => get_number_spec(v) == 0 && !get_bool_spec(v),
            Val::Closure(_, _) => get_number_spec(v) == 0 && !get_bool_spec(v),
            Val::Null => get_number_spec(v) == 0 && !get_bool_spec(v),
        },
        get_string_spec(v) == (match v {
            Val::Str(t) => t,
            _ => render_spec(v),
        }),
        get_list_spec(v).len() >= 1 || v is Expr || v is List,
{
}

proof fn lemma_dec_str_digits(m: int)
    requires
        m >= 0,
    ensures
        all_digits(dec_str(m)),
        dec_str(m).len() >= 1,
        digits_val(dec_str(m)) == m,
    decreases m,
{
    if m < 10 {
        let s = dec_str(m);
        assert(s == seq![digit_char(m)]);
        assert forall|i: int| 0 <= i < s.len() implies is_digit(#[trigger] s[i]) by {
            assert(s[i] == digit_char(m));
        }
        assert(s.drop_last() =~= Seq::<char>::empty());
        assert(digits_val(s) == digits_val(Seq::<char>::empty()) * 10 + digit_val(digit_char(m)));
    } else {
        lemma_dec_str_digits(m / 10);
        let p = dec_str(m / 10);
        let s = dec_str(m);
        assert(s == p.push(digit_char(m % 10)));
        assert forall|i: int| 0 <= i < s.len() implies is_digit(#[trigger] s[i]) by {
            if i < p.len() {
                assert(s[i] == p[i]);
                assert(is_digit(p[i]));
            } else {
                assert(s[i] == digit_char(m % 10));
            }
        }
        assert(s.drop_last() =~= p);
        assert(s.last() == digit_char(m % 10));
        assert(digit_val(digit_char(m % 10)) == m % 10);
        assert(digits_val(s) == digits_val(p) * 10 + m % 10);
        assert(m == (m / 10) * 10 + m % 10) by (nonlinear_arith)
            requires
                m >= 10,
        ;
    }
}

proof fn lemma_parse_render_int(n: int)
    requires
        i64::MIN as int <= n <= i64::MAX as int,
    ensures
        parse_i64_spec(render_int_spec(n)) == Some(n as i64),
        render_int_spec(n).len() >= 1,
        !is_ws(render_int_spec(n)[0]),
        !is_ws(render_int_spec(n).last()),
        render_int_spec(n)[0] != '\'' && render_int_spec(n)[0] != '(' && render_int_spec(n)[0]
            != '[' && render_int_spec(n)[0] != '"',
{
    if n >= 0 {
        lemma_dec_str_digits(n);
        let s = dec_str(n);
        assert(is_digit(s[0]));
        assert(is_digit(s.last()));
        assert(parse_int_spec(s) == Some(n));
    } else {
        lemma_dec_str_digits(-n);
        let s = render_int_spec(n);
        assert(s == seq!['-'] + dec_str(-n));
        let rest = s.subrange(1, s.len() as int);
        assert(rest =~= dec_str(-n));
        assert(is_digit(s.last()));
        assert(parse_int_spec(s) == Some(n));
    }
}

proof fn lemma_trim_noop(s: Seq<char>)
    requires
        s.len() >= 1,
        !is_ws(s[0]),
        !is_ws(s.last()),
    ensures
        trim_spec(s) == s,
{
    assert(ltrim_spec(s) == s);
    assert(rtrim_spec(s) == s);
}

proof fn lemma_join_extract(items: Seq<Val>, i: int, acc: Seq<char>)
    ensures
        join_sp(items, i, acc) == acc + join_sp(items, i, Seq::empty()),
    decreases items.len() - i,
{
    if i < 0 || i >= items.len() {
        assert(acc + Seq::<char>::empty() =~= acc);
    } else if i == 0 {
        let r0 = render_spec(items[0]);
        lemma_join_extract(items, 1, acc + r0);
        lemma_join_extract(items, 1, Seq::<char>::empty() + r0);
        assert(Seq::<char>::empty() + r0 =~= r0);
        assert((acc + r0) + join_sp(items, 1, Seq::empty()) =~= acc + (r0 + join_sp(
            items,
            1,
            Seq::empty(),
        )));
    } else {
        let piece = seq![' '] + render_spec(items[i]);
        lemma_join_extract(items, i + 1, acc + piece);
        lemma_join_extract(items, i + 1, Seq::<char>::empty() + piece);
        assert(Seq::<char>::empty() + piece =~= piece);
        assert((acc + piece) + join_sp(items, i + 1, Seq::empty()) =~= acc + (piece + join_sp(
            items,
            i + 1,
            Seq::empty(),
        )));
        assert(acc + seq![' '] + render_spec(items[i]) =~= acc + piece);
        assert(Seq::<char>::empty() + seq![' '] + render_spec(items[i]) =~= piece);
    }
}

proof fn lemma_run_shift(st: LexState, s: Seq<char>, i: int)
    requires
        0 <= i <= s.len(),
    ensures
        lex_run(st, s, i) == run_str(st, s.skip(i)),
    decreases s.len() - i,
{
    if i >= s.len() {
        assert(s.skip(i).len() == 0);
    } else {
        assert(s.skip(i)[0] == s[i]);
        match lex_step(st, s[i]) {
            Ok(st2) => {
                lemma_run_shift(st2, s, i + 1);
                lemma_run_shift(st2, s.skip(i), 1);
                assert(s.skip(i).skip(1) =~= s.skip(i + 1));
            },
            Err(_) => {},
        }
    }
}

proof fn lemma_run_concat(st: LexState, a: Seq<char>, b: Seq<char>)
    ensures
        run_str(st, a + b) == (match run_str(st, a) {
            Ok(st2) => run_str(st2, b),
            Err(e) => Err(e),
        }),
    decreases a.len(),
{
    if a.len() == 0 {
        assert(a + b =~= b);
    } else {
        assert((a + b)[0] == a[0]);
        assert((a + b).len() > 0);
        match lex_step(st, a[0]) {
            Ok(st2) => {
                lemma_run_shift(st2, a + b, 1);
                assert((a + b).skip(1) =~= a.drop_first() + b);
                lemma_run_concat(st2, a.drop_first(), b);
                lemma_run_shift(st2, a, 1);
                assert(a.skip(1) =~= a.drop_first());
            },
            Err(_) => {},
        }
    }
}

proof fn lemma_run_plain(st: LexState, cs: Seq<char>)
    requires
        !st.quote,
        forall|i: int| 0 <= i < cs.len() ==> plain_char(#[trigger] cs[i]),
    ensures
        run_str(st, cs) == Ok::<LexState, ErrV>(
            LexState { tokens: st.tokens, cur: st.cur + cs, depth: st.depth, quote: false },
        ),
    decreases cs.len(),
{
    if cs.len() == 0 {
        assert(st.cur + cs =~= st.cur);
    } else {
        assert(plain_char(cs[0]));
        let st2 = LexState {
            tokens: st.tokens,
            cur: st.cur.push(cs[0]),
            depth: st.depth,
            quote: false,
        };
        assert(lex_step(st, cs[0]) == Ok::<LexState, ErrV>(st2));
        lemma_run_shift(st2, cs, 1);
        assert(cs.skip(1) =~= cs.drop_first());
        lemma_run_plain(st2, cs.drop_first());
        assert(st2.cur + cs.drop_first() =~= st.cur + cs);
    }
}

proof fn lemma_run_inquote(st: LexState, cs: Seq<char>)
    requires
        st.quote,
        forall|i: int| 0 <= i < cs.len() ==> #[trigger] cs[i] != '"',
    ensures
        run_str(st, cs) == Ok::<LexState, ErrV>(
            LexState { tokens: st.tokens, cur: st.cur + cs, depth: st.depth, quote: true },
        ),
    decreases cs.len(),
{
    if cs.len() == 0 {
        assert(st.cur + cs =~= st.cur);
    } else {
        assert(cs[0] != '"');
        let st2 = LexState {
            tokens: st.tokens,
            cur: st.cur.push(cs[0]),
            depth: st.depth,
            quote: true,
        };
        assert(lex_step(st, cs[0]) == Ok::<LexState, ErrV>(st2));
        lemma_run_shift(st2, cs, 1);
        assert(cs.skip(1) =~= cs.drop_first());
        lemma_run_inquote(st2, cs.drop_first());
        assert(st2.cur + cs.drop_first() =~= st.cur + cs);
    }
}

proof fn lemma_render_nonempty(v: Val)
    requires
        re_readable(v),
    ensures
        render_spec(v).len() >= 1,
{
    match v {
        Val::Number(n) => {
            lemma_parse_render_int(n);
        },
        Val::Bool(b) => {
            reveal_strlit("true");
            reveal_strlit("false");
        },
        Val::Null => {
            reveal_strlit("null");
        },
        Val::Str(_) => {
            reveal_strlit("\"");
        },
        Val::Symbol(_) => {},
        Val::Expr(_) => {
            reveal_strlit(")");
        },
        Val::List(_) => {
            reveal_strlit("]");
        },
        _ => {},
    }
}

proof fn lemma_run_atom(v: Val, st: LexState)
    requires
        re_readable(v),
        !st.quote,
        st.depth >= 0,
    ensures
        run_str(st, render_spec(v)) == Ok::<LexState, ErrV>(
            LexState {
                tokens: st.tokens,
                cur: st.cur + render_spec(v),
                depth: st.depth,
                quote: false,
            },
        ),
    decreases v, 0int,
{
    match v {
        Val::Number(n) => {
            lemma_parse_render_int(n);
            let s = render_spec(v);
            if n >= 0 {
                lemma_dec_str_digits(n);
                assert forall|i: int| 0 <= i < s.len() implies plain_char(#[trigger] s[i]) by {
                    assert(is_digit(s[i]));
                }
            } else {
                lemma_dec_str_digits(-n);
                assert forall|i: int| 0 <= i < s.len() implies plain_char(#[trigger] s[i]) by {
                    if i == 0 {
                        assert(s[0] == '-');
                    } else {
                        assert(s[i] == dec_str(-n)[i - 1]);
                        assert(is_digit(dec_str(-n)[i - 1]));
                    }
                }
            }
            lemma_run_plain(st, s);
        },
        Val::Bool(b) => {
            reveal_strlit("true");
            reveal_strlit("false");
            let s = render_spec(v);
            if b {
                assert(s =~= seq!['t', 'r', 'u', 'e']);
            } else {
                assert(s =~= seq!['f', 'a', 'l', 's', 'e']);
            }
            assert forall|i: int| 0 <= i < s.len() implies plain_char(#[trigger] s[i]) by {}
            lemma_run_plain(st, s);
        },
        Val::Null => {
            reveal_strlit("null");
            let s = render_spec(v);
            assert(s =~= seq!['n', 'u', 'l', 'l']);
            assert forall|i: int| 0 <= i < s.len() implies plain_char(#[trigger] s[i]) by {}
            lemma_run_plain(st, s);
        },
        Val::Symbol(t) => {
            assert forall|i: int| 0 <= i < t.len() implies plain_char(#[trigger] t[i]) by {
                assert(!is_ws(t[i]));
            }
            lemma_run_plain(st, t);
        },
        Val::Str(t) => {
            reveal_strlit("\"");
            let q = ("\"")@;
            assert(q =~= seq!['"']);
            let s = render_spec(v);
            assert(s == q + t + q);
            lemma_run_concat(st, q + t, q);
            lemma_run_concat(st, q, t);
            let st1 = LexState {
                tokens: st.tokens,
                cur: st.cur.push('"'),
                depth: st.depth,
                quote: true,
            };
            assert(lex_step(st, q[0]) == Ok::<LexState, ErrV>(st1));
            assert(run_str(st, q) == Ok::<LexState, ErrV>(st1)) by {
                lemma_run_shift(st1, q, 1);
                assert(q.skip(1).len() == 0);
            }
            lemma_run_inquote(st1, t);
            let st2 = LexState {
                tokens: st.tokens,
                cur: st1.cur + t,
                depth: st.depth,
                quote: true,
            };
            let st3 = LexState {
                tokens: st.tokens,
                cur: st2.cur.push('"'),
                depth: st.depth,
                quote: false,
            };
            assert(lex_step(st2, q[0]) == Ok::<LexState, ErrV>(st3));
            assert(run_str(st2, q) == Ok::<LexState, ErrV>(st3)) by {
                lemma_run_shift(st3, q, 1);
                assert(q.skip(1).len() == 0);
            }
            assert(st3.cur =~= st.cur + s);
        },
        Val::Expr(items) => {
            reveal_strlit("(");
            reveal_strlit(")");
            let open = ("(")@;
            let close = (")")@;
            assert(open =~= seq!['(']);
            assert(close =~= seq![')']);
            let j0 = join_sp(items, 0, Seq::<char>::empty());
            lemma_join_extract(items, 0, open);
            let s = render_spec(v);
            assert(s == (open + j0) + close);
            lemma_run_concat(st, open + j0, close);
            lemma_run_concat(st, open, j0);
            let st1 = LexState {
                tokens: st.tokens,
                cur: st.cur.push('('),
                depth: st.depth + 1,
                quote: false,
            };
            assert(lex_step(st, open[0]) == Ok::<LexState, ErrV>(st1));
            assert(run_str(st, open) == Ok::<LexState, ErrV>(st1)) by {
                lemma_run_shift(st1, open, 1);
                assert(open.skip(1).len() == 0);
            }
            lemma_run_join_deep(items, 0, st1);
            let st2 = LexState {
                tokens: st.tokens,
                cur: st1.cur + j0,
                depth: st.depth + 1,
                quote: false,
            };
            let st3 = LexState {
                tokens: st.tokens,
                cur: st2.cur.push(')'),
                depth: st.depth,
                quote: false,
            };
            assert(lex_step(st2, close[0]) == Ok::<LexState, ErrV>(st3));
            assert(run_str(st2, close) == Ok::<LexState, ErrV>(st3)) by {
                lemma_run_shift(st3, close, 1);
                assert(close.skip(1).len() == 0);
            }
            assert(st3.cur =~= st.cur + s);
        },
        Val::List(items) => {
            reveal_strlit("[");
            reveal_strlit("]");
            let open = ("[")@;
            let close = ("]")@;
            assert(open =~= seq!['[']);
            assert(close =~= seq![']']);
            let j0 = join_sp(items, 0, Seq::<char>::empty());
            lemma_join_extract(items, 0, open);
            let s = render_spec(v);
            assert(s == (open + j0) + close);
            lemma_run_concat(st, open + j0, close);
            lemma_run_concat(st, open, j0);
            let st1 = LexState {
                tokens: st.tokens,
                cur: st.cur.push('['),
                depth: st.depth + 1,
                quote: false,
            };
            assert(lex_step(st, open[0]) == Ok::<LexState, ErrV>(st1));
            assert(run_str(st, open) == Ok::<LexState, ErrV>(st1)) by {
                lemma_run_shift(st1, open, 1);
                assert(open.skip(1).len() == 0);
            }
            lemma_run_join_deep(items, 0, st1);
            let st2 = LexState {
                tokens: st.tokens,
                cur: st1.cur + j0,
                depth: st.depth + 1,
                quote: false,
            };
            let st3 = LexState {
                tokens: st.tokens,
                cur: st2.cur.push(']'),
                depth: st.depth,
                quote: false,
            };
            assert(lex_step(st2, close[0]) == Ok::<LexState, ErrV>(st3));
            assert(run_str(st2, close) == Ok::<LexState, ErrV>(st3)) by {
                lemma_run_shift(st3, close, 1);
                assert(close.skip(1).len() == 0);
            }
            assert(st3.cur =~= st.cur + s);
        },
        _ => {},
    }
}

proof fn lemma_run_join_deep(items: Seq<Val>, i: int, st: LexState)
    requires
        0 <= i,
        all_re_readable(items, i),
        !st.quote,
        st.depth >= 1,
    ensures
        run_str(st, join_sp(items, i, Seq::empty())) == Ok::<LexState, ErrV>(
            LexState {
                tokens: st.tokens,
                cur: st.cur + join_sp(items, i, Seq::empty()),
                depth: st.depth,
                quote: false,
            },
        ),
    decreases items, items.len() - i,
{
    if i >= items.len() {
        assert(join_sp(items, i, Seq::<char>::empty()).len() == 0);
        assert(st.cur + join_sp(items, i, Seq::<char>::empty()) =~= st.cur);
    } else if i == 0 {
        let r0 = render_spec(items[0]);
        let j1 = join_sp(items, 1, Seq::<char>::empty());
        lemma_join_extract(items, 1, Seq::<char>::empty() + r0);
        assert(Seq::<char>::empty() + r0 =~= r0);
        assert(join_sp(items, 0, Seq::<char>::empty()) =~= r0 + j1);
        lemma_run_concat(st, r0, j1);
        lemma_run_atom(items[0], st);
        let st1 = LexState {
            tokens: st.tokens,
            cur: st.cur + r0,
            depth: st.depth,
            quote: false,
        };
        lemma_run_join_deep(items, 1, st1);
        assert(st1.cur + j1 =~= st.cur + (r0 + j1));
    } else {
        let ri = render_spec(items[i]);
        let j1 = join_sp(items, i + 1, Seq::<char>::empty());
        lemma_join_extract(items, i + 1, Seq::<char>::empty() + seq![' '] + ri);
        assert(Seq::<char>::empty() + seq![' '] + ri =~= seq![' '] + ri);
        assert(join_sp(items, i, Seq::<char>::empty()) =~= (seq![' '] + ri) + j1);
        lemma_run_concat(st, seq![' '] + ri, j1);
        lemma_run_concat(st, seq![' '], ri);
        let stsp = LexState {
            tokens: st.tokens,
            cur: st.cur.push(' '),
            depth: st.depth,
            quote: false,
        };
        assert(lex_step(st, ' ') == Ok::<LexState, ErrV>(stsp));
        assert(run_str(st, seq![' ']) == Ok::<LexState, ErrV>(stsp)) by {
            lemma_run_shift(stsp, seq![' '], 1);
            assert(seq![' '].skip(1).len() == 0);
        }
        lemma_run_atom(items[i], stsp);
        let st1 = LexState {
            tokens: st.tokens,
            cur: stsp.cur + ri,
            depth: st.depth,
            quote: false,
        };
        lemma_run_join_deep(items, i + 1, st1);
        assert(st1.cur + j1 =~= st.cur + ((seq![' '] + ri) + j1));
    }
}

/// The canonical renderings of a run of values, as token strings.
pub open spec fn renders(items: Seq<Val>) -> Seq<Seq<char>> {
    Seq::new(items.len(), |k: int| render_spec(items[k]))
}

proof fn lemma_tokenize_tail(items: Seq<Val>, i: int, st: LexState)
    requires
        1 <= i <= items.len(),
        all_re_readable(items, i),
        !st.quote,
        st.depth == 0,
        st.cur.len() >= 1,
    ensures
        match run_str(st, join_sp(items, i, Seq::empty())) {
            Ok(st2) => st2.depth == 0 && !st2.quote && st2.cur.len() >= 1 && st2.tokens.push(
                st2.cur,
            ) == st.tokens.push(st.cur) + renders(items).skip(i),
            Err(_) => false,
        },
    decreases items.len() - i,
{
    if i == items.len() {
        assert(join_sp(items, i, Seq::<char>::empty()).len() == 0);
        assert(renders(items).skip(i).len() == 0);
        assert(st.tokens.push(st.cur) + renders(items).skip(i) =~= st.tokens.push(st.cur));
    } else {
        let ri = render_spec(items[i]);
        lemma_render_nonempty(items[i]);
        let j1 = join_sp(items, i + 1, Seq::<char>::empty());
        lemma_join_extract(items, i + 1, Seq::<char>::empty() + seq![' '] + ri);
        assert(Seq::<char>::empty() + seq![' '] + ri =~= seq![' '] + ri);
        assert(join_sp(items, i, Seq::<char>::empty()) =~= (seq![' '] + ri) + j1);
        lemma_run_concat(st, seq![' '] + ri, j1);
        lemma_run_concat(st, seq![' '], ri);
        let sta = LexState {
            tokens: st.tokens.push(st.cur),
            cur: Seq::empty(),
            depth: 0,
            quote: false,
        };
        assert(lex_step(st, ' ') == Ok::<LexState, ErrV>(sta));
        assert(run_str(st, seq![' ']) == Ok::<LexState, ErrV>(sta)) by {
            lemma_run_shift(sta, seq![' '], 1);
            assert(seq![' '].skip(1).len() == 0);
        }
        lemma_run_atom(items[i], sta);
        let stb = LexState { tokens: sta.tokens, cur: Seq::empty() + ri, depth: 0, quote: false };
        assert(stb.cur =~= ri);
        lemma_tokenize_tail(items, i + 1, stb);
        match run_str(stb, j1) {
            Ok(st2) => {
                assert(stb.tokens.push(stb.cur) =~= st.tokens.push(st.cur).push(ri));
                assert(renders(items).skip(i) =~= seq![ri] + renders(items).skip(i + 1));
                assert(st.tokens.push(st.cur).push(ri) + renders(items).skip(i + 1)
                    =~= st.tokens.push(st.cur) + renders(items).skip(i));
            },
            Err(_) => {},
        }
    }
}

/// Round-trip law: the canonical rendering of a re-readable value is read
/// back exactly — it tokenizes to a single token, and parsing that token
/// yields a structurally equal value. Function values are excluded, as are
/// symbols and strings whose text collides with the literal syntax; a
/// quoted symbol such as the one written `'true` renders as text that
/// reads back as a boolean.
pub proof fn lemma_render_round_trip(v: Val)
    requires
        re_readable(v),
    ensures
        tokenize_spec(render_spec(v)) == Ok::<Seq<Seq<char>>, ErrV>(seq![render_spec(v)]),
        parse_spec(render_spec(v)) == Ok::<Val, ErrV>(v),
    decreases v, 1int,
{
    reveal_strlit("true");
    reveal_strlit("false");
    reveal_strlit("null");
    reveal_strlit("\"");
    reveal_strlit("(");
    reveal_strlit(")");
    reveal_strlit("[");
    reveal_strlit("]");
    let s = render_spec(v);
    lemma_render_nonempty(v);
    lemma_run_atom(v, lex_init());
    let st2 = LexState {
        tokens: Seq::empty(),
        cur: Seq::<char>::empty() + s,
        depth: 0,
        quote: false,
    };
    assert(st2.cur =~= s);
    assert(run_str(lex_init(), s) == Ok::<LexState, ErrV>(st2));
    assert(st2.cur == s);
    assert(Seq::<Seq<char>>::empty().push(st2.cur) =~= seq![s]);
    assert(tokenize_spec(s) == Ok::<Seq<Seq<char>>, ErrV>(seq![s]));
    match v {
        Val::Number(n) => {
            lemma_parse_render_int(n);
            lemma_trim_noop(s);
        },
        Val::Bool(b) => {
            if b {
                assert(s =~= seq!['t', 'r', 'u', 'e']);
            } else {
                assert(s =~= seq!['f', 'a', 'l', 's', 'e']);
            }
            lemma_trim_noop(s);
            assert(!all_digits(s)) by {
                assert(!is_digit(s[0]));
            }
        },
        Val::Null => {
            assert(s =~= seq!['n', 'u', 'l', 'l']);
            lemma_trim_noop(s);
            assert(!all_digits(s)) by {
                assert(!is_digit(s[0]));
            }
        },
        Val::Str(t) => {
            let q = ("\"")@;
            assert(q =~= seq!['"']);
            assert(s == q + t + q);
            assert(s[0] == '"');
            assert(s.last() == '"');
            lemma_trim_noop(s);
            assert(!all_digits(s)) by {
                assert(!is_digit(s[0]));
            }
            assert(s.subrange(1, s.len() - 1) =~= t);
        },
        Val::Symbol(t) => {
            assert(s == t);
            assert(!is_ws(t[0]));
            assert(!is_ws(t.last()));
            lemma_trim_noop(s);
        },
        Val::Expr(items) => {
            lemma_parse_expr_like(v, items, true);
        },
        Val::List(items) => {
            lemma_parse_expr_like(v, items, false);
        },
        _ => {},
    }
}

proof fn lemma_parse_expr_like(v: Val, items: Seq<Val>, is_expr: bool)
    requires
        re_readable(v),
        is_expr ==> v == Val::Expr(items),
        !is_expr ==> v == Val::List(items),
    ensures
        parse_spec(render_spec(v)) == Ok::<Val, ErrV>(v),
    decreases v, 0int,
{
    reveal_strlit("true");
    reveal_strlit("false");
    reveal_strlit("null");
    reveal_strlit("(");
    reveal_strlit(")");
    reveal_strlit("[");
    reveal_strlit("]");
    let open = if is_expr {
        ("(")@
    } else {
        ("[")@
    };
    let close = if is_expr {
        (")")@
    } else {
        ("]")@
    };
    assert(open.len() == 1 && close.len() == 1);
    let j0 = join_sp(items, 0, Seq::<char>::empty());
    lemma_join_extract(items, 0, open);
    let s = render_spec(v);
    assert(s == (open + j0) + close);
    assert(s[0] == open[0]);
    assert(s.last() == close[0]);
    lemma_trim_noop(s);
    assert(!all_digits(s)) by {
        assert(!is_digit(s[0]));
    }
    assert(s.subrange(1, s.len() - 1) =~= j0);
    if items.len() == 0 {
        assert(j0.len() == 0);
        assert(run_str(lex_init(), j0) == Ok::<LexState, ErrV>(lex_init()));
        assert(tokenize_spec(j0) == Ok::<Seq<Seq<char>>, ErrV>(Seq::empty()));
        assert(parse_items(Seq::<Seq<char>>::empty(), 0, Seq::empty()) == Ok::<Seq<Val>, ErrV>(
            Seq::empty(),
        ));
        assert(items =~= Seq::<Val>::empty());
    } else {
        let r0 = render_spec(items[0]);
        lemma_render_nonempty(items[0]);
        let j1 = join_sp(items, 1, Seq::<char>::empty());
        lemma_join_extract(items, 1, Seq::<char>::empty() + r0);
        assert(Seq::<char>::empty() + r0 =~= r0);
        assert(j0 =~= r0 + j1);
        lemma_run_concat(lex_init(), r0, j1);
        lemma_run_atom(items[0], lex_init());
        let sta = LexState {
            tokens: Seq::empty(),
            cur: Seq::<char>::empty() + r0,
            depth: 0,
            quote: false,
        };
        assert(sta.cur =~= r0);
        if items.len() == 1 {
            assert(j1.len() == 0);
            assert(run_str(sta, j1) == Ok::<LexState, ErrV>(sta));
            assert(Seq::<Seq<char>>::empty().push(sta.cur) =~= renders(items));
            assert(tokenize_spec(j0) == Ok::<Seq<Seq<char>>, ErrV>(renders(items)));
        } else {
            lemma_tokenize_tail(items, 1, sta);
            match run_str(sta, j1) {
                Ok(stz) => {
                    assert(Seq::<Seq<char>>::empty().push(sta.cur) + renders(items).skip(1)
                        =~= renders(items));
                    assert(stz.tokens.push(stz.cur) == renders(items));
                    assert(tokenize_spec(j0) == Ok::<Seq<Seq<char>>, ErrV>(renders(items)));
                },
                Err(_) => {},
            }
        }
        lemma_parse_items_round(items, 0, Seq::empty());
        assert(Seq::<Val>::empty() + items.skip(0) =~= items);
    }
}

proof fn lemma_parse_items_round(items: Seq<Val>, i: int, acc: Seq<Val>)
    requires
        0 <= i <= items.len(),
        all_re_readable(items, i),
    ensures
        parse_items(renders(items), i, acc) == Ok::<Seq<Val>, ErrV>(acc + items.skip(i)),
    decreases items, items.len() - i,
{
    if i == items.len() {
        assert(acc + items.skip(i) =~= acc);
    } else {
        assert(renders(items)[i] == render_spec(items[i]));
        lemma_render_round_trip(items[i]);
        lemma_parse_items_round(items, i + 1, acc.push(items[i]));
        assert(acc.push(items[i]) + items.skip(i + 1) =~= acc + items.skip(i));
    }
}

} // verus!
