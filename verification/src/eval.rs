use vstd::prelude::*;
use crate::errors::{ErrV, LazoError};
use crate::text::push_char;
use crate::scope::Scope;
use crate::value::{get_bool_spec, get_list_spec, get_number_spec, get_string_spec, get_type_spec,
    lemma_vals_of, render_spec, val_of, vals_of, Builtin, Function, Type, Val};

verus! {

/// What one evaluation step yields: a value or an error, and the scope as
/// the step leaves it.
pub type EvalOutcome = (Result<Val, ErrV>, Map<Seq<char>, Val>);

/// The model of an executable evaluation result.
pub open spec fn res_view(r: Result<Type, LazoError>) -> Result<Val, ErrV> {
    match r {
        Ok(t) => Ok(t@),
        Err(e) => Err(e@),
    }
}

/// Symbol substitution without recursive evaluation: a bound symbol becomes
/// its bound value, anything else stays as it is.
pub open spec fn load_spec(v: Val, s: Map<Seq<char>, Val>) -> Val {
    match v {
        Val::Symbol(name) => if s.contains_key(name) {
            s[name]
        } else {
            v
        },
        _ => v,
    }
}

/// The numeric coercions of a run of values.
pub open spec fn nums_of(vals: Seq<Val>) -> Seq<int> {
    Seq::new(vals.len(), |i: int| get_number_spec(vals[i]))
}

/// The canonical renderings of a run of values.
pub open spec fn strs_of(vals: Seq<Val>) -> Seq<Seq<char>> {
    Seq::new(vals.len(), |i: int| render_spec(vals[i]))
}

/// One step of the arithmetic built-ins, on the 64-bit signed scalar with
/// wrap-around; division and remainder by zero yield zero.
pub open spec fn num_op_int(op: Builtin, a: int, b: int) -> int {
    if op == Builtin::Add {
        vstd::wrapping::i64_specs::signed_crop(a + b) as int
    } else if op == Builtin::Sub {
        vstd::wrapping::i64_specs::signed_crop(a - b) as int
    } else if op == Builtin::Mul {
        vstd::wrapping::i64_specs::signed_crop(a * b) as int
    } else if op == Builtin::Div {
        if b == 0 {
            0
        } else {
            let q = div_tr(a, b);
            if q > i64::MAX as int {
                i64::MIN as int
            } else {
                q
            }
        }
    } else if op == Builtin::Rem {
        if b == 0 {
            0
        } else {
            rem_tr(a, b)
        }
    } else {
        0
    }
}

/// Division truncated toward zero.
pub open spec fn div_tr(a: int, b: int) -> int {
    if a == 0 {
        0
    } else if a > 0 && b > 0 {
        a / b
    } else if a < 0 && b < 0 {
        (a * -1) / (b * -1)
    } else if a < 0 {
        ((a * -1) / b) * -1
    } else {
        (a / (b * -1)) * -1
    }
}

/// Remainder with the dividend's sign.
pub open spec fn rem_tr(a: int, b: int) -> int {
    if a == 0 {
        0
    } else if a > 0 && b > 0 {
        a % b
    } else if a < 0 && b < 0 {
        ((a * -1) % (b * -1)) * -1
    } else if a < 0 {
        ((a * -1) % b) * -1
    } else {
        a % (b * -1)
    }
}

/// The left fold of an arithmetic built-in over coerced numbers.
pub open spec fn arith_fold(op: Builtin, ns: Seq<int>, acc: int, i: int) -> int
    decreases ns.len() - i,
{
    if i < 0 || i >= ns.len() {
        acc
    } else {
        arith_fold(op, ns, num_op_int(op, acc, ns[i]), i + 1)
    }
}

/// One comparison step. The less-or-equal form deliberately applies strict
/// less-than across its window pairs.
pub open spec fn cmp_op(op: Builtin, a: int, b: int) -> bool {
    if op == Builtin::Greater {
        a > b
    } else if op == Builtin::GreaterEq {
        a >= b
    } else if op == Builtin::Less {
        a < b
    } else {
        a < b
    }
}

/// Every adjacent pair satisfies the comparison.
pub open spec fn cmp_all(op: Builtin, ns: Seq<int>, i: int) -> bool
    decreases ns.len() - i,
{
    if i < 0 || i + 1 >= ns.len() {
        true
    } else {
        cmp_op(op, ns[i], ns[i + 1]) && cmp_all(op, ns, i + 1)
    }
}

/// Every adjacent pair of renderings is equal (or, when `want` is false,
/// unequal).
pub open spec fn text_all(ss: Seq<Seq<char>>, i: int, want: bool) -> bool
    decreases ss.len() - i,
{
    if i < 0 || i + 1 >= ss.len() {
        true
    } else {
        ((ss[i] == ss[i + 1]) == want) && text_all(ss, i + 1, want)
    }
}

/// Every raw argument coerces to true.
pub open spec fn and_all(vals: Seq<Val>, i: int) -> bool
    decreases vals.len() - i,
{
    if i < 0 || i >= vals.len() {
        true
    } else {
        get_bool_spec(vals[i]) && and_all(vals, i + 1)
    }
}

/// Some raw argument coerces to true.
pub open spec fn or_any(vals: Seq<Val>, i: int) -> bool
    decreases vals.len() - i,
{
    if i < 0 || i >= vals.len() {
        false
    } else {
        get_bool_spec(vals[i]) || or_any(vals, i + 1)
    }
}

/// The integers of a range walk: from `start` up to but excluding `end`,
/// stepping by `step`, stopping at the scalar's upper bound.
pub open spec fn range_acc(start: int, end: int, step: int, acc: Seq<Val>) -> Seq<Val>
    decreases (if start >= end { 0int } else { end - start }),
{
    if step < 1 || start >= end {
        acc
    } else if start + step > i64::MAX as int {
        acc.push(Val::Number(start))
    } else {
        range_acc(start + step, end, step, acc.push(Val::Number(start)))
    }
}

/// Text repeated a number of times.
pub open spec fn repeat_chars(s: Seq<char>, n: int) -> Seq<char>
    decreases n,
{
    if n <= 0 {
        Seq::empty()
    } else {
        repeat_chars(s, n - 1) + s
    }
}

/// The textual coercions of the items, separated by the given text.
pub open spec fn join_vals(items: Seq<Val>, sep: Seq<char>, i: int, acc: Seq<char>) -> Seq<char>
    decreases items.len() - i,
{
    if i < 0 || i >= items.len() {
        acc
    } else if i == 0 {
        join_vals(items, sep, 1, acc + get_string_spec(items[0]))
    } else {
        join_vals(items, sep, i + 1, acc + sep + get_string_spec(items[i]))
    }
}

/// The template with every placeholder pair replaced by the given text,
/// scanning left to right without overlap.
pub open spec fn fmt_replace(s: Seq<char>, r: Seq<char>, i: int, acc: Seq<char>) -> Seq<char>
    decreases s.len() - i,
{
    if i < 0 || i >= s.len() {
        acc
    } else if i + 1 < s.len() && s[i] == '{' && s[i + 1] == '}' {
        fmt_replace(s, r, i + 2, acc + r)
    } else {
        fmt_replace(s, r, i + 1, acc.push(s[i]))
    }
}

/// The pieces of a text split at each occurrence of a non-empty separator,
/// scanning left to right without overlap; the text before the first and
/// after the last occurrence is kept, possibly empty.
pub open spec fn split_pieces(
    s: Seq<char>,
    pat: Seq<char>,
    i: int,
    cur: Seq<char>,
    acc: Seq<Seq<char>>,
) -> Seq<Seq<char>>
    decreases s.len() - i,
{
    if pat.len() < 1 || i < 0 || i > s.len() {
        acc.push(cur)
    } else if i + pat.len() <= s.len() && s.subrange(i, i + pat.len()) == pat {
        split_pieces(s, pat, i + pat.len(), Seq::empty(), acc.push(cur))
    } else if i < s.len() {
        split_pieces(s, pat, i + 1, cur.push(s[i]), acc)
    } else {
        acc.push(cur)
    }
}

/// Splitting at the empty separator: an empty piece, one piece per
/// character, and a final empty piece.
pub open spec fn split_chars(s: Seq<char>, i: int, acc: Seq<Seq<char>>) -> Seq<Seq<char>>
    decreases s.len() - i,
{
    if i < 0 || i >= s.len() {
        acc.push(Seq::empty())
    } else {
        split_chars(s, i + 1, acc.push(seq![s[i]]))
    }
}

/// String values of the given texts.
pub open spec fn strs_to_vals(ss: Seq<Seq<char>>) -> Seq<Val> {
    Seq::new(ss.len(), |k: int| Val::Str(ss[k]))
}

/// The split of a text by a separator, as a value list.
pub open spec fn split_result(text: Seq<char>, pat: Seq<char>) -> Seq<Val> {
    if pat.len() == 0 {
        strs_to_vals(split_chars(text, 0, seq![Seq::<char>::empty()]))
    } else {
        strs_to_vals(split_pieces(text, pat, 0, Seq::empty(), Seq::empty()))
    }
}

/// A value capped at the signed 64-bit maximum.
pub open spec fn cap_i64(n: int) -> int {
    if n > i64::MAX as int {
        i64::MAX as int
    } else {
        n
    }
}

/// The caller-side scope of a user-defined call: a full copy of the calling
/// scope, with each parameter name bound to the corresponding argument's
/// loaded value — symbol substitution in the caller's scope, not recursive
/// evaluation.
pub open spec fn bind_args_spec(
    caller: Map<Seq<char>, Val>,
    acc: Map<Seq<char>, Val>,
    params: Seq<Val>,
    args: Seq<Val>,
    i: int,
) -> Map<Seq<char>, Val>
    decreases params.len() - i,
{
    if i < 0 || i >= params.len() || i >= args.len() {
        acc
    } else {
        bind_args_spec(
            caller,
            acc.insert(get_string_spec(params[i]), load_spec(args[i], caller)),
            params,
            args,
            i + 1,
        )
    }
}

/// The message when a call's head is no function.
pub open spec fn not_callable_msg(head: Val) -> Seq<char> {
    ("first atom in expression should be function, but provided `")@ + render_spec(head) + (
    "` is not function")@
}

/// The message when `cast` names an unknown kind.
pub open spec fn unknown_type_msg(name: Seq<char>) -> Seq<char> {
    ("unknown type name `")@ + name + ("`")@
}

/// Full evaluation. A bound symbol is substituted first; an expression then
/// applies its evaluated head to the raw, unevaluated argument expressions;
/// every other value evaluates to itself. The fuel bounds the call depth;
/// exhausting it is a runtime error.
pub open spec fn eval_spec(v: Val, s: Map<Seq<char>, Val>, fuel: nat) -> EvalOutcome
    decreases fuel, 0int, 0int,
{
    if fuel == 0 {
        (Err(ErrV::Runtime(("recursion limit reached")@)), s)
    } else {
        let sub = (fuel - 1) as nat;
        let lv = load_spec(v, s);
        match lv {
            Val::Expr(es) => {
                if es.len() == 0 {
                    (Err(ErrV::Syntax(("empty expression can't be evaluated")@)), s)
                } else {
                    match eval_spec(es[0], s, sub) {
                        (Ok(f), s1) => match f {
                            Val::Builtin(b) => apply_builtin_spec(b, es.drop_first(), s1, sub),
                            Val::Closure(params, body) => if params.len() != es.len() - 1 {
                                (
                                    Err(
                                        ErrV::Function(es.len() - 1 as int, params.len() as int),
                                    ),
                                    s1,
                                )
                            } else {
                                let callee = bind_args_spec(s1, s1, params, es.drop_first(), 0);
                                (eval_body_spec(body, 0, Val::Null, callee, sub).0, s1)
                            },
                            _ => (Err(ErrV::Syntax(not_callable_msg(es[0]))), s1),
                        },
                        (Err(e), s1) => (Err(e), s1),
                    }
                }
            },
            _ => (Ok(lv), s),
        }
    }
}

/// An ordered body: each line evaluates in turn, threading the scope; the
/// result is the last line's value, null for an empty body; the first error
/// stops the run.
pub open spec fn eval_body_spec(
    body: Seq<Val>,
    i: int,
    last: Val,
    s: Map<Seq<char>, Val>,
    sub: nat,
) -> EvalOutcome
    decreases sub, 1int, body.len() - i,
{
    if i < 0 || i >= body.len() {
        (Ok(last), s)
    } else {
        match eval_spec(body[i], s, sub) {
            (Ok(v), s1) => eval_body_spec(body, i + 1, v, s1, sub),
            (Err(e), s1) => (Err(e), s1),
        }
    }
}

/// Arguments evaluated left to right, threading the scope; the first error
/// stops the run.
pub open spec fn eval_args_spec(
    args: Seq<Val>,
    i: int,
    acc: Seq<Val>,
    s: Map<Seq<char>, Val>,
    sub: nat,
) -> (Result<Seq<Val>, ErrV>, Map<Seq<char>, Val>)
    decreases sub, 1int, args.len() - i,
{
    if i < 0 || i >= args.len() {
        (Ok(acc), s)
    } else {
        match eval_spec(args[i], s, sub) {
            (Ok(v), s1) => eval_args_spec(args, i + 1, acc.push(v), s1, sub),
            (Err(e), s1) => (Err(e), s1),
        }
    }
}

/// The concatenation built-in: each argument evaluates in turn and its
/// textual coercion is appended.
pub open spec fn concat_loop_spec(
    args: Seq<Val>,
    i: int,
    acc: Seq<char>,
    s: Map<Seq<char>, Val>,
    sub: nat,
) -> EvalOutcome
    decreases sub, 1int, args.len() - i,
{
    if i < 0 || i >= args.len() {
        (Ok(Val::Str(acc)), s)
    } else {
        match eval_spec(args[i], s, sub) {
            (Ok(v), s1) => concat_loop_spec(args, i + 1, acc + get_string_spec(v), s1, sub),
            (Err(e), s1) => (Err(e), s1),
        }
    }
}

/// The conditional chain: each clause's condition evaluates in turn; the
/// first truthy one selects its clause's result expression; no truthy
/// condition yields null. A clause without a condition or without a result
/// is a syntax error.
pub open spec fn cond_loop_spec(args: Seq<Val>, i: int, s: Map<Seq<char>, Val>, sub: nat) -> EvalOutcome
    decreases sub, 1int, args.len() - i,
{
    if i < 0 || i >= args.len() {
        (Ok(Val::Null), s)
    } else {
        let cl = get_list_spec(args[i]);
        if cl.len() == 0 {
            (Err(ErrV::Syntax(("cond clause is empty")@)), s)
        } else {
            match eval_spec(cl[0], s, sub) {
                (Ok(c), s1) => if get_bool_spec(c) {
                    if cl.len() < 2 {
                        (Err(ErrV::Syntax(("cond clause has no result")@)), s1)
                    } else {
                        eval_spec(cl[1], s1, sub)
                    }
                } else {
                    cond_loop_spec(args, i + 1, s1, sub)
                },
                (Err(e), s1) => (Err(e), s1),
            }
        }
    }
}

/// The mapping loop: the callable applies to each element in turn, and the
/// results collect into a list.
pub open spec fn map_loop_spec(
    f: Val,
    items: Seq<Val>,
    i: int,
    acc: Seq<Val>,
    s: Map<Seq<char>, Val>,
    sub: nat,
) -> EvalOutcome
    decreases sub, 1int, items.len() - i,
{
    if i < 0 || i >= items.len() {
        (Ok(Val::List(acc)), s)
    } else {
        match eval_spec(Val::Expr(seq![f, items[i]]), s, sub) {
            (Ok(v), s1) => map_loop_spec(f, items, i + 1, acc.push(v), s1, sub),
            (Err(e), s1) => (Err(e), s1),
        }
    }
}

/// The iteration loop: the callable applies to each element for its effect;
/// the result is null.
pub open spec fn for_loop_spec(
    f: Val,
    items: Seq<Val>,
    i: int,
    s: Map<Seq<char>, Val>,
    sub: nat,
) -> EvalOutcome
    decreases sub, 1int, items.len() - i,
{
    if i < 0 || i >= items.len() {
        (Ok(Val::Null), s)
    } else {
        match eval_spec(Val::Expr(seq![f, items[i]]), s, sub) {
            (Ok(_), s1) => for_loop_spec(f, items, i + 1, s1, sub),
            (Err(e), s1) => (Err(e), s1),
        }
    }
}

/// The filtering loop: elements whose test evaluates truthy are kept, in
/// order.
pub open spec fn filter_loop_spec(
    f: Val,
    items: Seq<Val>,
    i: int,
    acc: Seq<Val>,
    s: Map<Seq<char>, Val>,
    sub: nat,
) -> EvalOutcome
    decreases sub, 1int, items.len() - i,
{
    if i < 0 || i >= items.len() {
        (Ok(Val::List(acc)), s)
    } else {
        match eval_spec(Val::Expr(seq![f, items[i]]), s, sub) {
            (Ok(c), s1) => filter_loop_spec(
                f,
                items,
                i + 1,
                if get_bool_spec(c) {
                    acc.push(items[i])
                } else {
                    acc
                },
                s1,
                sub,
            ),
            (Err(e), s1) => (Err(e), s1),
        }
    }
}

/// The reduction loop: folds the callable over the list from the left,
/// inside a copy of the scope whose mutations the caller never sees.
pub open spec fn reduce_loop_spec(
    f: Val,
    items: Seq<Val>,
    i: int,
    acc: Val,
    s: Map<Seq<char>, Val>,
    sub: nat,
) -> Result<Val, ErrV>
    decreases sub, 1int, items.len() - i,
{
    if i < 0 || i >= items.len() {
        Ok(acc)
    } else {
        match eval_spec(Val::Expr(seq![f, acc, items[i]]), s, sub) {
            (Ok(v), s1) => reduce_loop_spec(f, items, i + 1, v, s1, sub),
            (Err(e), _) => Err(e),
        }
    }
}

/// A native operation applied to its raw, unevaluated arguments. Each one
/// decides internally which arguments to evaluate and in what order; this
/// is how the conditional, binding and iteration forms control evaluation
/// timing.
pub open spec fn apply_builtin_spec(
    b: Builtin,
    args: Seq<Val>,
    s: Map<Seq<char>, Val>,
    sub: nat,
) -> EvalOutcome
    decreases sub, 2int, 0int,
{
    match b {
        Builtin::Add | Builtin::Mul | Builtin::Div => {
            match eval_args_spec(args, 0, Seq::empty(), s, sub) {
                (Ok(vs), s1) => if args.len() >= 1 {
                    let ns = nums_of(vs);
                    (Ok(Val::Number(arith_fold(b, ns, ns[0], 1))), s1)
                } else {
                    (Err(ErrV::Function(args.len() as int, 2)), s1)
                },
                (Err(e), s1) => (Err(e), s1),
            }
        },
        Builtin::Rem => {
            if args.len() >= 1 {
                match eval_args_spec(args, 0, Seq::empty(), s, sub) {
                    (Ok(vs), s1) => {
                        let ns = nums_of(vs);
                        (Ok(Val::Number(arith_fold(b, ns, ns[0], 1))), s1)
                    },
                    (Err(e), s1) => (Err(e), s1),
                }
            } else {
                (Err(ErrV::Function(args.len() as int, 2)), s)
            }
        },
        Builtin::Sub => {
            if args.len() >= 1 {
                let ns = nums_of(args);
                if args.len() >= 2 {
                    (Ok(Val::Number(arith_fold(b, ns, ns[0], 1))), s)
                } else {
                    (Ok(Val::Number(num_op_int(b, 0, ns[0]))), s)
                }
            } else {
                (Err(ErrV::Function(args.len() as int, 2)), s)
            }
        },
        Builtin::Concat => concat_loop_spec(args, 0, Seq::empty(), s, sub),
        Builtin::Equal | Builtin::NotEqual => {
            if args.len() >= 2 {
                match eval_args_spec(args, 0, Seq::empty(), s, sub) {
                    (Ok(vs), s1) => (
                        Ok(Val::Bool(text_all(strs_of(vs), 0, b == Builtin::Equal))),
                        s1,
                    ),
                    (Err(e), s1) => (Err(e), s1),
                }
            } else {
                (Err(ErrV::Function(args.len() as int, 2)), s)
            }
        },
        Builtin::Greater | Builtin::GreaterEq | Builtin::Less | Builtin::LessEq => {
            if args.len() >= 2 {
                match eval_args_spec(args, 0, Seq::empty(), s, sub) {
                    (Ok(vs), s1) => (Ok(Val::Bool(cmp_all(b, nums_of(vs), 0))), s1),
                    (Err(e), s1) => (Err(e), s1),
                }
            } else {
                (Err(ErrV::Function(args.len() as int, 2)), s)
            }
        },
        Builtin::And => {
            if args.len() >= 2 {
                (Ok(Val::Bool(and_all(args, 0))), s)
            } else {
                (Err(ErrV::Function(args.len() as int, 2)), s)
            }
        },
        Builtin::Or => {
            if args.len() >= 2 {
                (Ok(Val::Bool(or_any(args, 0))), s)
            } else {
                (Err(ErrV::Function(args.len() as int, 2)), s)
            }
        },
        Builtin::Not => {
            if args.len() == 1 {
                (Ok(Val::Bool(!get_bool_spec(args[0]))), s)
            } else {
                (Err(ErrV::Function(args.len() as int, 1)), s)
            }
        },
        Builtin::Cast => {
            if args.len() == 2 {
                let name = get_string_spec(args[1]);
                if name == ("number")@ {
                    (Ok(Val::Number(get_number_spec(args[0]))), s)
                } else if name == ("string")@ {
                    (Ok(Val::Str(get_string_spec(args[0]))), s)
                } else if name == ("bool")@ {
                    (Ok(Val::Bool(get_bool_spec(args[0]))), s)
                } else if name == ("list")@ {
                    (Ok(Val::List(get_list_spec(args[0]))), s)
                } else {
                    (Err(ErrV::Runtime(unknown_type_msg(name))), s)
                }
            } else {
                (Err(ErrV::Function(args.len() as int, 2)), s)
            }
        },
        Builtin::TypeOf => {
            if args.len() == 1 {
                (Ok(Val::Str(get_type_spec(args[0]))), s)
            } else {
                (Err(ErrV::Function(args.len() as int, 1)), s)
            }
        },
        Builtin::EvalSeq => eval_body_spec(args, 0, Val::Null, s, sub),
        Builtin::Define => {
            if args.len() >= 2 {
                match args[0] {
                    Val::List(sig) | Val::Expr(sig) => {
                        if sig.len() == 0 {
                            (Err(ErrV::Syntax(("function definition needs a name")@)), s)
                        } else {
                            let value = Val::Closure(sig.drop_first(), args.drop_first());
                            (Ok(value), s.insert(get_string_spec(sig[0]), value))
                        }
                    },
                    _ => {
                        let value = args[1];
                        (Ok(value), s.insert(get_string_spec(args[0]), value))
                    },
                }
            } else {
                (Err(ErrV::Function(args.len() as int, 2)), s)
            }
        },
        Builtin::Lambda => {
            if args.len() >= 2 {
                (Ok(Val::Closure(get_list_spec(args[0]), args.drop_first())), s)
            } else {
                (Err(ErrV::Function(args.len() as int, 2)), s)
            }
        },
        Builtin::If => {
            if args.len() == 3 {
                match eval_spec(args[0], s, sub) {
                    (Ok(c), s1) => if get_bool_spec(c) {
                        eval_spec(args[1], s1, sub)
                    } else {
                        eval_spec(args[2], s1, sub)
                    },
                    (Err(e), s1) => (Err(e), s1),
                }
            } else if args.len() == 2 {
                match eval_spec(args[0], s, sub) {
                    (Ok(c), s1) => if get_bool_spec(c) {
                        eval_spec(args[1], s1, sub)
                    } else {
                        (Ok(Val::Null), s1)
                    },
                    (Err(e), s1) => (Err(e), s1),
                }
            } else {
                (Err(ErrV::Function(args.len() as int, 3)), s)
            }
        },
        Builtin::Cond => cond_loop_spec(args, 0, s, sub),
        Builtin::TryCatch => {
            if args.len() == 2 {
                match eval_spec(args[0], s, sub) {
                    (Ok(v), s1) => (Ok(v), s1),
                    (Err(_), s1) => eval_spec(args[1], s1, sub),
                }
            } else {
                (Err(ErrV::Function(args.len() as int, 2)), s)
            }
        },
        Builtin::Raise => {
            if args.len() == 0 {
                (Err(ErrV::Runtime(("Something went wrong")@)), s)
            } else {
                match eval_spec(args[0], s, sub) {
                    (Ok(v), s1) => (Err(ErrV::Runtime(get_string_spec(v))), s1),
                    (Err(e), s1) => (Err(e), s1),
                }
            }
        },
        Builtin::Car => {
            if args.len() == 1 {
                match eval_spec(args[0], s, sub) {
                    (Ok(v), s1) => {
                        let l = get_list_spec(v);
                        if l.len() == 0 {
                            (Ok(Val::Null), s1)
                        } else {
                            (Ok(l[0]), s1)
                        }
                    },
                    (Err(e), s1) => (Err(e), s1),
                }
            } else {
                (Err(ErrV::Function(args.len() as int, 1)), s)
            }
        },
        Builtin::Cdr => {
            if args.len() == 1 {
                match eval_spec(args[0], s, sub) {
                    (Ok(v), s1) => {
                        let l = get_list_spec(v);
                        if l.len() == 0 {
                            (Ok(Val::List(Seq::empty())), s1)
                        } else {
                            (Ok(Val::List(l.drop_first())), s1)
                        }
                    },
                    (Err(e), s1) => (Err(e), s1),
                }
            } else {
                (Err(ErrV::Function(args.len() as int, 1)), s)
            }
        },
        Builtin::Len => {
            if args.len() == 1 {
                match eval_spec(args[0], s, sub) {
                    (Ok(v), s1) => (
                        Ok(Val::Number(cap_i64(get_list_spec(v).len() as int))),
                        s1,
                    ),
                    (Err(e), s1) => (Err(e), s1),
                }
            } else {
                (Err(ErrV::Function(args.len() as int, 1)), s)
            }
        },
        Builtin::Reverse => {
            if args.len() == 1 {
                (Ok(Val::List(get_list_spec(args[0]).reverse())), s)
            } else {
                (Err(ErrV::Function(args.len() as int, 1)), s)
            }
        },
        Builtin::RangeList => {
            if args.len() == 1 {
                match eval_spec(args[0], s, sub) {
                    (Ok(v), s1) => (
                        Ok(Val::List(range_acc(0, get_number_spec(v), 1, Seq::empty()))),
                        s1,
                    ),
                    (Err(e), s1) => (Err(e), s1),
                }
            } else if args.len() == 2 {
                match eval_spec(args[0], s, sub) {
                    (Ok(a), s1) => match eval_spec(args[1], s1, sub) {
                        (Ok(e2), s2) => (
                            Ok(
                                Val::List(
                                    range_acc(
                                        get_number_spec(a),
                                        get_number_spec(e2),
                                        1,
                                        Seq::empty(),
                                    ),
                                ),
                            ),
                            s2,
                        ),
                        (Err(e), s2) => (Err(e), s2),
                    },
                    (Err(e), s1) => (Err(e), s1),
                }
            } else if args.len() == 3 {
                match eval_spec(args[0], s, sub) {
                    (Ok(a), s1) => match eval_spec(args[1], s1, sub) {
                        (Ok(e2), s2) => match eval_spec(args[2], s2, sub) {
                            (Ok(st), s3) => if get_number_spec(st) < 1 {
                                (Err(ErrV::Runtime(("range step must be positive")@)), s3)
                            } else {
                                (
                                    Ok(
                                        Val::List(
                                            range_acc(
                                                get_number_spec(a),
                                                get_number_spec(e2),
                                                get_number_spec(st),
                                                Seq::empty(),
                                            ),
                                        ),
                                    ),
                                    s3,
                                )
                            },
                            (Err(e), s3) => (Err(e), s3),
                        },
                        (Err(e), s2) => (Err(e), s2),
                    },
                    (Err(e), s1) => (Err(e), s1),
                }
            } else {
                (Err(ErrV::Function(args.len() as int, 3)), s)
            }
        },
        Builtin::MapList => {
            if args.len() == 2 {
                match eval_spec(args[1], s, sub) {
                    (Ok(f), s1) => match eval_spec(args[0], s1, sub) {
                        (Ok(lst), s2) => map_loop_spec(
                            f,
                            get_list_spec(lst),
                            0,
                            Seq::empty(),
                            s2,
                            sub,
                        ),
                        (Err(e), s2) => (Err(e), s2),
                    },
                    (Err(e), s1) => (Err(e), s1),
                }
            } else {
                (Err(ErrV::Function(args.len() as int, 2)), s)
            }
        },
        Builtin::ForEach => {
            if args.len() == 2 {
                match eval_spec(args[1], s, sub) {
                    (Ok(f), s1) => match eval_spec(args[0], s1, sub) {
                        (Ok(lst), s2) => for_loop_spec(f, get_list_spec(lst), 0, s2, sub),
                        (Err(e), s2) => (Err(e), s2),
                    },
                    (Err(e), s1) => (Err(e), s1),
                }
            } else {
                (Err(ErrV::Function(args.len() as int, 2)), s)
            }
        },
        Builtin::FilterList => {
            if args.len() == 2 {
                match eval_spec(args[1], s, sub) {
                    (Ok(f), s1) => match eval_spec(args[0], s1, sub) {
                        (Ok(lst), s2) => filter_loop_spec(
                            f,
                            get_list_spec(lst),
                            0,
                            Seq::empty(),
                            s2,
                            sub,
                        ),
                        (Err(e), s2) => (Err(e), s2),
                    },
                    (Err(e), s1) => (Err(e), s1),
                }
            } else {
                (Err(ErrV::Function(args.len() as int, 2)), s)
            }
        },
        Builtin::ReduceList => {
            if args.len() == 2 {
                let f = args[1];
                match eval_spec(args[0], s, sub) {
                    (Ok(lst), s1) => {
                        let l = get_list_spec(lst);
                        if l.len() == 0 {
                            (Err(ErrV::Runtime(("passed list is empty")@)), s1)
                        } else {
                            (reduce_loop_spec(f, l, 1, l[0], s1, sub), s1)
                        }
                    },
                    (Err(e), s1) => (Err(e), s1),
                }
            } else {
                (Err(ErrV::Function(args.len() as int, 2)), s)
            }
        },
        Builtin::Repeat => {
            if args.len() == 2 {
                match eval_spec(args[0], s, sub) {
                    (Ok(v), s1) => match eval_spec(args[1], s1, sub) {
                        (Ok(n), s2) => (
                            Ok(
                                Val::Str(
                                    repeat_chars(get_string_spec(v), get_number_spec(n)),
                                ),
                            ),
                            s2,
                        ),
                        (Err(e), s2) => (Err(e), s2),
                    },
                    (Err(e), s1) => (Err(e), s1),
                }
            } else {
                (Err(ErrV::Function(args.len() as int, 2)), s)
            }
        },
        Builtin::FormatStr => {
            if args.len() == 2 {
                match eval_spec(args[1], s, sub) {
                    (Ok(v), s1) => (
                        Ok(
                            Val::Str(
                                fmt_replace(
                                    get_string_spec(args[0]),
                                    get_string_spec(v),
                                    0,
                                    Seq::empty(),
                                ),
                            ),
                        ),
                        s1,
                    ),
                    (Err(e), s1) => (Err(e), s1),
                }
            } else {
                (Err(ErrV::Function(args.len() as int, 2)), s)
            }
        },
        Builtin::Split => {
            if args.len() == 2 {
                match eval_spec(args[0], s, sub) {
                    (Ok(v), s1) => match eval_spec(args[1], s1, sub) {
                        (Ok(p), s2) => (
                            Ok(
                                Val::List(
                                    split_result(get_string_spec(v), get_string_spec(p)),
                                ),
                            ),
                            s2,
                        ),
                        (Err(e), s2) => (Err(e), s2),
                    },
                    (Err(e), s1) => (Err(e), s1),
                }
            } else {
                (Err(ErrV::Function(args.len() as int, 2)), s)
            }
        },
        Builtin::Join => {
            if args.len() == 2 {
                match eval_spec(args[0], s, sub) {
                    (Ok(lst), s1) => match eval_spec(args[1], s1, sub) {
                        (Ok(sep), s2) => (
                            Ok(
                                Val::Str(
                                    join_vals(
                                        get_list_spec(lst),
                                        get_string_spec(sep),
                                        0,
                                        Seq::empty(),
                                    ),
                                ),
                            ),
                            s2,
                        ),
                        (Err(e), s2) => (Err(e), s2),
                    },
                    (Err(e), s1) => (Err(e), s1),
                }
            } else {
                (Err(ErrV::Function(args.len() as int, 2)), s)
            }
        },
    }
}

proof fn lemma_crop_shift(x: int)
    requires
        -0x1_0000_0000_0000_0000 <= x < 0x1_0000_0000_0000_0000,
    ensures
        vstd::wrapping::i64_specs::signed_crop(x) as int == (if x > i64::MAX as int {
            x - 0x1_0000_0000_0000_0000
        } else if x < i64::MIN as int {
            x + 0x1_0000_0000_0000_0000
        } else {
            x
        }),
{
    let r = 0x1_0000_0000_0000_0000int;
    if 0 <= x {
        vstd::arithmetic::div_mod::lemma_small_mod(x as nat, r as nat);
    } else {
        vstd::arithmetic::div_mod::lemma_mod_add_multiples_vanish(x, r);
        vstd::arithmetic::div_mod::lemma_small_mod((x + r) as nat, r as nat);
    }
}

/// One arithmetic step on the 64-bit scalar.
fn num_op_exec(op: Builtin, a: i64, b: i64) -> (r: i64)
    ensures
        r as int == num_op_int(op, a as int, b as int),
{
    match op {
        Builtin::Add => {
            proof {
                lemma_crop_shift(a as int + b as int);
            }
            a.wrapping_add(b)
        },
        Builtin::Sub => {
            proof {
                lemma_crop_shift(a as int - b as int);
            }
            a.wrapping_sub(b)
        },
        Builtin::Mul => a.wrapping_mul(b),
        Builtin::Div => {
            proof {
                let x = a as int;
                let d = b as int;
                if d != 0 {
                    if x > 0 && d > 0 {
                        vstd::arithmetic::div_mod::lemma_div_nonincreasing(x, d);
                        vstd::arithmetic::div_mod::lemma_div_pos_is_pos(x, d);
                    } else if x < 0 && d < 0 {
                        vstd::arithmetic::div_mod::lemma_div_nonincreasing(x * -1, d * -1);
                        vstd::arithmetic::div_mod::lemma_div_pos_is_pos(x * -1, d * -1);
                    } else if x < 0 {
                        vstd::arithmetic::div_mod::lemma_div_nonincreasing(x * -1, d);
                        vstd::arithmetic::div_mod::lemma_div_pos_is_pos(x * -1, d);
                    } else if x > 0 {
                        vstd::arithmetic::div_mod::lemma_div_nonincreasing(x, d * -1);
                        vstd::arithmetic::div_mod::lemma_div_pos_is_pos(x, d * -1);
                    }
                }
            }
            match a.checked_div(b) {
                Some(q) => q,
                None => if b == 0 {
                    0
                } else {
                    i64::MIN
                },
            }
        },
        Builtin::Rem => {
            match a.checked_rem(b) {
                Some(q) => q,
                None => 0,
            }
        },
        _ => 0,
    }
}

/// The mathematical values of a vector of scalars.
pub open spec fn int_seq(ns: Seq<i64>) -> Seq<int> {
    Seq::new(ns.len(), |i: int| ns[i] as int)
}

/// The views of a vector of strings.
pub open spec fn str_seq(ss: Seq<String>) -> Seq<Seq<char>> {
    Seq::new(ss.len(), |i: int| ss[i]@)
}

/// Coerces every element to a number.
fn nums_vec(vs: &Vec<Type>) -> (r: Vec<i64>)
    ensures
        r@.len() == vs@.len(),
        int_seq(r@) == nums_of(vals_of(vs@)),
{
    proof {
        lemma_vals_of(vs@);
    }
    let mut out: Vec<i64> = Vec::new();
    let mut i: usize = 0;
    while i < vs.len()
        invariant
            0 <= i <= vs@.len(),
            out@.len() == i,
            forall|j: int| 0 <= j < vals_of(vs@).len() ==> #[trigger] vals_of(vs@)[j] == vs@[j]@,
            vals_of(vs@).len() == vs@.len(),
            forall|j: int| 0 <= j < i ==> #[trigger] out@[j] as int == get_number_spec(vs@[j]@),
        decreases vs@.len() - i,
    {
        let n = vs[i].get_number();
        out.push(n);
        i += 1;
    }
    proof {
        assert(int_seq(out@) =~= nums_of(vals_of(vs@)));
    }
    out
}

/// Renders every element canonically.
fn strs_vec(vs: &Vec<Type>) -> (r: Vec<String>)
    ensures
        str_seq(r@) == strs_of(vals_of(vs@)),
{
    proof {
        lemma_vals_of(vs@);
    }
    let mut out: Vec<String> = Vec::new();
    let mut i: usize = 0;
    while i < vs.len()
        invariant
            0 <= i <= vs@.len(),
            out@.len() == i,
            forall|j: int| 0 <= j < vals_of(vs@).len() ==> #[trigger] vals_of(vs@)[j] == vs@[j]@,
            vals_of(vs@).len() == vs@.len(),
            forall|j: int| 0 <= j < i ==> #[trigger] out@[j]@ == render_spec(vs@[j]@),
        decreases vs@.len() - i,
    {
        let t = vs[i].to_text();
        out.push(t);
        i += 1;
    }
    proof {
        assert(str_seq(out@) =~= strs_of(vals_of(vs@)));
    }
    out
}

/// Folds an arithmetic operation over the scalars from the left.
fn arith_fold_exec(op: Builtin, ns: &Vec<i64>) -> (r: i64)
    requires
        ns@.len() >= 1,
    ensures
        r as int == arith_fold(op, int_seq(ns@), ns@[0] as int, 1),
{
    let ghost s = int_seq(ns@);
    let mut acc: i64 = ns[0];
    let mut i: usize = 1;
    while i < ns.len()
        invariant
            1 <= i <= ns@.len(),
            s == int_seq(ns@),
            arith_fold(op, s, s[0], 1) == arith_fold(op, s, acc as int, i as int),
        decreases ns@.len() - i,
    {
        acc = num_op_exec(op, acc, ns[i]);
        i += 1;
    }
    acc
}

/// Tests every adjacent pair under a comparison.
fn cmp_all_exec(op: Builtin, ns: &Vec<i64>) -> (r: bool)
    ensures
        r == cmp_all(op, int_seq(ns@), 0),
{
    let ghost s = int_seq(ns@);
    if ns.len() < 2 {
        return true;
    }
    let mut ok = true;
    let mut i: usize = 0;
    while i < ns.len() - 1
        invariant
            0 <= i,
            i + 1 <= ns@.len(),
            ns@.len() >= 2,
            s == int_seq(ns@),
            cmp_all(op, s, 0) == (ok && cmp_all(op, s, i as int)),
        decreases ns@.len() - i,
    {
        let a = ns[i];
        let b = ns[i + 1];
        let step = match op {
            Builtin::Greater => a > b,
            Builtin::GreaterEq => a >= b,
            Builtin::Less => a < b,
            _ => a < b,
        };
        ok = ok && step;
        i += 1;
    }
    ok
}

/// Tests every adjacent pair of renderings for (in)equality.
fn text_all_exec(ss: &Vec<String>, want: bool) -> (r: bool)
    ensures
        r == text_all(str_seq(ss@), 0, want),
{
    let ghost s = str_seq(ss@);
    if ss.len() < 2 {
        return true;
    }
    let mut ok = true;
    let mut i: usize = 0;
    while i < ss.len() - 1
        invariant
            0 <= i,
            i + 1 <= ss@.len(),
            ss@.len() >= 2,
            s == str_seq(ss@),
            text_all(s, 0, want) == (ok && text_all(s, i as int, want)),
        decreases ss@.len() - i,
    {
        let same = ss[i].eq(&ss[i + 1]);
        ok = ok && (same == want);
        i += 1;
    }
    ok
}

/// Coerces every raw argument to a boolean and conjoins.
fn and_all_exec(args: &Vec<Type>) -> (r: bool)
    ensures
        r == and_all(vals_of(args@), 0),
{
    let ghost s = vals_of(args@);
    proof {
        lemma_vals_of(args@);
    }
    let mut ok = true;
    let mut i: usize = 0;
    while i < args.len()
        invariant
            0 <= i <= args@.len(),
            s == vals_of(args@),
            s.len() == args@.len(),
            forall|j: int| 0 <= j < s.len() ==> #[trigger] s[j] == args@[j]@,
            and_all(s, 0) == (ok && and_all(s, i as int)),
        decreases args@.len() - i,
    {
        let b = args[i].get_bool();
        ok = ok && b;
        i += 1;
    }
    ok
}

/// Coerces every raw argument to a boolean and disjoins.
fn or_any_exec(args: &Vec<Type>) -> (r: bool)
    ensures
        r == or_any(vals_of(args@), 0),
{
    let ghost s = vals_of(args@);
    proof {
        lemma_vals_of(args@);
    }
    let mut found = false;
    let mut i: usize = 0;
    while i < args.len()
        invariant
            0 <= i <= args@.len(),
            s == vals_of(args@),
            s.len() == args@.len(),
            forall|j: int| 0 <= j < s.len() ==> #[trigger] s[j] == args@[j]@,
            or_any(s, 0) == (found || or_any(s, i as int)),
        decreases args@.len() - i,
    {
        let b = args[i].get_bool();
        found = found || b;
        i += 1;
    }
    found
}

/// Copies the elements from a position on.
fn tail_items(items: &Vec<Type>, from: usize) -> (r: Vec<Type>)
    requires
        from <= items@.len(),
    ensures
        r@.len() == items@.len() - from,
        vals_of(r@) == vals_of(items@).skip(from as int),
{
    proof {
        lemma_vals_of(items@);
    }
    let mut out: Vec<Type> = Vec::new();
    let mut i: usize = from;
    while i < items.len()
        invariant
            from <= i <= items@.len(),
            out@.len() == i - from,
            forall|j: int| 0 <= j < i - from ==> #[trigger] out@[j]@ == items@[from + j]@,
        decreases items@.len() - i,
    {
        out.push(items[i].duplicate());
        i += 1;
    }
    proof {
        lemma_vals_of(out@);
        lemma_vals_of(items@);
        assert forall|j: int| 0 <= j < out@.len() implies vals_of(out@)[j] == vals_of(
            items@,
        ).skip(from as int)[j] by {
            assert(out@[j]@ == items@[from + j]@);
            assert(vals_of(out@)[j] == val_of(out@[j]));
            assert(vals_of(items@)[from + j] == val_of(items@[from + j]));
            assert(vals_of(items@).skip(from as int)[j] == vals_of(items@)[from + j]);
        }
        assert(vals_of(out@) =~= vals_of(items@).skip(from as int));
    }
    out
}

impl Type {
    /// Symbol substitution in the given scope, without recursive
    /// evaluation.
    pub fn load(&self, scope: &Scope) -> (r: Type)
        requires
            scope.wf(),
        ensures
            r@ == load_spec(self@, scope@),
    {
        match self {
            Type::Symbol(name) => match scope.get(name) {
                Some(v) => v.duplicate(),
                None => self.duplicate(),
            },
            _ => self.duplicate(),
        }
    }

    /// Full evaluation against a mutable scope, bounded by the fuel.
    pub fn eval(&self, scope: &mut Scope, fuel: u64) -> (r: Result<Type, LazoError>)
        requires
            old(scope).wf(),
        ensures
            final(scope).wf(),
            (res_view(r), final(scope)@) == eval_spec(self@, old(scope)@, fuel as nat),
        decreases fuel, 0int, 0int,
    {
        if fuel == 0 {
            return Err(LazoError::Runtime(String::from_str("recursion limit reached")));
        }
        let sub = fuel - 1;
        let lv = self.load(scope);
        match lv {
            Type::Expr(es) => {
                proof {
                    lemma_vals_of(es@);
                }
                let ghost esv = vals_of(es@);
                if es.len() == 0 {
                    return Err(
                        LazoError::Syntax(String::from_str("empty expression can't be evaluated")),
                    );
                }
                match es[0].eval(scope, sub) {
                    Err(e) => Err(e),
                    Ok(f) => match f {
                        Type::Function(Function::BuiltIn(b)) => {
                            let args = tail_items(&es, 1);
                            proof {
                                assert(vals_of(args@) =~= esv.drop_first());
                            }
                            apply_builtin(b, args, scope, sub)
                        },
                        Type::Function(Function::UserDefined(params, body)) => {
                            proof {
                                lemma_vals_of(params@);
                            }
                            if params.len() != es.len() - 1 {
                                return Err(LazoError::Function(es.len() - 1, params.len()));
                            }
                            let ghost caller = scope@;
                            let ghost pv = vals_of(params@);
                            let ghost av = vals_of(es@).drop_first();
                            let mut func_scope = scope.duplicate();
                            let mut k: usize = 0;
                            while k < params.len()
                                invariant
                                    0 <= k <= params@.len(),
                                    es@.len() >= 1,
                                    params@.len() == es@.len() - 1,
                                    caller == scope@,
                                    scope.wf(),
                                    func_scope.wf(),
                                    pv == vals_of(params@),
                                    av == vals_of(es@).drop_first(),
                                    pv.len() == params@.len(),
                                    av.len() == es@.len() - 1,
                                    forall|j: int|
                                        0 <= j < pv.len() ==> #[trigger] pv[j] == params@[j]@,
                                    forall|j: int|
                                        0 <= j < av.len() ==> #[trigger] av[j] == es@[j + 1]@,
                                    bind_args_spec(caller, caller, pv, av, 0) == bind_args_spec(
                                        caller,
                                        func_scope@,
                                        pv,
                                        av,
                                        k as int,
                                    ),
                                decreases params@.len() - k,
                            {
                                let name = params[k].get_string();
                                let arg = es[k + 1].load(scope);
                                func_scope.insert(name, arg);
                                k += 1;
                            }
                            let rb = run_body(&body, &mut func_scope, sub);
                            proof {
                                assert(vals_of(es@).drop_first() =~= esv.drop_first());
                            }
                            rb
                        },
                        other => {
                            let mut m = String::from_str(
                                "first atom in expression should be function, but provided `",
                            );
                            let rendered = es[0].to_text();
                            m.append(rendered.as_str());
                            m.append("` is not function");
                            Err(LazoError::Syntax(m))
                        },
                    },
                }
            },
            other => Ok(other),
        }
    }
}

/// Evaluates a run of lines in order, threading the scope; the result is
/// the last line's value, null when there is none.
fn run_body(lines: &Vec<Type>, scope: &mut Scope, sub: u64) -> (r: Result<Type, LazoError>)
    requires
        old(scope).wf(),
    ensures
        final(scope).wf(),
        (res_view(r), final(scope)@) == eval_body_spec(
            vals_of(lines@),
            0,
            Val::Null,
            old(scope)@,
            sub as nat,
        ),
    decreases sub, 1int, 0int,
{
    proof {
        lemma_vals_of(lines@);
    }
    let mut result = Type::Null;
    let mut i: usize = 0;
    while i < lines.len()
        invariant
            0 <= i <= lines@.len(),
            scope.wf(),
            vals_of(lines@).len() == lines@.len(),
            forall|j: int|
                0 <= j < lines@.len() ==> #[trigger] vals_of(lines@)[j] == lines@[j]@,
            eval_body_spec(vals_of(lines@), 0, Val::Null, old(scope)@, sub as nat)
                == eval_body_spec(vals_of(lines@), i as int, result@, scope@, sub as nat),
        decreases lines@.len() - i,
    {
        match lines[i].eval(scope, sub) {
            Ok(v) => {
                result = v;
            },
            Err(e) => {
                return Err(e);
            },
        }
        i += 1;
    }
    Ok(result)
}

/// Evaluates each argument left to right, threading the scope.
fn eval_args(args: &Vec<Type>, scope: &mut Scope, sub: u64) -> (r: Result<Vec<Type>, LazoError>)
    requires
        old(scope).wf(),
    ensures
        final(scope).wf(),
        match r {
            Ok(vs) => vs@.len() == args@.len() && eval_args_spec(
                vals_of(args@),
                0,
                Seq::empty(),
                old(scope)@,
                sub as nat,
            ) == (Ok::<Seq<Val>, ErrV>(vals_of(vs@)), final(scope)@),
            Err(e) => eval_args_spec(vals_of(args@), 0, Seq::empty(), old(scope)@, sub as nat)
                == (Err::<Seq<Val>, ErrV>(e@), final(scope)@),
        },
    decreases sub, 1int, 0int,
{
    proof {
        lemma_vals_of(args@);
    }
    let mut out: Vec<Type> = Vec::new();
    let mut i: usize = 0;
    while i < args.len()
        invariant
            0 <= i <= args@.len(),
            scope.wf(),
            out@.len() == i,
            vals_of(args@).len() == args@.len(),
            forall|j: int| 0 <= j < args@.len() ==> #[trigger] vals_of(args@)[j] == args@[j]@,
            eval_args_spec(vals_of(args@), 0, Seq::empty(), old(scope)@, sub as nat)
                == eval_args_spec(vals_of(args@), i as int, vals_of(out@), scope@, sub as nat),
        decreases args@.len() - i,
    {
        let ghost acc = vals_of(out@);
        let ghost prev = out@;
        match args[i].eval(scope, sub) {
            Ok(v) => {
                out.push(v);
                proof {
                    lemma_vals_of(prev);
                    lemma_vals_of(out@);
                    assert(vals_of(out@) =~= acc.push(out@.last()@));
                }
            },
            Err(e) => {
                return Err(e);
            },
        }
        i += 1;
    }
    Ok(out)
}

/// The concatenation built-in's evaluation loop.
fn do_concat(args: &Vec<Type>, scope: &mut Scope, sub: u64) -> (r: Result<Type, LazoError>)
    requires
        old(scope).wf(),
    ensures
        final(scope).wf(),
        (res_view(r), final(scope)@) == concat_loop_spec(
            vals_of(args@),
            0,
            Seq::empty(),
            old(scope)@,
            sub as nat,
        ),
    decreases sub, 1int, 0int,
{
    proof {
        lemma_vals_of(args@);
    }
    let ghost av = vals_of(args@);
    let mut out = String::new();
    let mut i: usize = 0;
    while i < args.len()
        invariant
            0 <= i <= args@.len(),
            scope.wf(),
            av == vals_of(args@),
            av.len() == args@.len(),
            forall|j: int| 0 <= j < av.len() ==> #[trigger] av[j] == args@[j]@,
            concat_loop_spec(av, 0, Seq::empty(), old(scope)@, sub as nat) == concat_loop_spec(
                av,
                i as int,
                out@,
                scope@,
                sub as nat,
            ),
        decreases args@.len() - i,
    {
        match args[i].eval(scope, sub) {
            Ok(v) => {
                let piece = v.get_string();
                out.append(piece.as_str());
            },
            Err(e) => {
                return Err(e);
            },
        }
        i += 1;
    }
    Ok(Type::Str(out))
}

/// The conditional chain's evaluation loop.
fn do_cond(args: &Vec<Type>, scope: &mut Scope, sub: u64) -> (r: Result<Type, LazoError>)
    requires
        old(scope).wf(),
    ensures
        final(scope).wf(),
        (res_view(r), final(scope)@) == cond_loop_spec(
            vals_of(args@),
            0,
            old(scope)@,
            sub as nat,
        ),
    decreases sub, 1int, 0int,
{
    proof {
        lemma_vals_of(args@);
    }
    let ghost av = vals_of(args@);
    let mut i: usize = 0;
    while i < args.len()
        invariant
            0 <= i <= args@.len(),
            scope.wf(),
            av == vals_of(args@),
            av.len() == args@.len(),
            forall|j: int| 0 <= j < av.len() ==> #[trigger] av[j] == args@[j]@,
            cond_loop_spec(av, 0, old(scope)@, sub as nat) == cond_loop_spec(
                av,
                i as int,
                scope@,
                sub as nat,
            ),
        decreases args@.len() - i,
    {
        let cl = args[i].get_list();
        proof {
            lemma_vals_of(cl@);
        }
        if cl.len() == 0 {
            return Err(LazoError::Syntax(String::from_str("cond clause is empty")));
        }
        match cl[0].eval(scope, sub) {
            Ok(c) => {
                if c.get_bool() {
                    if cl.len() < 2 {
                        return Err(
                            LazoError::Syntax(String::from_str("cond clause has no result")),
                        );
                    }
                    return cl[1].eval(scope, sub);
                }
            },
            Err(e) => {
                return Err(e);
            },
        }
        i += 1;
    }
    Ok(Type::Null)
}

/// The mapping built-in's evaluation loop.
fn do_map(f: &Type, items: &Vec<Type>, scope: &mut Scope, sub: u64) -> (r: Result<
    Type,
    LazoError,
>)
    requires
        old(scope).wf(),
    ensures
        final(scope).wf(),
        (res_view(r), final(scope)@) == map_loop_spec(
            f@,
            vals_of(items@),
            0,
            Seq::empty(),
            old(scope)@,
            sub as nat,
        ),
    decreases sub, 1int, 0int,
{
    proof {
        lemma_vals_of(items@);
    }
    let ghost itemsv = vals_of(items@);
    let mut out: Vec<Type> = Vec::new();
    let mut i: usize = 0;
    while i < items.len()
        invariant
            0 <= i <= items@.len(),
            scope.wf(),
            itemsv == vals_of(items@),
            itemsv.len() == items@.len(),
            forall|j: int| 0 <= j < itemsv.len() ==> #[trigger] itemsv[j] == items@[j]@,
            map_loop_spec(f@, itemsv, 0, Seq::empty(), old(scope)@, sub as nat) == map_loop_spec(
                f@,
                itemsv,
                i as int,
                vals_of(out@),
                scope@,
                sub as nat,
            ),
        decreases items@.len() - i,
    {
        let ghost acc = vals_of(out@);
        let ghost prev = out@;
        let call = pair_call(f, &items[i]);
        match call.eval(scope, sub) {
            Ok(v) => {
                out.push(v);
                proof {
                    lemma_vals_of(prev);
                    lemma_vals_of(out@);
                    assert(vals_of(out@) =~= acc.push(out@.last()@));
                }
            },
            Err(e) => {
                return Err(e);
            },
        }
        i += 1;
    }
    Ok(Type::List(out))
}

/// The iteration built-in's evaluation loop.
fn do_for(f: &Type, items: &Vec<Type>, scope: &mut Scope, sub: u64) -> (r: Result<
    Type,
    LazoError,
>)
    requires
        old(scope).wf(),
    ensures
        final(scope).wf(),
        (res_view(r), final(scope)@) == for_loop_spec(
            f@,
            vals_of(items@),
            0,
            old(scope)@,
            sub as nat,
        ),
    decreases sub, 1int, 0int,
{
    proof {
        lemma_vals_of(items@);
    }
    let ghost itemsv = vals_of(items@);
    let mut i: usize = 0;
    while i < items.len()
        invariant
            0 <= i <= items@.len(),
            scope.wf(),
            itemsv == vals_of(items@),
            itemsv.len() == items@.len(),
            forall|j: int| 0 <= j < itemsv.len() ==> #[trigger] itemsv[j] == items@[j]@,
            for_loop_spec(f@, itemsv, 0, old(scope)@, sub as nat) == for_loop_spec(
                f@,
                itemsv,
                i as int,
                scope@,
                sub as nat,
            ),
        decreases items@.len() - i,
    {
        let call = pair_call(f, &items[i]);
        match call.eval(scope, sub) {
            Ok(_) => {},
            Err(e) => {
                return Err(e);
            },
        }
        i += 1;
    }
    Ok(Type::Null)
}

/// The filtering built-in's evaluation loop.
fn do_filter(f: &Type, items: &Vec<Type>, scope: &mut Scope, sub: u64) -> (r: Result<
    Type,
    LazoError,
>)
    requires
        old(scope).wf(),
    ensures
        final(scope).wf(),
        (res_view(r), final(scope)@) == filter_loop_spec(
            f@,
            vals_of(items@),
            0,
            Seq::empty(),
            old(scope)@,
            sub as nat,
        ),
    decreases sub, 1int, 0int,
{
    proof {
        lemma_vals_of(items@);
    }
    let ghost itemsv = vals_of(items@);
    let mut out: Vec<Type> = Vec::new();
    let mut i: usize = 0;
    while i < items.len()
        invariant
            0 <= i <= items@.len(),
            scope.wf(),
            itemsv == vals_of(items@),
            itemsv.len() == items@.len(),
            forall|j: int| 0 <= j < itemsv.len() ==> #[trigger] itemsv[j] == items@[j]@,
            filter_loop_spec(f@, itemsv, 0, Seq::empty(), old(scope)@, sub as nat)
                == filter_loop_spec(f@, itemsv, i as int, vals_of(out@), scope@, sub as nat),
        decreases items@.len() - i,
    {
        let ghost acc = vals_of(out@);
        let ghost prev = out@;
        let call = pair_call(f, &items[i]);
        match call.eval(scope, sub) {
            Ok(c) => {
                if c.get_bool() {
                    out.push(items[i].duplicate());
                    proof {
                        lemma_vals_of(prev);
                        lemma_vals_of(out@);
                        assert(vals_of(out@) =~= acc.push(itemsv[i as int]));
                    }
                }
            },
            Err(e) => {
                return Err(e);
            },
        }
        i += 1;
    }
    Ok(Type::List(out))
}

/// The reduction built-in's folding loop, run in its own scope copy.
fn do_reduce(f: &Type, l: &Vec<Type>, fold_scope: &mut Scope, sub: u64) -> (r: Result<
    Type,
    LazoError,
>)
    requires
        old(fold_scope).wf(),
        l@.len() >= 1,
    ensures
        final(fold_scope).wf(),
        res_view(r) == reduce_loop_spec(
            f@,
            vals_of(l@),
            1,
            vals_of(l@)[0],
            old(fold_scope)@,
            sub as nat,
        ),
    decreases sub, 1int, 0int,
{
    proof {
        lemma_vals_of(l@);
    }
    let ghost lv = vals_of(l@);
    let mut acc = l[0].duplicate();
    let mut i: usize = 1;
    while i < l.len()
        invariant
            1 <= i <= l@.len(),
            fold_scope.wf(),
            lv == vals_of(l@),
            lv.len() == l@.len(),
            forall|j: int| 0 <= j < lv.len() ==> #[trigger] lv[j] == l@[j]@,
            reduce_loop_spec(f@, lv, 1, lv[0], old(fold_scope)@, sub as nat) == reduce_loop_spec(
                f@,
                lv,
                i as int,
                acc@,
                fold_scope@,
                sub as nat,
            ),
        decreases l@.len() - i,
    {
        let call = triple_call(f, &acc, &l[i]);
        match call.eval(fold_scope, sub) {
            Ok(v) => {
                acc = v;
            },
            Err(e) => {
                return Err(e);
            },
        }
        i += 1;
    }
    Ok(acc)
}

/// The repetition built-in's appending loop.
fn do_repeat(text: &String, count: i64) -> (r: String)
    ensures
        r@ == repeat_chars(text@, count as int),
{
    let mut out = String::new();
    let mut i: i64 = 0;
    while i < count
        invariant
            0 <= i,
            count > 0 ==> i <= count,
            count <= 0 ==> i == 0,
            out@ == repeat_chars(text@, i as int),
        decreases count - i,
    {
        out.append(text.as_str());
        i += 1;
    }
    out
}

/// Applies a native operation to its raw, unevaluated arguments.
#[verifier::rlimit(100)]
fn apply_builtin(b: Builtin, args: Vec<Type>, scope: &mut Scope, sub: u64) -> (r: Result<
    Type,
    LazoError,
>)
    requires
        old(scope).wf(),
    ensures
        final(scope).wf(),
        (res_view(r), final(scope)@) == apply_builtin_spec(
            b,
            vals_of(args@),
            old(scope)@,
            sub as nat,
        ),
    decreases sub, 2int, 0int,
{
    let ghost av = vals_of(args@);
    proof {
        lemma_vals_of(args@);
    }
    match b {
        Builtin::Add | Builtin::Mul | Builtin::Div => {
            match eval_args(&args, scope, sub) {
                Ok(vs) => {
                    if args.len() >= 1 {
                        let ns = nums_vec(&vs);
                        let x = arith_fold_exec(b, &ns);
                        proof {
                            assert(int_seq(ns@)[0] == nums_of(vals_of(vs@))[0]);
                        }
                        Ok(Type::Number(x))
                    } else {
                        Err(LazoError::Function(args.len(), 2))
                    }
                },
                Err(e) => Err(e),
            }
        },
        Builtin::Rem => {
            if args.len() >= 1 {
                match eval_args(&args, scope, sub) {
                    Ok(vs) => {
                        let ns = nums_vec(&vs);
                        let x = arith_fold_exec(b, &ns);
                        proof {
                            assert(int_seq(ns@)[0] == nums_of(vals_of(vs@))[0]);
                        }
                        Ok(Type::Number(x))
                    },
                    Err(e) => Err(e),
                }
            } else {
                Err(LazoError::Function(args.len(), 2))
            }
        },
        Builtin::Sub => {
            if args.len() >= 1 {
                let ns = nums_vec(&args);
                if args.len() >= 2 {
                    let x = arith_fold_exec(b, &ns);
                    proof {
                        assert(int_seq(ns@)[0] == nums_of(av)[0]);
                    }
                    Ok(Type::Number(x))
                } else {
                    let x = num_op_exec(b, 0, ns[0]);
                    proof {
                        assert(int_seq(ns@)[0] == nums_of(av)[0]);
                    }
                    Ok(Type::Number(x))
                }
            } else {
                Err(LazoError::Function(args.len(), 2))
            }
        },
        Builtin::Concat => do_concat(&args, scope, sub),
        Builtin::Equal | Builtin::NotEqual => {
            if args.len() >= 2 {
                match eval_args(&args, scope, sub) {
                    Ok(vs) => {
                        let want = match b {
                            Builtin::Equal => true,
                            _ => false,
                        };
                        let ss = strs_vec(&vs);
                        let okk = text_all_exec(&ss, want);
                        Ok(Type::Bool(okk))
                    },
                    Err(e) => Err(e),
                }
            } else {
                Err(LazoError::Function(args.len(), 2))
            }
        },
        Builtin::Greater | Builtin::GreaterEq | Builtin::Less | Builtin::LessEq => {
            if args.len() >= 2 {
                match eval_args(&args, scope, sub) {
                    Ok(vs) => {
                        let ns = nums_vec(&vs);
                        let okk = cmp_all_exec(b, &ns);
                        Ok(Type::Bool(okk))
                    },
                    Err(e) => Err(e),
                }
            } else {
                Err(LazoError::Function(args.len(), 2))
            }
        },
        Builtin::And => {
            if args.len() >= 2 {
                let okk = and_all_exec(&args);
                Ok(Type::Bool(okk))
            } else {
                Err(LazoError::Function(args.len(), 2))
            }
        },
        Builtin::Or => {
            if args.len() >= 2 {
                let okk = or_any_exec(&args);
                Ok(Type::Bool(okk))
            } else {
                Err(LazoError::Function(args.len(), 2))
            }
        },
        Builtin::Not => {
            if args.len() == 1 {
                let bv = args[0].get_bool();
                Ok(Type::Bool(!bv))
            } else {
                Err(LazoError::Function(args.len(), 1))
            }
        },
        Builtin::Cast => {
            if args.len() == 2 {
                let name = args[1].get_string();
                if name.eq(&String::from_str("number")) {
                    Ok(Type::Number(args[0].get_number()))
                } else if name.eq(&String::from_str("string")) {
                    Ok(Type::Str(args[0].get_string()))
                } else if name.eq(&String::from_str("bool")) {
                    Ok(Type::Bool(args[0].get_bool()))
                } else if name.eq(&String::from_str("list")) {
                    Ok(Type::List(args[0].get_list()))
                } else {
                    let mut m = String::from_str("unknown type name `");
                    m.append(name.as_str());
                    m.append("`");
                    Err(LazoError::Runtime(m))
                }
            } else {
                Err(LazoError::Function(args.len(), 2))
            }
        },
        Builtin::TypeOf => {
            if args.len() == 1 {
                Ok(Type::Str(args[0].get_type()))
            } else {
                Err(LazoError::Function(args.len(), 1))
            }
        },
        Builtin::EvalSeq => run_body(&args, scope, sub),
        Builtin::Define => {
            if args.len() >= 2 {
                match &args[0] {
                    Type::List(sig) | Type::Expr(sig) => {
                        if sig.len() == 0 {
                            Err(
                                LazoError::Syntax(
                                    String::from_str("function definition needs a name"),
                                ),
                            )
                        } else {
                            proof {
                                lemma_vals_of(sig@);
                            }
                            let params2 = tail_items(sig, 1);
                            let body2 = tail_items(&args, 1);
                            let value = Type::Function(Function::UserDefined(params2, body2));
                            let name = sig[0].get_string();
                            let copy = value.duplicate();
                            scope.insert(name, copy);
                            proof {
                                assert(vals_of(sig@).skip(1) =~= vals_of(sig@).drop_first());
                                assert(av.skip(1) =~= av.drop_first());
                            }
                            Ok(value)
                        }
                    },
                    _ => {
                        let value = args[1].duplicate();
                        let name = args[0].get_string();
                        let copy = value.duplicate();
                        scope.insert(name, copy);
                        Ok(value)
                    },
                }
            } else {
                Err(LazoError::Function(args.len(), 2))
            }
        },
        Builtin::Lambda => {
            if args.len() >= 2 {
                let params2 = args[0].get_list();
                let body2 = tail_items(&args, 1);
                proof {
                    assert(av.skip(1) =~= av.drop_first());
                }
                Ok(Type::Function(Function::UserDefined(params2, body2)))
            } else {
                Err(LazoError::Function(args.len(), 2))
            }
        },
        Builtin::If => {
            if args.len() == 3 {
                match args[0].eval(scope, sub) {
                    Ok(c) => {
                        if c.get_bool() {
                            args[1].eval(scope, sub)
                        } else {
                            args[2].eval(scope, sub)
                        }
                    },
                    Err(e) => Err(e),
                }
            } else if args.len() == 2 {
                match args[0].eval(scope, sub) {
                    Ok(c) => {
                        if c.get_bool() {
                            args[1].eval(scope, sub)
                        } else {
                            Ok(Type::Null)
                        }
                    },
                    Err(e) => Err(e),
                }
            } else {
                Err(LazoError::Function(args.len(), 3))
            }
        },
        Builtin::Cond => do_cond(&args, scope, sub),
        Builtin::TryCatch => {
            if args.len() == 2 {
                match args[0].eval(scope, sub) {
                    Ok(v) => Ok(v),
                    Err(_) => args[1].eval(scope, sub),
                }
            } else {
                Err(LazoError::Function(args.len(), 2))
            }
        },
        Builtin::Raise => {
            if args.len() == 0 {
                Err(LazoError::Runtime(String::from_str("Something went wrong")))
            } else {
                match args[0].eval(scope, sub) {
                    Ok(v) => Err(LazoError::Runtime(v.get_string())),
                    Err(e) => Err(e),
                }
            }
        },
        Builtin::Car => {
            if args.len() == 1 {
                match args[0].eval(scope, sub) {
                    Ok(v) => {
                        let l = v.get_list();
                        proof {
                            lemma_vals_of(l@);
                        }
                        if l.len() == 0 {
                            Ok(Type::Null)
                        } else {
                            Ok(l[0].duplicate())
                        }
                    },
                    Err(e) => Err(e),
                }
            } else {
                Err(LazoError::Function(args.len(), 1))
            }
        },
        Builtin::Cdr => {
            if args.len() == 1 {
                match args[0].eval(scope, sub) {
                    Ok(v) => {
                        let l = v.get_list();
                        proof {
                            lemma_vals_of(l@);
                        }
                        if l.len() == 0 {
                            proof {
                                assert(vals_of(Seq::<Type>::empty()) =~= Seq::<Val>::empty());
                            }
                            Ok(Type::List(Vec::new()))
                        } else {
                            let rest = tail_items(&l, 1);
                            proof {
                                assert(vals_of(l@).skip(1) =~= vals_of(l@).drop_first());
                            }
                            Ok(Type::List(rest))
                        }
                    },
                    Err(e) => Err(e),
                }
            } else {
                Err(LazoError::Function(args.len(), 1))
            }
        },
        Builtin::Len => {
            if args.len() == 1 {
                match args[0].eval(scope, sub) {
                    Ok(v) => {
                        let l = v.get_list();
                        proof {
                            lemma_vals_of(l@);
                        }
                        let len_u: u64 = l.len() as u64;
                        if len_u > 0x7fff_ffff_ffff_ffffu64 {
                            Ok(Type::Number(i64::MAX))
                        } else {
                            Ok(Type::Number(len_u as i64))
                        }
                    },
                    Err(e) => Err(e),
                }
            } else {
                Err(LazoError::Function(args.len(), 1))
            }
        },
        Builtin::Reverse => {
            if args.len() == 1 {
                let l = args[0].get_list();
                proof {
                    lemma_vals_of(l@);
                }
                let mut out: Vec<Type> = Vec::new();
                let mut j: usize = l.len();
                while j > 0
                    invariant
                        0 <= j <= l@.len(),
                        out@.len() == l@.len() - j,
                        forall|k: int|
                            0 <= k < out@.len() ==> #[trigger] out@[k]@ == l@[l@.len() - 1 - k]@,
                    decreases j,
                {
                    j -= 1;
                    out.push(l[j].duplicate());
                }
                proof {
                    lemma_vals_of(out@);
                    lemma_vals_of(l@);
                    let lv = vals_of(l@);
                    assert forall|k: int| 0 <= k < out@.len() implies vals_of(out@)[k]
                        == lv.reverse()[k] by {
                        assert(out@[k]@ == l@[l@.len() - 1 - k]@);
                        assert(vals_of(out@)[k] == val_of(out@[k]));
                        assert(lv[l@.len() - 1 - k] == val_of(l@[l@.len() - 1 - k]));
                    }
                    assert(vals_of(out@) =~= vals_of(l@).reverse());
                }
                Ok(Type::List(out))
            } else {
                Err(LazoError::Function(args.len(), 1))
            }
        },
        Builtin::RangeList => {
            if args.len() == 1 || args.len() == 2 || args.len() == 3 {
                let first = match args[0].eval(scope, sub) {
                    Ok(v) => v,
                    Err(e) => {
                        return Err(e);
                    },
                };
                if args.len() == 1 {
                    let end = first.get_number();
                    Ok(Type::List(range_walk(0, end, 1)))
                } else {
                    let start = first.get_number();
                    let second = match args[1].eval(scope, sub) {
                        Ok(v) => v,
                        Err(e) => {
                            return Err(e);
                        },
                    };
                    let end = second.get_number();
                    if args.len() == 2 {
                        Ok(Type::List(range_walk(start, end, 1)))
                    } else {
                        let third = match args[2].eval(scope, sub) {
                            Ok(v) => v,
                            Err(e) => {
                                return Err(e);
                            },
                        };
                        let step = third.get_number();
                        if step < 1 {
                            Err(
                                LazoError::Runtime(
                                    String::from_str("range step must be positive"),
                                ),
                            )
                        } else {
                            Ok(Type::List(range_walk(start, end, step)))
                        }
                    }
                }
            } else {
                Err(LazoError::Function(args.len(), 3))
            }
        },
        Builtin::MapList => {
            if args.len() == 2 {
                let f = match args[1].eval(scope, sub) {
                    Ok(v) => v,
                    Err(e) => {
                        return Err(e);
                    },
                };
                let lst = match args[0].eval(scope, sub) {
                    Ok(v) => v,
                    Err(e) => {
                        return Err(e);
                    },
                };
                let items = lst.get_list();
                do_map(&f, &items, scope, sub)
            } else {
                Err(LazoError::Function(args.len(), 2))
            }
        },
        Builtin::ForEach => {
            if args.len() == 2 {
                let f = match args[1].eval(scope, sub) {
                    Ok(v) => v,
                    Err(e) => {
                        return Err(e);
                    },
                };
                let lst = match args[0].eval(scope, sub) {
                    Ok(v) => v,
                    Err(e) => {
                        return Err(e);
                    },
                };
                let items = lst.get_list();
                do_for(&f, &items, scope, sub)
            } else {
                Err(LazoError::Function(args.len(), 2))
            }
        },
        Builtin::FilterList => {
            if args.len() == 2 {
                let f = match args[1].eval(scope, sub) {
                    Ok(v) => v,
                    Err(e) => {
                        return Err(e);
                    },
                };
                let lst = match args[0].eval(scope, sub) {
                    Ok(v) => v,
                    Err(e) => {
                        return Err(e);
                    },
                };
                let items = lst.get_list();
                do_filter(&f, &items, scope, sub)
            } else {
                Err(LazoError::Function(args.len(), 2))
            }
        },
        Builtin::ReduceList => {
            if args.len() == 2 {
                let lst = match args[0].eval(scope, sub) {
                    Ok(v) => v,
                    Err(e) => {
                        return Err(e);
                    },
                };
                let l = lst.get_list();
                proof {
                    lemma_vals_of(l@);
                }
                if l.len() == 0 {
                    return Err(LazoError::Runtime(String::from_str("passed list is empty")));
                }
                let mut fold_scope = scope.duplicate();
                match do_reduce(&args[1], &l, &mut fold_scope, sub) {
                    Ok(v) => Ok(v),
                    Err(e) => Err(e),
                }
            } else {
                Err(LazoError::Function(args.len(), 2))
            }
        },
        Builtin::FormatStr => {
            if args.len() == 2 {
                let template = args[0].get_string();
                let v = match args[1].eval(scope, sub) {
                    Ok(v1) => v1,
                    Err(e) => {
                        return Err(e);
                    },
                };
                let rep = v.get_string();
                let ts = template.as_str();
                let n = ts.unicode_len();
                let mut out = String::new();
                let mut i: usize = 0;
                while i < n
                    invariant
                        0 <= i <= n,
                        n == template@.len(),
                        ts@ == template@,
                        template@ == get_string_spec(av[0]),
                        av == vals_of(args@),
                        rep@ == get_string_spec(v@),
                        fmt_replace(template@, rep@, 0, Seq::empty()) == fmt_replace(
                            template@,
                            rep@,
                            i as int,
                            out@,
                        ),
                    decreases n - i,
                {
                    let c = ts.get_char(i);
                    if i + 1 < n && c == '{' && ts.get_char(i + 1) == '}' {
                        out.append(rep.as_str());
                        i += 2;
                    } else {
                        push_char(&mut out, c);
                        i += 1;
                    }
                }
                Ok(Type::Str(out))
            } else {
                Err(LazoError::Function(args.len(), 2))
            }
        },
        Builtin::Split => {
            if args.len() == 2 {
                let v = match args[0].eval(scope, sub) {
                    Ok(v0) => v0,
                    Err(e) => {
                        return Err(e);
                    },
                };
                let text = v.get_string();
                let p = match args[1].eval(scope, sub) {
                    Ok(v1) => v1,
                    Err(e) => {
                        return Err(e);
                    },
                };
                let pat = p.get_string();
                Ok(Type::List(split_text(&text, &pat)))
            } else {
                Err(LazoError::Function(args.len(), 2))
            }
        },
        Builtin::Join => {
            if args.len() == 2 {
                let lst = match args[0].eval(scope, sub) {
                    Ok(v0) => v0,
                    Err(e) => {
                        return Err(e);
                    },
                };
                let sep = match args[1].eval(scope, sub) {
                    Ok(v1) => v1,
                    Err(e) => {
                        return Err(e);
                    },
                };
                let items = lst.get_list();
                let sep_text = sep.get_string();
                proof {
                    lemma_vals_of(items@);
                }
                let ghost itemsv = vals_of(items@);
                let mut out = String::new();
                let mut i: usize = 0;
                while i < items.len()
                    invariant
                        0 <= i <= items@.len(),
                        itemsv == vals_of(items@),
                        itemsv.len() == items@.len(),
                        forall|j: int| 0 <= j < itemsv.len() ==> #[trigger] itemsv[j] == items@[j]@,
                        sep_text@ == get_string_spec(sep@),
                        join_vals(itemsv, sep_text@, 0, Seq::empty()) == join_vals(
                            itemsv,
                            sep_text@,
                            i as int,
                            out@,
                        ),
                    decreases items@.len() - i,
                {
                    if i > 0 {
                        out.append(sep_text.as_str());
                    }
                    let piece = items[i].get_string();
                    out.append(piece.as_str());
                    i += 1;
                }
                Ok(Type::Str(out))
            } else {
                Err(LazoError::Function(args.len(), 2))
            }
        },
        Builtin::Repeat => {
            if args.len() == 2 {
                let v = match args[0].eval(scope, sub) {
                    Ok(v0) => v0,
                    Err(e) => {
                        return Err(e);
                    },
                };
                let text = v.get_string();
                let n = match args[1].eval(scope, sub) {
                    Ok(v2) => v2,
                    Err(e) => {
                        return Err(e);
                    },
                };
                let count = n.get_number();
                Ok(Type::Str(do_repeat(&text, count)))
            } else {
                Err(LazoError::Function(args.len(), 2))
            }
        },
    }
}

/// Splits a text at each occurrence of the separator.
fn split_text(text: &String, pat: &String) -> (r: Vec<Type>)
    ensures
        vals_of(r@) == split_result(text@, pat@),
{
    let ts = text.as_str();
    let n = ts.unicode_len();
    let ps = pat.as_str();
    let plen = ps.unicode_len();
    let mut out: Vec<Type> = Vec::new();
    if plen == 0 {
        let ghost tv = text@;
        let ghost mut pieces: Seq<Seq<char>> = seq![Seq::<char>::empty()];
        out.push(Type::Str(String::new()));
        let mut i: usize = 0;
        while i < n
            invariant
                0 <= i <= n,
                n == tv.len(),
                tv == text@,
                ts@ == tv,
                out@.len() == pieces.len(),
                forall|k: int| 0 <= k < out@.len() ==> #[trigger] out@[k]@ == Val::Str(pieces[k]),
                split_chars(tv, 0, seq![Seq::<char>::empty()]) == split_chars(tv, i as int, pieces),
            decreases n - i,
        {
            let c = ts.get_char(i);
            let mut one = String::new();
            push_char(&mut one, c);
            let ghost onev = one@;
            out.push(Type::Str(one));
            proof {
                assert(onev =~= seq![tv[i as int]]);
                pieces = pieces.push(seq![tv[i as int]]);
            }
            i += 1;
        }
        out.push(Type::Str(String::new()));
        proof {
            pieces = pieces.push(Seq::empty());
            lemma_vals_of(out@);
            assert forall|k: int| 0 <= k < out@.len() implies vals_of(out@)[k] == strs_to_vals(
                pieces,
            )[k] by {
                assert(vals_of(out@)[k] == val_of(out@[k]));
                assert(out@[k]@ == Val::Str(pieces[k]));
            }
            assert(vals_of(out@) =~= strs_to_vals(pieces));
        }
    } else {
        let ghost tv = text@;
        let ghost pv = pat@;
        let ghost mut acc: Seq<Seq<char>> = Seq::empty();
        let mut cur = String::new();
        let mut i: usize = 0;
        while i < n
            invariant
                0 <= i <= n,
                n == tv.len(),
                tv == text@,
                ts@ == tv,
                pv == pat@,
                ps@ == pv,
                plen == pv.len(),
                plen >= 1,
                out@.len() == acc.len(),
                forall|k: int| 0 <= k < out@.len() ==> #[trigger] out@[k]@ == Val::Str(acc[k]),
                split_pieces(tv, pv, 0, Seq::empty(), Seq::empty()) == split_pieces(
                    tv,
                    pv,
                    i as int,
                    cur@,
                    acc,
                ),
            decreases n - i,
        {
            let mut matched = false;
            if plen <= n - i {
                let piece = ts.substring_char(i, i + plen);
                let piece_s = String::from_str(piece);
                if piece_s.eq(pat) {
                    matched = true;
                }
            }
            if matched {
                let ghost curv = cur@;
                let finished = cur;
                out.push(Type::Str(finished));
                cur = String::new();
                proof {
                    acc = acc.push(curv);
                }
                i += plen;
            } else {
                push_char(&mut cur, ts.get_char(i));
                i += 1;
            }
        }
        let ghost curv = cur@;
        out.push(Type::Str(cur));
        proof {
            acc = acc.push(curv);
            lemma_vals_of(out@);
            assert forall|k: int| 0 <= k < out@.len() implies vals_of(out@)[k] == strs_to_vals(
                acc,
            )[k] by {
                assert(vals_of(out@)[k] == val_of(out@[k]));
                assert(out@[k]@ == Val::Str(acc[k]));
            }
            assert(vals_of(out@) =~= strs_to_vals(acc));
        }
    }
    out
}

/// A pending two-element call expression.
fn pair_call(f: &Type, x: &Type) -> (r: Type)
    ensures
        r@ == Val::Expr(seq![f@, x@]),
{
    let mut items: Vec<Type> = Vec::new();
    items.push(f.duplicate());
    items.push(x.duplicate());
    proof {
        lemma_vals_of(items@);
        assert(vals_of(items@) =~= seq![f@, x@]);
    }
    Type::Expr(items)
}

/// A pending three-element call expression.
fn triple_call(f: &Type, a: &Type, x: &Type) -> (r: Type)
    ensures
        r@ == Val::Expr(seq![f@, a@, x@]),
{
    let mut items: Vec<Type> = Vec::new();
    items.push(f.duplicate());
    items.push(a.duplicate());
    items.push(x.duplicate());
    proof {
        lemma_vals_of(items@);
        assert(vals_of(items@) =~= seq![f@, a@, x@]);
    }
    Type::Expr(items)
}

/// Walks out the integers of a range as a value list.
fn range_walk(start: i64, end: i64, step: i64) -> (r: Vec<Type>)
    requires
        step >= 1,
    ensures
        vals_of(r@) == range_acc(start as int, end as int, step as int, Seq::empty()),
{
    let mut out: Vec<Type> = Vec::new();
    let mut cur: i64 = start;
    let mut done = false;
    while !done && cur < end
        invariant
            step >= 1,
            if done {
                range_acc(start as int, end as int, step as int, Seq::empty()) == vals_of(out@)
            } else {
                range_acc(start as int, end as int, step as int, Seq::empty()) == range_acc(
                    cur as int,
                    end as int,
                    step as int,
                    vals_of(out@),
                )
            },
        decreases (if done || cur >= end { 0int } else { end - cur + 1 }),
    {
        let ghost prev = out@;
        let ghost acc = vals_of(out@);
        out.push(Type::Number(cur));
        proof {
            lemma_vals_of(prev);
            lemma_vals_of(out@);
            assert(vals_of(out@) =~= acc.push(Val::Number(cur as int)));
        }
        match cur.checked_add(step) {
            Some(nx) => {
                cur = nx;
            },
            None => {
                done = true;
            },
        }
    }
    out
}

} // verus!
