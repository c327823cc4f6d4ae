use vstd::prelude::*;
use crate::text::{parse_i64, parse_i64_spec, push_char, render_i64, render_int_spec, trim,
    trim_spec};

verus! {

/// Identity of a native operation registered in the initial scope.
///
/// A built-in is identified by this tag alone and is not introspectable from
/// the language. Each one decides internally which of its unevaluated
/// argument expressions to evaluate and in what order.
#[derive(Clone, Copy, PartialEq, Eq, Structural, Debug)]
pub enum Builtin {
    Add,
    Sub,
    Mul,
    Div,
    Rem,
    Concat,
    Equal,
    NotEqual,
    Greater,
    GreaterEq,
    Less,
    LessEq,
    And,
    Or,
    Not,
    Cast,
    TypeOf,
    EvalSeq,
    Define,
    Lambda,
    If,
    Cond,
    TryCatch,
    Raise,
    Car,
    Cdr,
    Len,
    Reverse,
    RangeList,
    MapList,
    ForEach,
    FilterList,
    ReduceList,
    Repeat,
    Join,
    FormatStr,
    Split,
}

/// A callable: either a native operation or a user-defined closure holding an
/// ordered parameter-name list and an ordered body.
#[derive(Debug)]
pub enum Function {
    BuiltIn(Builtin),
    UserDefined(Vec<Type>, Vec<Type>),
}

/// The closed set of runtime values.
///
/// `Expr` (from parenthesized syntax) is a pending call; `List` (from bracket
/// syntax) is literal sequence data. The two are structurally identical and
/// must never be conflated. The numeric scalar is a 64-bit signed integer.
#[derive(Debug)]
pub enum Type {
    Function(Function),
    Expr(Vec<Type>),
    List(Vec<Type>),
    Symbol(String),
    Number(i64),
    Str(String),
    Bool(bool),
    Null,
}

/// Mathematical model of a runtime value.
pub enum Val {
    Builtin(Builtin),
    Closure(Seq<Val>, Seq<Val>),
    Expr(Seq<Val>),
    List(Seq<Val>),
    Symbol(Seq<char>),
    Number(int),
    Str(Seq<char>),
    Bool(bool),
    Null,
}

/// The model of an executable value.
pub open spec fn val_of(t: Type) -> Val
    decreases t, 0int,
{
    match t {
        Type::Function(Function::BuiltIn(b)) => Val::Builtin(b),
        Type::Function(Function::UserDefined(params, body)) => Val::Closure(
            vals_of(params@),
            vals_of(body@),
        ),
        Type::Expr(items) => Val::Expr(vals_of(items@)),
        Type::List(items) => Val::List(vals_of(items@)),
        Type::Symbol(s) => Val::Symbol(s@),
        Type::Number(n) => Val::Number(n as int),
        Type::Str(s) => Val::Str(s@),
        Type::Bool(b) => Val::Bool(b),
        Type::Null => Val::Null,
    }
}

/// The models of a sequence of executable values.
pub open spec fn vals_of(s: Seq<Type>) -> Seq<Val>
    decreases s, 1int,
{
    if s.len() == 0 {
        Seq::empty()
    } else {
        vals_of(s.drop_last()).push(val_of(s.last()))
    }
}

/// `vals_of` maps each element to its model.
pub broadcast proof fn lemma_vals_of(s: Seq<Type>)
    ensures
        (#[trigger] vals_of(s)).len() == s.len(),
        forall|i: int| 0 <= i < s.len() ==> vals_of(s)[i] == val_of(s[i]),
    decreases s.len(),
{
    if s.len() > 0 {
        lemma_vals_of(s.drop_last());
    }
}

impl View for Type {
    type V = Val;

    open spec fn view(&self) -> Val {
        val_of(*self)
    }
}

/// Space-separated renderings of the items from position `i` on, appended to
/// an accumulated prefix.
pub open spec fn join_sp(items: Seq<Val>, i: int, acc: Seq<char>) -> Seq<char>
    decreases items, items.len() - i,
{
    if i < 0 || i >= items.len() {
        acc
    } else if i == 0 {
        join_sp(items, 1, acc + render_spec(items[0]))
    } else {
        join_sp(items, i + 1, acc + seq![' '] + render_spec(items[i]))
    }
}

/// The canonical textual rendering of a value: quoted for strings, literal
/// for numbers, booleans and symbols, structural for expressions and lists.
pub open spec fn render_spec(v: Val) -> Seq<char>
    decreases v, 0int,
{
    match v {
        Val::Str(s) => ("\"")@ + s + ("\"")@,
        Val::Number(n) => render_int_spec(n),
        Val::Bool(b) => if b {
            ("true")@
        } else {
            ("false")@
        },
        Val::Symbol(s) => s,
        Val::List(items) => join_sp(items, 0, ("[")@) + ("]")@,
        Val::Expr(items) => join_sp(items, 0, ("(")@) + (")")@,
        Val::Closure(params, body) => join_sp(body, 0, join_sp(params, 0, ("(lambda (")@) + (") ")@)
            + (")")@,
        Val::Builtin(_) => ("function(native)")@,
        Val::Null => ("null")@,
    }
}

/// The lenient numeric coercion: numbers pass through, text parses with a
/// fallback of zero, booleans become one or zero, expressions and lists
/// defer to their first element, and everything else is zero.
pub open spec fn get_number_spec(v: Val) -> int
    decreases v,
{
    match v {
        Val::Number(n) => n,
        Val::Str(s) => str_to_num(s),
        Val::Symbol(s) => str_to_num(s),
        Val::Bool(b) => if b {
            1
        } else {
            0
        },
        Val::Expr(items) => if items.len() == 0 {
            0
        } else {
            get_number_spec(items[0])
        },
        Val::List(items) => if items.len() == 0 {
            0
        } else {
            get_number_spec(items[0])
        },
        Val::Builtin(_) => 0,
        Val::Closure(_, _) => 0,
        Val::Null => 0,
    }
}

/// The numeric value of trimmed text, zero when it denotes no integer.
pub open spec fn str_to_num(s: Seq<char>) -> int {
    match parse_i64_spec(trim_spec(s)) {
        Some(n) => n as int,
        None => 0,
    }
}

/// The textual coercion: a string's own content, every other value's
/// canonical rendering.
pub open spec fn get_string_spec(v: Val) -> Seq<char> {
    match v {
        Val::Str(s) => s,
        _ => render_spec(v),
    }
}

/// The boolean coercion: nonzero numbers, non-empty text, non-empty
/// expressions and lists are true; functions and null are false.
pub open spec fn get_bool_spec(v: Val) -> bool {
    match v {
        Val::Number(n) => n != 0,
        Val::Str(s) => s.len() > 0,
        Val::Symbol(s) => s.len() > 0,
        Val::Expr(items) => items.len() > 0,
        Val::List(items) => items.len() > 0,
        Val::Bool(b) => b,
        Val::Builtin(_) => false,
        Val::Closure(_, _) => false,
        Val::Null => false,
    }
}

/// The name of a value's kind.
pub open spec fn get_type_spec(v: Val) -> Seq<char> {
    match v {
        Val::Number(_) => ("number")@,
        Val::Str(_) => ("string")@,
        Val::Bool(_) => ("bool")@,
        Val::Expr(_) => ("expr")@,
        Val::Symbol(_) => ("symbol")@,
        Val::List(_) => ("list")@,
        Val::Null => ("null")@,
        Val::Builtin(_) => ("function")@,
        Val::Closure(_, _) => ("function")@,
    }
}

/// The list coercion: expressions and lists pass their elements through,
/// any other value becomes a one-element list holding itself.
pub open spec fn get_list_spec(v: Val) -> Seq<Val> {
    match v {
        Val::Expr(items) => items,
        Val::List(items) => items,
        _ => seq![v],
    }
}

/// Appends each item's rendering, space-separated, onto the text.
pub fn append_join(items: &Vec<Type>, out: &mut String)
    ensures
        final(out)@ == join_sp(vals_of(items@), 0, old(out)@),
    decreases items,
{
    let ghost vals = vals_of(items@);
    proof {
        lemma_vals_of(items@);
    }
    let mut i: usize = 0;
    while i < items.len()
        invariant
            0 <= i <= items@.len(),
            vals == vals_of(items@),
            vals.len() == items@.len(),
            forall|j: int| 0 <= j < vals.len() ==> vals[j] == val_of(items@[j]),
            join_sp(vals, 0, old(out)@) == join_sp(vals, i as int, out@),
        decreases items@.len() - i,
    {
        let ghost acc = out@;
        if i > 0 {
            push_char(out, ' ');
        }
        let piece = items[i].to_text();
        out.append(piece.as_str());
        proof {
            if i > 0 {
                assert(out@ =~= acc + seq![' '] + render_spec(vals[i as int]));
            } else {
                assert(out@ =~= acc + render_spec(vals[i as int]));
            }
        }
        i += 1;
    }
}

impl Type {
    /// Canonical textual rendering.
    pub fn to_text(&self) -> (r: String)
        ensures
            r@ == render_spec(self@),
        decreases self,
    {
        match self {
            Type::Str(s) => {
                let mut out = String::from_str("\"");
                out.append(s.as_str());
                out.append("\"");
                out
            },
            Type::Number(n) => render_i64(*n),
            Type::Bool(b) => if *b {
                String::from_str("true")
            } else {
                String::from_str("false")
            },
            Type::Symbol(s) => s.clone(),
            Type::List(items) => {
                let mut out = String::from_str("[");
                append_join(items, &mut out);
                out.append("]");
                out
            },
            Type::Expr(items) => {
                let mut out = String::from_str("(");
                append_join(items, &mut out);
                out.append(")");
                out
            },
            Type::Function(Function::BuiltIn(_)) => String::from_str("function(native)"),
            Type::Function(Function::UserDefined(params, body)) => {
                let mut out = String::from_str("(lambda (");
                append_join(params, &mut out);
                out.append(") ");
                append_join(body, &mut out);
                out.append(")");
                out
            },
            Type::Null => String::from_str("null"),
        }
    }

    /// Lenient numeric coercion; total over every variant.
    pub fn get_number(&self) -> (r: i64)
        ensures
            r as int == get_number_spec(self@),
        decreases self,
    {
        match self {
            Type::Number(n) => *n,
            Type::Str(s) => {
                let t = trim(s.as_str());
                match parse_i64(t.as_str()) {
                    Some(n) => n,
                    None => 0,
                }
            },
            Type::Symbol(s) => {
                let t = trim(s.as_str());
                match parse_i64(t.as_str()) {
                    Some(n) => n,
                    None => 0,
                }
            },
            Type::Bool(b) => if *b {
                1
            } else {
                0
            },
            Type::Expr(items) => {
                proof {
                    lemma_vals_of(items@);
                }
                if items.len() == 0 {
                    0
                } else {
                    items[0].get_number()
                }
            },
            Type::List(items) => {
                proof {
                    lemma_vals_of(items@);
                }
                if items.len() == 0 {
                    0
                } else {
                    items[0].get_number()
                }
            },
            Type::Function(_) => 0,
            Type::Null => 0,
        }
    }

    /// Textual coercion; total over every variant.
    pub fn get_string(&self) -> (r: String)
        ensures
            r@ == get_string_spec(self@),
    {
        match self {
            Type::Str(s) => s.clone(),
            _ => self.to_text(),
        }
    }

    /// Boolean coercion; total over every variant.
    pub fn get_bool(&self) -> (r: bool)
        ensures
            r == get_bool_spec(self@),
    {
        match self {
            Type::Number(n) => *n != 0,
            Type::Str(s) => !s.as_str().is_empty(),
            Type::Symbol(s) => !s.as_str().is_empty(),
            Type::Expr(items) => {
                proof {
                    lemma_vals_of(items@);
                }
                items.len() > 0
            },
            Type::List(items) => {
                proof {
                    lemma_vals_of(items@);
                }
                items.len() > 0
            },
            Type::Bool(b) => *b,
            Type::Function(_) => false,
            Type::Null => false,
        }
    }

    /// The name of the value's kind.
    pub fn get_type(&self) -> (r: String)
        ensures
            r@ == get_type_spec(self@),
    {
        match self {
            Type::Number(_) => String::from_str("number"),
            Type::Str(_) => String::from_str("string"),
            Type::Bool(_) => String::from_str("bool"),
            Type::Expr(_) => String::from_str("expr"),
            Type::Symbol(_) => String::from_str("symbol"),
            Type::List(_) => String::from_str("list"),
            Type::Null => String::from_str("null"),
            Type::Function(_) => String::from_str("function"),
        }
    }

    /// List coercion; total over every variant.
    pub fn get_list(&self) -> (r: Vec<Type>)
        ensures
            vals_of(r@) == get_list_spec(self@),
    {
        match self {
            Type::Expr(items) => duplicate_items(items),
            Type::List(items) => duplicate_items(items),
            _ => {
                let mut out: Vec<Type> = Vec::new();
                out.push(self.duplicate());
                proof {
                    lemma_vals_of(out@);
                    assert(vals_of(out@) =~= seq![self@]);
                }
                out
            },
        }
    }

    /// Structural copy; the copy's model equals this value's model.
    pub fn duplicate(&self) -> (r: Type)
        ensures
            r@ == self@,
        decreases self,
    {
        match self {
            Type::Function(Function::BuiltIn(b)) => Type::Function(Function::BuiltIn(*b)),
            Type::Function(Function::UserDefined(params, body)) => Type::Function(
                Function::UserDefined(duplicate_items(params), duplicate_items(body)),
            ),
            Type::Expr(items) => Type::Expr(duplicate_items(items)),
            Type::List(items) => Type::List(duplicate_items(items)),
            Type::Symbol(s) => Type::Symbol(s.clone()),
            Type::Number(n) => Type::Number(*n),
            Type::Str(s) => Type::Str(s.clone()),
            Type::Bool(b) => Type::Bool(*b),
            Type::Null => Type::Null,
        }
    }
}

/// Structural copy of a value vector, preserving each element's model.
pub fn duplicate_items(items: &Vec<Type>) -> (r: Vec<Type>)
    ensures
        r@.len() == items@.len(),
        vals_of(r@) == vals_of(items@),
    decreases items,
{
    let mut out: Vec<Type> = Vec::new();
    let mut i: usize = 0;
    while i < items.len()
        invariant
            i <= items@.len(),
            out@.len() == i,
            forall|j: int| 0 <= j < i ==> out@[j]@ == items@[j]@,
        decreases items@.len() - i,
    {
        out.push(items[i].duplicate());
        i += 1;
    }
    proof {
        lemma_vals_of(out@);
        lemma_vals_of(items@);
        assert(vals_of(out@) =~= vals_of(items@));
    }
    out
}

} // verus!
