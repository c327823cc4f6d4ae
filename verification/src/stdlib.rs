use vstd::prelude::*;
use crate::scope::Scope;
use crate::value::{Builtin, Function, Type, Val};

verus! {

/// The bindings of the initial scope: every named native operation, and the
/// constant strings for a newline, a double quote and a tab.
pub open spec fn stdlib_map() -> Map<Seq<char>, Val> {
    Map::empty().insert(("+")@, Val::Builtin(Builtin::Add)).insert(
        ("-")@,
        Val::Builtin(Builtin::Sub),
    ).insert(("*")@, Val::Builtin(Builtin::Mul)).insert(("/")@, Val::Builtin(Builtin::Div)).insert(
        ("%")@,
        Val::Builtin(Builtin::Rem),
    ).insert(("concat")@, Val::Builtin(Builtin::Concat)).insert(
        ("=")@,
        Val::Builtin(Builtin::Equal),
    ).insert(("!=")@, Val::Builtin(Builtin::NotEqual)).insert(
        (">")@,
        Val::Builtin(Builtin::Greater),
    ).insert((">=")@, Val::Builtin(Builtin::GreaterEq)).insert(
        ("<")@,
        Val::Builtin(Builtin::Less),
    ).insert(("<=")@, Val::Builtin(Builtin::LessEq)).insert(
        ("&")@,
        Val::Builtin(Builtin::And),
    ).insert(("|")@, Val::Builtin(Builtin::Or)).insert(("!")@, Val::Builtin(Builtin::Not)).insert(
        ("cast")@,
        Val::Builtin(Builtin::Cast),
    ).insert(("type")@, Val::Builtin(Builtin::TypeOf)).insert(
        ("eval")@,
        Val::Builtin(Builtin::EvalSeq),
    ).insert(("define")@, Val::Builtin(Builtin::Define)).insert(
        ("lambda")@,
        Val::Builtin(Builtin::Lambda),
    ).insert(("if")@, Val::Builtin(Builtin::If)).insert(
        ("cond")@,
        Val::Builtin(Builtin::Cond),
    ).insert(("try")@, Val::Builtin(Builtin::TryCatch)).insert(
        ("error")@,
        Val::Builtin(Builtin::Raise),
    ).insert(("car")@, Val::Builtin(Builtin::Car)).insert(
        ("cdr")@,
        Val::Builtin(Builtin::Cdr),
    ).insert(("len")@, Val::Builtin(Builtin::Len)).insert(
        ("reverse")@,
        Val::Builtin(Builtin::Reverse),
    ).insert(("range")@, Val::Builtin(Builtin::RangeList)).insert(
        ("map")@,
        Val::Builtin(Builtin::MapList),
    ).insert(("for")@, Val::Builtin(Builtin::ForEach)).insert(
        ("filter")@,
        Val::Builtin(Builtin::FilterList),
    ).insert(("reduce")@, Val::Builtin(Builtin::ReduceList)).insert(
        ("repeat")@,
        Val::Builtin(Builtin::Repeat),
    ).insert(("join")@, Val::Builtin(Builtin::Join)).insert(
        ("format")@,
        Val::Builtin(Builtin::FormatStr),
    ).insert(("split")@, Val::Builtin(Builtin::Split)).insert(("new-line")@, Val::Str(("\n")@)).insert(("double-quote")@, Val::Str(("\"")@)).insert(
        ("tab")@,
        Val::Str(("\t")@),
    )
}

/// Builds the root scope holding the native operations and constants; a
/// session's evaluation starts from a scope equal to this map.
pub fn stdlib() -> (r: Scope)
    ensures
        r.wf(),
        r@ == stdlib_map(),
{
    let mut s = Scope::new();
    s.insert(String::from_str("+"), Type::Function(Function::BuiltIn(Builtin::Add)));
    s.insert(String::from_str("-"), Type::Function(Function::BuiltIn(Builtin::Sub)));
    s.insert(String::from_str("*"), Type::Function(Function::BuiltIn(Builtin::Mul)));
    s.insert(String::from_str("/"), Type::Function(Function::BuiltIn(Builtin::Div)));
    s.insert(String::from_str("%"), Type::Function(Function::BuiltIn(Builtin::Rem)));
    s.insert(String::from_str("concat"), Type::Function(Function::BuiltIn(Builtin::Concat)));
    s.insert(String::from_str("="), Type::Function(Function::BuiltIn(Builtin::Equal)));
    s.insert(String::from_str("!="), Type::Function(Function::BuiltIn(Builtin::NotEqual)));
    s.insert(String::from_str(">"), Type::Function(Function::BuiltIn(Builtin::Greater)));
    s.insert(String::from_str(">="), Type::Function(Function::BuiltIn(Builtin::GreaterEq)));
    s.insert(String::from_str("<"), Type::Function(Function::BuiltIn(Builtin::Less)));
    s.insert(String::from_str("<="), Type::Function(Function::BuiltIn(Builtin::LessEq)));
    s.insert(String::from_str("&"), Type::Function(Function::BuiltIn(Builtin::And)));
    s.insert(String::from_str("|"), Type::Function(Function::BuiltIn(Builtin::Or)));
    s.insert(String::from_str("!"), Type::Function(Function::BuiltIn(Builtin::Not)));
    s.insert(String::from_str("cast"), Type::Function(Function::BuiltIn(Builtin::Cast)));
    s.insert(String::from_str("type"), Type::Function(Function::BuiltIn(Builtin::TypeOf)));
    s.insert(String::from_str("eval"), Type::Function(Function::BuiltIn(Builtin::EvalSeq)));
    s.insert(String::from_str("define"), Type::Function(Function::BuiltIn(Builtin::Define)));
    s.insert(String::from_str("lambda"), Type::Function(Function::BuiltIn(Builtin::Lambda)));
    s.insert(String::from_str("if"), Type::Function(Function::BuiltIn(Builtin::If)));
    s.insert(String::from_str("cond"), Type::Function(Function::BuiltIn(Builtin::Cond)));
    s.insert(String::from_str("try"), Type::Function(Function::BuiltIn(Builtin::TryCatch)));
    s.insert(String::from_str("error"), Type::Function(Function::BuiltIn(Builtin::Raise)));
    s.insert(String::from_str("car"), Type::Function(Function::BuiltIn(Builtin::Car)));
    s.insert(String::from_str("cdr"), Type::Function(Function::BuiltIn(Builtin::Cdr)));
    s.insert(String::from_str("len"), Type::Function(Function::BuiltIn(Builtin::Len)));
    s.insert(String::from_str("reverse"), Type::Function(Function::BuiltIn(Builtin::Reverse)));
    s.insert(String::from_str("range"), Type::Function(Function::BuiltIn(Builtin::RangeList)));
    s.insert(String::from_str("map"), Type::Function(Function::BuiltIn(Builtin::MapList)));
    s.insert(String::from_str("for"), Type::Function(Function::BuiltIn(Builtin::ForEach)));
    s.insert(String::from_str("filter"), Type::Function(Function::BuiltIn(Builtin::FilterList)));
    s.insert(String::from_str("reduce"), Type::Function(Function::BuiltIn(Builtin::ReduceList)));
    s.insert(String::from_str("repeat"), Type::Function(Function::BuiltIn(Builtin::Repeat)));
    s.insert(String::from_str("join"), Type::Function(Function::BuiltIn(Builtin::Join)));
    s.insert(String::from_str("format"), Type::Function(Function::BuiltIn(Builtin::FormatStr)));
    s.insert(String::from_str("split"), Type::Function(Function::BuiltIn(Builtin::Split)));
    s.insert(String::from_str("new-line"), Type::Str(String::from_str("\n")));
    s.insert(String::from_str("double-quote"), Type::Str(String::from_str("\"")));
    s.insert(String::from_str("tab"), Type::Str(String::from_str("\t")));
    s
}

} // verus!
