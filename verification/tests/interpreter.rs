use lazo::errors::LazoError;
use lazo::lexer::tokenize;
use lazo::parser::parse;
use lazo::scope::Scope;
use lazo::stdlib::stdlib;
use lazo::value::Type;

const FUEL: u64 = 256;

fn run(src: &str) -> Result<Type, LazoError> {
    let mut scope: Scope = stdlib();
    let tokens = tokenize(String::from(src))?;
    let mut result = Type::Null;
    for token in tokens {
        result = parse(token)?.eval(&mut scope, FUEL)?;
    }
    Ok(result)
}

fn run_text(src: &str) -> String {
    run(src).expect("evaluation failed").to_text()
}

#[test]
fn adds_three_numbers() {
    assert_eq!(run_text("(+ 1 2 3)"), "6");
}

#[test]
fn define_then_use() {
    assert_eq!(run_text("(define x 10) (+ x 5)"), "15");
}

#[test]
fn if_selects_yes() {
    assert_eq!(run_text("(if (> 3 2) \"yes\" \"no\")"), "\"yes\"");
}

#[test]
fn bracket_list_self_evaluates() {
    let v = run("[1 2 3]").unwrap();
    match &v {
        Type::List(items) => {
            assert_eq!(items.len(), 3);
            assert!(matches!(items[0], Type::Number(1)));
            assert!(matches!(items[1], Type::Number(2)));
            assert!(matches!(items[2], Type::Number(3)));
        }
        _ => panic!("expected a list"),
    }
    assert_eq!(v.to_text(), "[1 2 3]");
}

#[test]
fn lambda_applies() {
    assert_eq!(run_text("((lambda (n) (* n n)) 4)"), "16");
}

#[test]
fn lone_open_paren_is_syntax_error() {
    let e = run("(").unwrap_err();
    assert!(matches!(e, LazoError::Syntax(_)));
    assert_eq!(e.message(), "Syntax Error! there's not end of the parentheses");
}

#[test]
fn if_false_skips_error_branch() {
    assert_eq!(run_text("(if false (error \"boom\") 1)"), "1");
}

#[test]
fn arity_mismatch_reports_both_counts() {
    let e = run("((lambda (n) n) 1 2)").unwrap_err();
    assert!(matches!(e, LazoError::Function(2, 1)));
    assert_eq!(
        e.message(),
        "Function Error! the passed arguments length 2 is different to expected length 1 of the function's arguments"
    );
}

#[test]
fn callee_bindings_invisible_to_caller() {
    let e = run("(define (f a) (define hidden 7) a) (f 1) hidden").unwrap();
    // `hidden` stays unbound in the caller, so it evaluates to itself.
    assert_eq!(e.to_text(), "hidden");
    assert!(matches!(e, Type::Symbol(_)));
}

#[test]
fn define_mutates_caller_scope() {
    assert_eq!(run_text("(define y 1) (define y 2) y"), "2");
}

#[test]
fn empty_call_is_syntax_error() {
    let e = run("()").unwrap_err();
    assert_eq!(e.message(), "Syntax Error! empty expression can't be evaluated");
}

#[test]
fn stray_closer_is_syntax_error() {
    let e = run(")").unwrap_err();
    assert_eq!(e.message(), "Syntax Error! there's duplicate end of the parentheses");
}

#[test]
fn unterminated_quote_is_syntax_error() {
    let e = run("\"abc").unwrap_err();
    assert_eq!(e.message(), "Syntax Error! there's not end of the quote");
}

#[test]
fn error_form_raises_runtime() {
    let e = run("(error \"boom\")").unwrap_err();
    assert_eq!(e.message(), "Runtime Error! boom");
}

#[test]
fn error_form_default_message() {
    let e = run("(error)").unwrap_err();
    assert_eq!(e.message(), "Runtime Error! Something went wrong");
}

#[test]
fn try_recovers_from_error() {
    assert_eq!(run_text("(try (error \"boom\") 42)"), "42");
}

#[test]
fn try_passes_success_through() {
    assert_eq!(run_text("(try 5 42)"), "5");
}

#[test]
fn non_callable_head_is_syntax_error() {
    let e = run("(1 2)").unwrap_err();
    assert_eq!(
        e.message(),
        "Syntax Error! first atom in expression should be function, but provided `1` is not function"
    );
}

#[test]
fn subtraction_on_raw_numbers() {
    assert_eq!(run_text("(- 9 3 1)"), "5");
    assert_eq!(run_text("(- 4)"), "-4");
}

#[test]
fn subtraction_takes_arguments_raw() {
    // The subtraction form never evaluates its arguments: a nested call
    // coerces as a raw expression, whose first element is a symbol worth 0.
    assert_eq!(run_text("(- (+ 4 4) 1)"), "-1");
}

#[test]
fn boolean_forms_see_raw_nested_calls_as_truthy() {
    // A non-empty raw expression coerces to true without being evaluated.
    assert_eq!(run_text("(& (> 1 2) true)"), "true");
}

#[test]
fn multiplication_and_division() {
    assert_eq!(run_text("(* 6 7)"), "42");
    assert_eq!(run_text("(/ 17 5)"), "3");
    assert_eq!(run_text("(/ -17 5)"), "-3");
    assert_eq!(run_text("(% 17 5)"), "2");
}

#[test]
fn division_by_zero_yields_zero() {
    assert_eq!(run_text("(/ 1 0)"), "0");
    assert_eq!(run_text("(% 1 0)"), "0");
}

#[test]
fn addition_wraps_at_the_scalar_bound() {
    assert_eq!(run_text("(+ 9223372036854775807 1)"), "-9223372036854775808");
}

#[test]
fn comparison_chains() {
    assert_eq!(run_text("(> 3 2 1)"), "true");
    assert_eq!(run_text("(> 3 3)"), "false");
    assert_eq!(run_text("(>= 3 3 2)"), "true");
    assert_eq!(run_text("(< 1 2 3)"), "true");
}

#[test]
fn less_or_equal_applies_strict_less() {
    // The `<=` form compares its window pairs with strict less-than.
    assert_eq!(run_text("(<= 2 2)"), "false");
    assert_eq!(run_text("(<= 1 2)"), "true");
}

#[test]
fn equality_compares_renderings() {
    assert_eq!(run_text("(= 2 2)"), "true");
    assert_eq!(run_text("(= 2 3)"), "false");
    assert_eq!(run_text("(= \"a\" \"a\")"), "true");
    assert_eq!(run_text("(!= 2 3)"), "true");
}

#[test]
fn boolean_forms_use_raw_arguments() {
    assert_eq!(run_text("(& true true)"), "true");
    assert_eq!(run_text("(& true false)"), "false");
    assert_eq!(run_text("(| false true)"), "true");
    assert_eq!(run_text("(! true)"), "false");
}

#[test]
fn list_operations() {
    assert_eq!(run_text("(car [1 2 3])"), "1");
    assert_eq!(run_text("(car [])"), "null");
    assert_eq!(run_text("(cdr [1 2 3])"), "[2 3]");
    assert_eq!(run_text("(cdr [])"), "[]");
    assert_eq!(run_text("(len [1 2 3])"), "3");
    assert_eq!(run_text("(reverse [1 2 3])"), "[3 2 1]");
}

#[test]
fn range_builds_lists() {
    assert_eq!(run_text("(range 4)"), "[0 1 2 3]");
    assert_eq!(run_text("(range 2 5)"), "[2 3 4]");
    assert_eq!(run_text("(range 0 10 3)"), "[0 3 6 9]");
    assert_eq!(run_text("(range 0)"), "[]");
}

#[test]
fn range_rejects_non_positive_step() {
    let e = run("(range 0 5 0)").unwrap_err();
    assert_eq!(e.message(), "Runtime Error! range step must be positive");
}

#[test]
fn map_filter_reduce() {
    assert_eq!(run_text("(map [1 2 3] (lambda (n) (* n 2)))"), "[2 4 6]");
    assert_eq!(run_text("(filter [1 2 3 4] (lambda (n) (> n 2)))"), "[3 4]");
    assert_eq!(run_text("(reduce [1 2 3 4] +)"), "10");
    assert_eq!(run_text("(for [1 2 3] (lambda (n) n))"), "null");
}

#[test]
fn reduce_of_empty_list_is_runtime_error() {
    let e = run("(reduce [] +)").unwrap_err();
    assert_eq!(e.message(), "Runtime Error! passed list is empty");
}

#[test]
fn concat_and_repeat() {
    assert_eq!(run_text("(concat \"ab\" \"cd\" 1)"), "\"abcd1\"");
    assert_eq!(run_text("(repeat \"ab\" 3)"), "\"ababab\"");
    assert_eq!(run_text("(repeat \"ab\" -1)"), "\"\"");
}

#[test]
fn join_concatenates_with_separator() {
    assert_eq!(run_text("(join [1 2 3] \", \")"), "\"1, 2, 3\"");
    assert_eq!(run_text("(join [] \"-\")"), "\"\"");
    assert_eq!(run_text("(join [\"a\"] \"-\")"), "\"a\"");
}

#[test]
fn format_replaces_placeholders() {
    assert_eq!(run_text("(format \"a{}c\" \"b\")"), "\"abc\"");
    assert_eq!(run_text("(format \"{} and {}\" 1)"), "\"1 and 1\"");
    // The template stays unevaluated: a bare name is coerced as a symbol.
    assert_eq!(run_text("(define t \"x{}\") (format t 2)"), "\"t\"");
}

#[test]
fn split_cuts_at_separator() {
    assert_eq!(run_text("(split \"a,b,c\" \",\")"), "[\"a\" \"b\" \"c\"]");
    assert_eq!(run_text("(split \"aa\" \"a\")"), "[\"\" \"\" \"\"]");
    assert_eq!(run_text("(split \"ab\" \"\")"), "[\"\" \"a\" \"b\" \"\"]");
    assert_eq!(run_text("(split \"one--two\" \"--\")"), "[\"one\" \"two\"]");
}

#[test]
fn cast_between_kinds() {
    assert_eq!(run_text("(cast \"42\" \"number\")"), "42");
    assert_eq!(run_text("(cast 7 \"string\")"), "\"7\"");
    assert_eq!(run_text("(cast 0 \"bool\")"), "false");
    assert_eq!(run_text("(cast 5 \"list\")"), "[5]");
}

#[test]
fn cast_unknown_kind_is_runtime_error() {
    let e = run("(cast 5 \"widget\")").unwrap_err();
    assert_eq!(e.message(), "Runtime Error! unknown type name `widget`");
}

#[test]
fn type_names_raw_argument() {
    assert_eq!(run_text("(type 5)"), "\"number\"");
    assert_eq!(run_text("(type \"a\")"), "\"string\"");
    // The argument stays unevaluated, so a bare name reports as a symbol.
    assert_eq!(run_text("(define z 1) (type z)"), "\"symbol\"");
}

#[test]
fn cond_selects_first_truthy_clause() {
    assert_eq!(run_text("(cond [false 1] [true 2] [true 3])"), "2");
    assert_eq!(run_text("(cond [false 1])"), "null");
}

#[test]
fn eval_form_runs_each_argument() {
    assert_eq!(run_text("(eval (define w 3) (+ w 1))"), "4");
}

#[test]
fn quoted_symbol_bypasses_literal_parsing() {
    // A quoted name parses as a symbol even where the bare text would be a
    // boolean literal; unbound, it then evaluates to itself.
    let v = run("'true").unwrap();
    assert!(matches!(v, Type::Symbol(_)));
    assert_eq!(v.to_text(), "true");
}

#[test]
fn unbound_symbol_evaluates_to_itself() {
    let v = run("zzz").unwrap();
    assert!(matches!(v, Type::Symbol(_)));
    assert_eq!(v.to_text(), "zzz");
}

#[test]
fn deep_recursion_stops_with_runtime_error() {
    let e = run("(define (loop n) (loop n)) (loop 1)").unwrap_err();
    assert_eq!(e.message(), "Runtime Error! recursion limit reached");
}

#[test]
fn constants_are_bound() {
    assert_eq!(run_text("new-line"), "\"\n\"");
    assert_eq!(run_text("tab"), "\"\t\"");
    assert_eq!(run_text("double-quote"), "\"\"\"");
}
