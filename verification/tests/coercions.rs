use lazo::errors::LazoError;
use lazo::value::{Builtin, Function, Type};

fn sample_values() -> Vec<Type> {
    vec![
        Type::Number(7),
        Type::Str(String::from("2 ")),
        Type::Bool(true),
        Type::Symbol(String::from("name")),
        Type::List(vec![Type::Number(5), Type::Number(6)]),
        Type::Expr(vec![Type::Symbol(String::from("+")), Type::Number(1)]),
        Type::Function(Function::BuiltIn(Builtin::Add)),
        Type::Null,
    ]
}

#[test]
fn coercions_cover_every_variant() {
    // Totality: all four coercions yield a value for each of the eight
    // variants, with no error path.
    for v in sample_values() {
        let _ = v.get_number();
        let _ = v.get_string();
        let _ = v.get_bool();
        let _ = v.get_list();
        let _ = v.get_type();
    }
}

#[test]
fn numeric_coercion_values() {
    assert_eq!(Type::Number(7).get_number(), 7);
    assert_eq!(Type::Str(String::from(" 2 ")).get_number(), 2);
    assert_eq!(Type::Str(String::from("abc")).get_number(), 0);
    assert_eq!(Type::Symbol(String::from("-3")).get_number(), -3);
    assert_eq!(Type::Bool(true).get_number(), 1);
    assert_eq!(Type::Bool(false).get_number(), 0);
    assert_eq!(Type::List(vec![Type::Number(5), Type::Number(6)]).get_number(), 5);
    assert_eq!(Type::List(vec![]).get_number(), 0);
    assert_eq!(Type::Function(Function::BuiltIn(Builtin::Add)).get_number(), 0);
    assert_eq!(Type::Null.get_number(), 0);
}

#[test]
fn textual_coercion_values() {
    assert_eq!(Type::Number(7).get_string(), "7");
    assert_eq!(Type::Number(-7).get_string(), "-7");
    assert_eq!(Type::Str(String::from("hi")).get_string(), "hi");
    assert_eq!(Type::Bool(true).get_string(), "true");
    assert_eq!(Type::Symbol(String::from("s")).get_string(), "s");
    assert_eq!(Type::Null.get_string(), "null");
    assert_eq!(Type::List(vec![Type::Number(1)]).get_string(), "[1]");
    assert_eq!(Type::Expr(vec![Type::Number(1)]).get_string(), "(1)");
}

#[test]
fn boolean_coercion_values() {
    assert!(Type::Number(5).get_bool());
    assert!(!Type::Number(0).get_bool());
    assert!(Type::Str(String::from("x")).get_bool());
    assert!(!Type::Str(String::from("")).get_bool());
    assert!(Type::List(vec![Type::Null]).get_bool());
    assert!(!Type::List(vec![]).get_bool());
    assert!(Type::Bool(true).get_bool());
    assert!(!Type::Function(Function::BuiltIn(Builtin::Add)).get_bool());
    assert!(!Type::Null.get_bool());
}

#[test]
fn list_coercion_values() {
    assert_eq!(Type::List(vec![Type::Number(1), Type::Number(2)]).get_list().len(), 2);
    assert_eq!(Type::Expr(vec![Type::Number(1)]).get_list().len(), 1);
    let singleton = Type::Number(9).get_list();
    assert_eq!(singleton.len(), 1);
    assert!(matches!(singleton[0], Type::Number(9)));
}

#[test]
fn type_names() {
    assert_eq!(Type::Number(1).get_type(), "number");
    assert_eq!(Type::Str(String::new()).get_type(), "string");
    assert_eq!(Type::Bool(true).get_type(), "bool");
    assert_eq!(Type::Symbol(String::new()).get_type(), "symbol");
    assert_eq!(Type::List(vec![]).get_type(), "list");
    assert_eq!(Type::Expr(vec![]).get_type(), "expr");
    assert_eq!(Type::Function(Function::BuiltIn(Builtin::Add)).get_type(), "function");
    assert_eq!(Type::Null.get_type(), "null");
}

#[test]
fn closure_renders_as_lambda_form() {
    let f = Type::Function(Function::UserDefined(
        vec![Type::Symbol(String::from("n"))],
        vec![Type::Expr(vec![
            Type::Symbol(String::from("*")),
            Type::Symbol(String::from("n")),
            Type::Symbol(String::from("n")),
        ])],
    ));
    assert_eq!(f.to_text(), "(lambda (n) (* n n))");
}

#[test]
fn error_messages_render() {
    assert_eq!(
        LazoError::Runtime(String::from("x")).message(),
        "Runtime Error! x"
    );
    assert_eq!(
        LazoError::Syntax(String::from("y")).message(),
        "Syntax Error! y"
    );
    assert_eq!(
        LazoError::Function(0, 2).message(),
        "Function Error! the passed arguments length 0 is different to expected length 2 of the function's arguments"
    );
}
