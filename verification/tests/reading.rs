use lazo::lexer::tokenize;
use lazo::parser::parse;
use lazo::value::Type;

fn tokens_of(src: &str) -> Vec<String> {
    tokenize(String::from(src)).expect("tokenize failed")
}

fn parse_one(token: &str) -> Type {
    parse(String::from(token)).expect("parse failed")
}

#[test]
fn whitespace_splits_only_at_depth_zero() {
    let ts = tokens_of("(+ 1 2) [a b] \"x y\" 7");
    assert_eq!(ts, vec!["(+ 1 2)", "[a b]", "\"x y\"", "7"]);
}

#[test]
fn full_width_space_splits_tokens() {
    let ts = tokens_of("a\u{3000}b");
    assert_eq!(ts, vec!["a", "b"]);
}

#[test]
fn newline_tab_and_return_split_tokens() {
    let ts = tokens_of("a\nb\tc\rd");
    assert_eq!(ts, vec!["a", "b", "c", "d"]);
}

#[test]
fn nested_forms_stay_one_token() {
    let ts = tokens_of("(a (b c) [d e])");
    assert_eq!(ts, vec!["(a (b c) [d e])"]);
}

#[test]
fn parse_literals() {
    assert!(matches!(parse_one("42"), Type::Number(42)));
    assert!(matches!(parse_one("-7"), Type::Number(-7)));
    assert!(matches!(parse_one("+7"), Type::Number(7)));
    assert!(matches!(parse_one("true"), Type::Bool(true)));
    assert!(matches!(parse_one("false"), Type::Bool(false)));
    assert!(matches!(parse_one("null"), Type::Null));
    assert!(matches!(parse_one("\"hi\""), Type::Str(_)));
    assert!(matches!(parse_one("hi"), Type::Symbol(_)));
    assert!(matches!(parse_one("(a b)"), Type::Expr(_)));
    assert!(matches!(parse_one("[a b]"), Type::List(_)));
}

#[test]
fn parse_trims_surrounding_whitespace() {
    assert!(matches!(parse_one("  42\t"), Type::Number(42)));
}

#[test]
fn parse_strips_string_quotes_verbatim() {
    match parse_one("\"a b\"") {
        Type::Str(s) => assert_eq!(s, "a b"),
        _ => panic!("expected a string"),
    }
}

#[test]
fn empty_forms_parse_empty() {
    match parse_one("()") {
        Type::Expr(items) => assert!(items.is_empty()),
        _ => panic!("expected an expression"),
    }
    match parse_one("[]") {
        Type::List(items) => assert!(items.is_empty()),
        _ => panic!("expected a list"),
    }
}

#[test]
fn render_reparses_to_equal_value() {
    // One rendering round-trip is stable for each readable form.
    for src in [
        "42", "-5", "true", "false", "null", "\"hi there\"", "plus", "(a b (c 1))",
        "[1 [2 3] \"x\"]", "()", "[]",
    ] {
        let v = parse_one(src);
        let text = v.to_text();
        let w = parse_one(&text);
        assert_eq!(w.to_text(), text);
    }
}

#[test]
fn render_of_parsed_source_is_canonical() {
    let v = parse_one("( a  1   [2  3] )");
    assert_eq!(v.to_text(), "(a 1 [2 3])");
}

#[test]
fn oversized_numeric_literal_stays_symbolic() {
    // A literal beyond the 64-bit scalar is read as a symbol, not a number.
    assert!(matches!(parse_one("99999999999999999999"), Type::Symbol(_)));
}
