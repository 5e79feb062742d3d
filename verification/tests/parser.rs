use toyc::ast::{ExpressionKind, Literal, Statement};
use toyc::lexer::Token;
use toyc::parser::{parse_root_module, ParseError};

fn parse(src: &str) -> Result<toyc::ast::ModuleStatement, ParseError> {
    parse_root_module(&src.as_bytes().to_vec())
}

#[test]
fn parses_trivial_integer_functions() {
    assert!(parse("fn main() => 42").is_ok());
    assert!(parse("fn main() => -42").is_ok());
}

#[test]
fn parses_unary_and_binary_expressions() {
    assert!(parse("fn main() => 42 + 10").is_ok());
    assert!(parse("fn main() => -42 + 10").is_ok());
    assert!(parse("fn main() => 42 + -10").is_ok());
    assert!(parse("fn main() => -42 + -10").is_ok());
    assert!(parse("fn main() => 42 * -10").is_ok());
    assert!(parse("fn main() => 42 * -10 + 4 -3 +25").is_ok());
}

#[test]
fn parses_argument_function() {
    assert!(parse("fn main(x) => 2").is_ok());
    assert!(parse("fn main(x) => x").is_ok());
    assert!(parse("fn main(x) => x * 2").is_ok());
}

#[test]
fn mod_it_works() {
    let src = "fn blerg() -> i32 { 5 }";

    parse(src).unwrap();
}

#[test]
fn lib_it_works() {
    assert_eq!(2 + 2, 4);
}

// One function named main, no parameters, whose body is the literal 42.
#[test]
fn single_function_structure() {
    let src = "fn main() => 42";
    let module = parse(src).unwrap();
    assert_eq!(module.statements.len(), 1);
    match &module.statements[0] {
        Statement::FunctionDefinition(f) => {
            let id = f.id.span;
            assert_eq!(&src[id.offset..id.offset + id.len], "main");
            assert_eq!(f.parameters.len(), 0);
            assert!(f.return_id.is_none());
            match &f.body.kind {
                ExpressionKind::Literal(Literal::Int { literal, suffix }) => {
                    assert_eq!(&src[literal.offset..literal.offset + literal.len], "42");
                    assert!(suffix.is_none());
                }
                other => panic!("expected an integer literal body, found {:?}", other),
            }
        }
        other => panic!("expected a function definition, found {:?}", other),
    }
}

// An expression's span covers exactly its source text, and reparsing the
// source recovered through spans yields a structurally identical tree.
#[test]
fn span_recovery_round_trip() {
    let src = "fn main() => 42 * -10 + 4 - 3 + 25";
    let module = parse(src).unwrap();
    let body_span = match &module.statements[0] {
        Statement::FunctionDefinition(f) => f.body.span,
        other => panic!("expected a function definition, found {:?}", other),
    };
    let body_text = &src[body_span.offset..body_span.offset + body_span.len];
    assert_eq!(body_text, "42 * -10 + 4 - 3 + 25");

    let rebuilt = format!("{}{}{}", &src[..body_span.offset], body_text, &src[
        body_span.offset + body_span.len..]);
    assert_eq!(rebuilt, src);
    let module2 = parse(&rebuilt).unwrap();
    assert_eq!(format!("{:?}", module), format!("{:?}", module2));
}

#[test]
fn empty_input_is_an_empty_module() {
    let module = parse("").unwrap();
    assert_eq!(module.statements.len(), 0);
}

#[test]
fn error_unexpected_end_of_input() {
    match parse("fn main() =>") {
        Err(ParseError::UnexpectedEndOfInput { .. }) => {}
        other => panic!("expected the input to end too early, found {:?}", other),
    }
}

#[test]
fn error_unexpected_token() {
    match parse("fn main() => )") {
        Err(ParseError::UnexpectedToken { .. }) => {}
        other => panic!("expected an unexpected-token error, found {:?}", other),
    }
}

#[test]
fn error_extra_token() {
    match parse("fn main() => 42 42") {
        Err(ParseError::ExtraToken { .. }) => {}
        other => panic!("expected an extra-token error, found {:?}", other),
    }
}

#[test]
fn error_invalid_token() {
    match parse("fn main() => @") {
        Err(ParseError::InvalidToken { .. }) => {}
        other => panic!("expected an invalid-token error, found {:?}", other),
    }
}

// Precedence: multiplication binds tighter than addition, so the top of
// `1 + 2 * 3` is the addition.
#[test]
fn precedence_shapes_the_tree() {
    let src = "fn main() => 1 + 2 * 3";
    let module = parse(src).unwrap();
    match &module.statements[0] {
        Statement::FunctionDefinition(f) => match &f.body.kind {
            ExpressionKind::Binary(b) => {
                assert_eq!(format!("{:?}", b.operator), "Plus");
                match &b.right.kind {
                    ExpressionKind::Binary(inner) => {
                        assert_eq!(format!("{:?}", inner.operator), "Multiplication");
                    }
                    other => panic!("expected a product on the right, found {:?}", other),
                }
            }
            other => panic!("expected a sum at the top, found {:?}", other),
        },
        other => panic!("expected a function definition, found {:?}", other),
    }
}

// Parenthesized expressions keep the parentheses inside their span.
#[test]
fn parenthesized_expression_span() {
    let src = "fn main() => (1 + 2) * 3";
    let module = parse(src).unwrap();
    match &module.statements[0] {
        Statement::FunctionDefinition(f) => match &f.body.kind {
            ExpressionKind::Binary(b) => {
                let left = b.left.span;
                assert_eq!(&src[left.offset..left.offset + left.len], "(1 + 2)");
            }
            other => panic!("expected a product at the top, found {:?}", other),
        },
        other => panic!("expected a function definition, found {:?}", other),
    }
}

// The word forms and the symbol forms of the logical operators parse alike,
// and comparisons sit between arithmetic and conjunction.
#[test]
fn logical_and_comparison_operators() {
    assert!(parse("fn f(a: bool, b: bool): bool => a && b || not a;").is_ok());
    assert!(parse("fn f(a: bool, b: bool): bool => a and b or !a;").is_ok());
    assert!(parse("fn f(x: i32, y: i32): bool => x + 1 < y * 2;").is_ok());
    assert!(parse("fn f(x: i32, y: i32): bool => x == y;").is_ok());
    assert!(parse("fn f(x: i32, y: i32): bool => x >= y;").is_ok());
    assert!(parse("fn f(x: i32, y: i32): bool => x <= y;").is_ok());
}

// The whitespace-filtering token stream drops whitespace and nothing else.
#[test]
fn tokenize_filters_whitespace() {
    let tokens = toyc::parser::tokenize(&b"fn  x".to_vec());
    assert_eq!(tokens.len(), 2);
    assert_eq!(tokens[0].token, Token::Function);
    assert_eq!(tokens[1].token, Token::Identifier);
    assert_eq!(tokens[1].span.offset, 4);
}

// Calls and indexing chain as postfix forms.
#[test]
fn postfix_chains() {
    assert!(parse("fn f() => g()(1)[2];").is_ok());
    assert!(parse("fn f() => [1, 2, 3][0];").is_ok());
    assert!(parse("fn f() => [];").is_ok());
}
