use toyc::lexer::{LiteralKind, Span, SpannedToken, SpannedTokens, Token};

fn lex_all(input: &str) -> Vec<SpannedToken> {
    let mut tokens = SpannedTokens::new(input.as_bytes().to_vec());
    let mut out = Vec::new();
    while let Some(st) = tokens.next() {
        out.push(st);
    }
    out
}

#[test]
fn empty() {
    let input = "";

    let mut tokens = SpannedTokens::new(input.as_bytes().to_vec());

    assert_eq!(tokens.next(), None);
}

fn test_single_token(input: &str, token: Token) {
    let expected_result = SpannedToken::new(token, Span::new(0, input.len()));

    let mut tokens = SpannedTokens::new(input.as_bytes().to_vec());

    assert_eq!(tokens.next(), Some(expected_result));
    assert_eq!(tokens.next(), None);
    assert_eq!(tokens.next(), None);
}

#[test]
fn single_key_tokens() {
    test_single_token(";", Token::Semicolon);
    test_single_token(",", Token::Comma);
    test_single_token(":", Token::Colon);
    test_single_token("(", Token::OpenParentheses);
    test_single_token(")", Token::CloseParentheses);
    test_single_token("{", Token::OpenBrace);
    test_single_token("}", Token::CloseBrace);
    test_single_token("=", Token::Equals);
    test_single_token("==", Token::DoubleEquals);
    test_single_token("=>", Token::FatArrow);
    test_single_token("->", Token::Arrow);
    test_single_token("fn", Token::Function);
    test_single_token("let", Token::Let);
}

#[test]
fn parse_single_identifiers() {
    for c in 'a'..='z' {
        test_single_token(&c.to_string(), Token::Identifier);
    }
    for c in 'A'..='Z' {
        test_single_token(&c.to_string(), Token::Identifier);
    }
    test_single_token("_", Token::Identifier);
    test_single_token("_a_aZz1234LASdj_kf___", Token::Identifier);
    test_single_token("_0", Token::Identifier);
}

#[test]
fn parse_single_numbers() {
    for c in '0'..='9' {
        let input = c.to_string();
        test_single_token(
            &input,
            Token::Literal(LiteralKind::Integer { suffix_offset: None }),
        );
    }
    let input = "0123456789";
    test_single_token(
        input,
        Token::Literal(LiteralKind::Integer { suffix_offset: None }),
    );
    let input = "9876543210123456789";
    test_single_token(
        input,
        Token::Literal(LiteralKind::Integer { suffix_offset: None }),
    );
    let input = "0______1_2_3_4_5_6_7_8_9_____";
    test_single_token(
        input,
        Token::Literal(LiteralKind::Integer { suffix_offset: None }),
    );
    let input = "0_AnI_d42_f";
    test_single_token(
        input,
        Token::Literal(LiteralKind::Integer { suffix_offset: Some(2) }),
    );
    let input = "0_for";
    test_single_token(
        input,
        Token::Literal(LiteralKind::Integer { suffix_offset: Some(2) }),
    );
    let input = "01234_for";
    test_single_token(
        input,
        Token::Literal(LiteralKind::Integer { suffix_offset: Some(6) }),
    );
}

#[test]
fn test_function() {
    let src = "fn blerg() -> i32 { 5 }";

    let expected = vec![
        SpannedToken::new(Token::Function, Span::new(0, 2)),
        SpannedToken::new(Token::WhiteSpace, Span::new(2, 1)),
        SpannedToken::new(Token::Identifier, Span::new(3, 5)),
        SpannedToken::new(Token::OpenParentheses, Span::new(8, 1)),
        SpannedToken::new(Token::CloseParentheses, Span::new(9, 1)),
        SpannedToken::new(Token::WhiteSpace, Span::new(10, 1)),
        SpannedToken::new(Token::Arrow, Span::new(11, 2)),
        SpannedToken::new(Token::WhiteSpace, Span::new(13, 1)),
        SpannedToken::new(Token::Identifier, Span::new(14, 3)),
        SpannedToken::new(Token::WhiteSpace, Span::new(17, 1)),
        SpannedToken::new(Token::OpenBrace, Span::new(18, 1)),
        SpannedToken::new(Token::WhiteSpace, Span::new(19, 1)),
        SpannedToken::new(
            Token::Literal(LiteralKind::Integer { suffix_offset: None }),
            Span::new(20, 1),
        ),
        SpannedToken::new(Token::WhiteSpace, Span::new(21, 1)),
        SpannedToken::new(Token::CloseBrace, Span::new(22, 1)),
    ];

    let result = lex_all(src);

    for (result, expected) in result.iter().zip(expected) {
        assert_eq!(*result, expected);
    }
}

// The lexer never fails: bytes no token matches come out as Unknown tokens.
#[test]
fn unknown_bytes_become_unknown_tokens() {
    let result = lex_all("@");
    assert_eq!(result.len(), 1);
    assert_eq!(result[0].token, Token::Unknown);
    assert_eq!(result[0].span, Span::new(0, 1));
}

// The numeric part and the suffix of a literal are recovered by re-slicing
// the source with the parts of the token's span.
#[test]
fn literal_suffix_parts() {
    let src = "0_AnI_d42_f";
    let result = lex_all(src);
    assert_eq!(result.len(), 1);
    match result[0].token {
        Token::Literal(LiteralKind::Integer { suffix_offset: Some(off) }) => {
            assert_eq!(off, 2);
            assert_eq!(&src[0..off], "0_");
            assert_eq!(&src[off..result[0].span.len], "AnI_d42_f");
        }
        other => panic!("expected a suffixed integer literal, found {:?}", other),
    }
}

// Keyword lookup happens only after the whole identifier run is consumed.
#[test]
fn keyword_prefix_is_identifier() {
    test_single_token("fnx", Token::Identifier);
    test_single_token("letter", Token::Identifier);
    test_single_token("iffy", Token::Identifier);
    test_single_token("if", Token::If);
    test_single_token("else", Token::Else);
    test_single_token("return", Token::Return);
    test_single_token("true", Token::True);
    test_single_token("false", Token::False);
}
