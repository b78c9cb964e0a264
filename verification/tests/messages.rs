use lfr::parser::error::ParseError;
use lfr::parser::parse;
use lfr::syntax_kind::SyntaxKind;

#[test]
fn complaints_in_words() {
    assert_eq!(
        ParseError::Expected { expected: SyntaxKind::R_PAREN, got: SyntaxKind::EOF }.message(),
        "expected R_PAREN, got EOF"
    );
    assert_eq!(ParseError::Unexpected { got: SyntaxKind::ERROR }.message(), "Unexpected ERROR");
    assert_eq!(
        ParseError::SeparatorOrTerminator {
            separator: SyntaxKind::COMMA,
            terminator: SyntaxKind::R_BRACK,
            got: SyntaxKind::INT_NUMBER
        }
        .message(),
        "expected COMMA or R_BRACK, got INT_NUMBER"
    );
}

#[test]
fn complaints_of_a_parse_in_words() {
    let (_, errors) = parse("f(1 2\n@");
    let messages: Vec<(String, u32)> =
        errors.iter().map(|(error, at)| (error.message(), *at)).collect();
    assert_eq!(
        messages,
        vec![
            ("expected COMMA or R_PAREN, got INT_NUMBER".to_string(), 3),
            ("expected COMMA or R_PAREN, got ERROR".to_string(), 6),
            ("Unexpected ERROR".to_string(), 6),
            ("expected COMMA or R_PAREN, got EOF".to_string(), 7),
            ("expected R_PAREN, got EOF".to_string(), 7),
        ]
    );
}
