use lfr::lexer::{tokenize, Lexer, Tk};
use lfr::parser::token_source::Token;
use lfr::span::Span;
use lfr::syntax_kind::SyntaxKind;
use lfr::syntax_kind::SyntaxKind::{
    ASTERISK, AS_KW, BANG, BLOCK_COMMENT, BREAK_KW, COLON, COMMA, COMMENT, CONTINUE_KW, DOT, ELSE_KW, EQ, ERROR, FALSE_KW, FN_KW, FOR_KW, IDENT, IF_KW, IMPORT_KW, INT_NUMBER, IN_KW, LET_KW, L_ANGLE, L_BRACK, L_CURLY, L_PAREN, MINUS, MULTILINE_STR, NEWLINE, PERCENT, PLUS, QMARK, RETURN_KW, R_ANGLE, R_BRACK, R_CURLY, R_PAREN, SEMICOLON, SLASH, STR, TRUE_KW, WHILE_KW, WHITESPACE,
};

fn lexed(text: &str) -> Vec<(SyntaxKind, u32)> {
    let tokens = tokenize(text);
    let total: u32 = tokens.iter().map(|token| token.len).sum();
    assert_eq!(total as usize, text.len());
    let mut at = 0usize;
    for token in &tokens {
        assert!(token.len > 0);
        at += token.len as usize;
        assert!(text.is_char_boundary(at));
    }
    tokens.iter().map(|token| (token.syntax_kind, token.len)).collect()
}

fn kinds(text: &str) -> Vec<SyntaxKind> {
    lexed(text).into_iter().map(|(kind, _)| kind).filter(|kind| *kind != WHITESPACE).collect()
}

#[test]
fn keywords_are_told_from_names() {
    assert_eq!(
        kinds("fn let if else foreach continue break return true false import as in while"),
        vec![
            FN_KW, LET_KW, IF_KW, ELSE_KW, FOR_KW, CONTINUE_KW, BREAK_KW, RETURN_KW, TRUE_KW,
            FALSE_KW, IMPORT_KW, AS_KW, IN_KW, WHILE_KW
        ]
    );
    assert_eq!(kinds("for self fnx _if iff In"), vec![IDENT, IDENT, IDENT, IDENT, IDENT, IDENT]);
    assert_eq!(lexed("a_B9 _"), vec![(IDENT, 4), (WHITESPACE, 1), (IDENT, 1)]);
}

#[test]
fn numbers() {
    assert_eq!(lexed("0"), vec![(INT_NUMBER, 1)]);
    assert_eq!(lexed("42"), vec![(INT_NUMBER, 2)]);
    assert_eq!(lexed("0x1Fa"), vec![(INT_NUMBER, 5)]);
    assert_eq!(lexed("0b101"), vec![(INT_NUMBER, 5)]);
    assert_eq!(lexed("017"), vec![(INT_NUMBER, 3)]);
    assert_eq!(lexed("08"), vec![(INT_NUMBER, 1), (INT_NUMBER, 1)]);
    assert_eq!(lexed("0u"), vec![(INT_NUMBER, 2)]);
    assert_eq!(lexed("1UL"), vec![(INT_NUMBER, 3)]);
    assert_eq!(lexed("7l"), vec![(INT_NUMBER, 2)]);
    assert_eq!(lexed("0xg"), vec![(INT_NUMBER, 1), (IDENT, 2)]);
    assert_eq!(lexed("0b2"), vec![(INT_NUMBER, 1), (IDENT, 2)]);
    assert_eq!(lexed("9lu"), vec![(INT_NUMBER, 2), (IDENT, 1)]);
    assert_eq!(lexed("0xFFul"), vec![(INT_NUMBER, 6)]);
    assert_eq!(lexed("12ab"), vec![(INT_NUMBER, 2), (IDENT, 2)]);
}

#[test]
fn strings() {
    assert_eq!(lexed("'a'"), vec![(STR, 3)]);
    assert_eq!(lexed("'a\\'b'"), vec![(STR, 6)]);
    assert_eq!(lexed("'\\n\\t\\\\'"), vec![(STR, 8)]);
    assert_eq!(lexed("'a\nb'"), vec![(STR, 5)]);
    assert_eq!(lexed("''"), vec![(ERROR, 1), (ERROR, 1)]);
    assert_eq!(lexed("'abc"), vec![(ERROR, 1), (IDENT, 3)]);
    assert_eq!(
        lexed("'a\\x'"),
        vec![(ERROR, 1), (IDENT, 1), (ERROR, 1), (IDENT, 1), (ERROR, 1)]
    );
    assert_eq!(lexed("'ü'"), vec![(STR, 4)]);
}

#[test]
fn multiline_strings() {
    assert_eq!(lexed("'''a'b''c'''"), vec![(MULTILINE_STR, 12)]);
    assert_eq!(lexed("''''''"), vec![(MULTILINE_STR, 6)]);
    assert_eq!(lexed("'''a\nb'''x"), vec![(MULTILINE_STR, 9), (IDENT, 1)]);
    assert_eq!(lexed("'''a''''"), vec![(MULTILINE_STR, 7), (ERROR, 1)]);
    assert_eq!(lexed("'''a"), vec![(ERROR, 1), (ERROR, 1), (ERROR, 1), (IDENT, 1)]);
}

#[test]
fn comments() {
    assert_eq!(lexed("// c\nx"), vec![(COMMENT, 4), (NEWLINE, 1), (IDENT, 1)]);
    assert_eq!(lexed("//"), vec![(COMMENT, 2)]);
    assert_eq!(lexed("/* a */"), vec![(BLOCK_COMMENT, 7)]);
    assert_eq!(lexed("/**/"), vec![(BLOCK_COMMENT, 4)]);
    assert_eq!(lexed("/***/"), vec![(BLOCK_COMMENT, 5)]);
    assert_eq!(lexed("/* a\n * b **/x"), vec![(BLOCK_COMMENT, 13), (IDENT, 1)]);
    assert_eq!(
        lexed("/* a */ b */"),
        vec![
            (BLOCK_COMMENT, 7),
            (WHITESPACE, 1),
            (IDENT, 1),
            (WHITESPACE, 1),
            (ASTERISK, 1),
            (SLASH, 1)
        ]
    );
}

#[test]
fn block_comment_that_is_not_closed() {
    assert_eq!(lexed("/* oops"), vec![(ERROR, 7)]);
    assert_eq!(lexed("/*"), vec![(ERROR, 2)]);
    assert_eq!(lexed("/*/"), vec![(ERROR, 3)]);
    assert_eq!(lexed("/**"), vec![(ERROR, 3)]);
    assert_eq!(lexed("/* a **"), vec![(ERROR, 6), (ASTERISK, 1)]);
    assert_eq!(lexed("/* a * b"), vec![(ERROR, 8)]);
}

#[test]
fn punctuation_and_blanks() {
    assert_eq!(
        kinds("+ - * / % > < = ! ( ) [ ] { } . : ? ; ,"),
        vec![
            PLUS, MINUS, ASTERISK, SLASH, PERCENT, R_ANGLE, L_ANGLE, EQ, BANG, L_PAREN, R_PAREN,
            L_BRACK, R_BRACK, L_CURLY, R_CURLY, DOT, COLON, QMARK, SEMICOLON, COMMA
        ]
    );
    assert_eq!(lexed("=="), vec![(EQ, 1), (EQ, 1)]);
    assert_eq!(lexed("<="), vec![(L_ANGLE, 1), (EQ, 1)]);
    assert_eq!(lexed(" \t\r"), vec![(WHITESPACE, 3)]);
    assert_eq!(lexed("\r\n\n"), vec![(WHITESPACE, 1), (NEWLINE, 1), (NEWLINE, 1)]);
    assert_eq!(lexed("a/b"), vec![(IDENT, 1), (SLASH, 1), (IDENT, 1)]);
}

#[test]
fn what_starts_no_token_is_an_error_of_one_character() {
    assert_eq!(lexed("@"), vec![(ERROR, 1)]);
    assert_eq!(lexed("&|^#$~`\"\\"), vec![(ERROR, 1); 9]);
    assert_eq!(lexed("é"), vec![(ERROR, 2)]);
    assert_eq!(lexed("日本"), vec![(ERROR, 3), (ERROR, 3)]);
    assert_eq!(lexed("a😀b"), vec![(IDENT, 1), (ERROR, 4), (IDENT, 1)]);
}

#[test]
fn empty_text_has_no_tokens() {
    assert_eq!(tokenize(""), Vec::<Token>::new());
}

#[test]
fn lexer_hands_out_spans() {
    let mut lexer = Lexer::new("let x");
    assert_eq!(lexer.next(), Some((LET_KW, Span { start: 0, end: 3 })));
    assert_eq!(lexer.next(), Some((WHITESPACE, Span { start: 3, end: 4 })));
    assert_eq!(lexer.next(), Some((IDENT, Span { start: 4, end: 5 })));
    assert_eq!(lexer.next(), None);
    assert_eq!(lexer.next(), None);
}

#[test]
fn token_classes_have_kinds() {
    assert_eq!(SyntaxKind::from(Tk::Ident), IDENT);
    assert_eq!(SyntaxKind::from(Tk::ForeachKw), FOR_KW);
    assert_eq!(SyntaxKind::from(Tk::LBrace), L_CURLY);
    assert_eq!(SyntaxKind::from(Tk::Newline), NEWLINE);
    assert_eq!(SyntaxKind::from(Tk::Error), ERROR);
    assert_eq!(SyntaxKind::from(Tk::MultilineStr), MULTILINE_STR);
    let kind: SyntaxKind = Tk::WhileKw.into();
    assert_eq!(kind, WHILE_KW);
}

#[test]
fn span_length() {
    assert_eq!(Span::new(3, 10).len(), 7);
    assert_eq!(Span::new(4, 4).len(), 0);
    assert_eq!(Span::default(), Span { start: 0, end: 0 });
}
