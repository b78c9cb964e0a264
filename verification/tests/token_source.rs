use lfr::lexer::tokenize;
use lfr::parser::text_token_source::LexerWrap;
use lfr::parser::token_source::{FindProperty, ForwardToken, Token};
use lfr::syntax_kind::SyntaxKind;
use lfr::syntax_kind::SyntaxKind::{
    AMP, AMP2, AMP2_EQ, COMMENT, EOF, EQ, EQ_EQ, IDENT, INT_NUMBER, NEWLINE, PLUS, WHITESPACE,
};

fn token(kind: SyntaxKind, len: u32) -> Token {
    Token { syntax_kind: kind, len }
}

const NOT_FOUND: ForwardToken = ForwardToken { kind: EOF, offset: 0, state: 0 };

#[test]
fn new_leaves_out_trivia_and_keeps_line_breaks() {
    let tokens = tokenize("a /* b */ // c\n d");
    let source = LexerWrap::new(&tokens);
    assert_eq!(source.remaining(), 3);
    assert_eq!(source.current(), token(IDENT, 1));
    assert_eq!(source.lookahead(1), token(NEWLINE, 1));
    assert_eq!(source.lookahead(2), token(IDENT, 1));
    assert_eq!(source.lookahead(3), token(EOF, 0));
    assert_eq!(source.lookahead(usize::MAX), token(EOF, 0));
    assert_eq!(source.text_offset(0), Some(0));
    assert_eq!(source.text_offset(1), Some(14));
    assert_eq!(source.text_offset(2), Some(16));
    assert_eq!(source.text_offset(3), None);
}

#[test]
fn new_keeps_what_is_given() {
    let source = LexerWrap::new(&[token(WHITESPACE, 2), token(COMMENT, 3)]);
    assert_eq!(source.remaining(), 0);
    assert_eq!(source.current(), token(EOF, 0));
    let source = LexerWrap::new(&[]);
    assert_eq!(source.current(), token(EOF, 0));
    let source = LexerWrap::new(&[token(PLUS, 0), token(PLUS, u32::MAX)]);
    assert_eq!(source.remaining(), 2);
    assert_eq!(source.text_offset(1), Some(0));
}

#[test]
fn bump_moves_one_token_and_stays_at_the_end() {
    let tokens = tokenize("a b");
    let mut source = LexerWrap::new(&tokens);
    assert_eq!(source.current(), token(IDENT, 1));
    source.bump();
    assert_eq!(source.current(), token(IDENT, 1));
    assert_eq!(source.remaining(), 1);
    source.bump();
    assert_eq!(source.current(), token(EOF, 0));
    assert_eq!(source.remaining(), 0);
    source.bump();
    assert_eq!(source.current(), token(EOF, 0));
    assert_eq!(source.remaining(), 0);
}

#[test]
fn tokens_are_joint_where_nothing_stands_between() {
    let tokens = tokenize("a == b= =c");
    let source = LexerWrap::new(&tokens);
    assert!(!source.is_joint(0));
    assert!(source.is_joint(1));
    assert!(!source.is_joint(2));
    assert!(source.is_joint(3));
    assert!(!source.is_joint(4));
    assert!(source.is_joint(5));
    assert!(!source.is_joint(6));
    assert!(!source.is_joint(7));
    assert!(source.lookahead_is(1, EQ_EQ));
    assert!(source.lookahead_is(1, EQ));
    assert!(source.lookahead_is(2, EQ));
    assert!(!source.lookahead_is(2, EQ_EQ));
    assert!(!source.lookahead_is(4, EQ_EQ));
    assert!(source.lookahead_is(7, EOF));
    assert!(!source.lookahead_is(6, EOF));
}

#[test]
fn find_kind_is() {
    let tokens = tokenize("a = b == c");
    let mut source = LexerWrap::new(&tokens);
    assert_eq!(
        source.find(FindProperty::KindIs(EQ_EQ)),
        ForwardToken { kind: EQ, offset: 3, state: 0 }
    );
    assert_eq!(
        source.find(FindProperty::KindIs(EQ)),
        ForwardToken { kind: EQ, offset: 1, state: 0 }
    );
    assert_eq!(
        source.find(FindProperty::KindIs(IDENT)),
        ForwardToken { kind: IDENT, offset: 0, state: 0 }
    );
    assert_eq!(source.find(FindProperty::KindIs(PLUS)), NOT_FOUND);
    source.bump();
    source.bump();
    assert_eq!(
        source.find(FindProperty::KindIs(EQ_EQ)),
        ForwardToken { kind: EQ, offset: 1, state: 2 }
    );
    assert_eq!(
        source.find(FindProperty::KindIs(EQ)),
        ForwardToken { kind: EQ, offset: 1, state: 2 }
    );
}

#[test]
fn find_does_not_fuse_across_trivia() {
    let tokens = tokenize("a = = b");
    let source = LexerWrap::new(&tokens);
    assert_eq!(source.find(FindProperty::KindIs(EQ_EQ)), NOT_FOUND);
    assert_eq!(source.find(FindProperty::In(&[EQ_EQ])), NOT_FOUND);
    assert_eq!(
        source.find(FindProperty::KindIsNot(EQ_EQ)),
        ForwardToken { kind: IDENT, offset: 0, state: 0 }
    );
}

#[test]
fn find_kind_is_not() {
    let tokens = tokenize("\n\n\n+ 1");
    let mut source = LexerWrap::new(&tokens);
    assert_eq!(
        source.find(FindProperty::KindIsNot(NEWLINE)),
        ForwardToken { kind: PLUS, offset: 3, state: 0 }
    );
    source.bump();
    assert_eq!(
        source.find(FindProperty::KindIsNot(NEWLINE)),
        ForwardToken { kind: PLUS, offset: 2, state: 1 }
    );
    let tokens = tokenize("\n\n");
    let source = LexerWrap::new(&tokens);
    assert_eq!(source.find(FindProperty::KindIsNot(NEWLINE)), NOT_FOUND);
}

#[test]
fn find_in_and_not_in() {
    let tokens = tokenize("a == 1 = b");
    let source = LexerWrap::new(&tokens);
    assert_eq!(
        source.find(FindProperty::In(&[INT_NUMBER, EQ_EQ])),
        ForwardToken { kind: EQ_EQ, offset: 1, state: 0 }
    );
    assert_eq!(
        source.find(FindProperty::In(&[EQ, EQ_EQ])),
        ForwardToken { kind: EQ, offset: 1, state: 0 }
    );
    assert_eq!(
        source.find(FindProperty::In(&[INT_NUMBER])),
        ForwardToken { kind: INT_NUMBER, offset: 3, state: 0 }
    );
    assert_eq!(source.find(FindProperty::In(&[PLUS])), NOT_FOUND);
    assert_eq!(source.find(FindProperty::In(&[])), NOT_FOUND);
    assert_eq!(
        source.find(FindProperty::NotIn(&[IDENT, EQ_EQ])),
        ForwardToken { kind: EQ, offset: 2, state: 0 }
    );
    assert_eq!(
        source.find(FindProperty::NotIn(&[IDENT, EQ])),
        ForwardToken { kind: INT_NUMBER, offset: 3, state: 0 }
    );
    assert_eq!(source.find(FindProperty::NotIn(&[IDENT, EQ, INT_NUMBER])), NOT_FOUND);
    assert_eq!(
        source.find(FindProperty::NotIn(&[])),
        ForwardToken { kind: IDENT, offset: 0, state: 0 }
    );
}

#[test]
fn find_composites_of_three() {
    let raw = [token(AMP, 1), token(AMP, 1), token(AMP, 1), token(EQ, 1)];
    let source = LexerWrap::new(&raw);
    assert_eq!(
        source.find(FindProperty::KindIs(AMP2_EQ)),
        ForwardToken { kind: AMP, offset: 1, state: 0 }
    );
    assert_eq!(
        source.find(FindProperty::In(&[AMP2_EQ, AMP2])),
        ForwardToken { kind: AMP2, offset: 0, state: 0 }
    );
    let apart = [token(AMP, 1), token(AMP, 1), token(WHITESPACE, 1), token(EQ, 1)];
    let source = LexerWrap::new(&apart);
    assert_eq!(source.find(FindProperty::KindIs(AMP2_EQ)), NOT_FOUND);
    assert_eq!(
        source.find(FindProperty::KindIs(AMP2)),
        ForwardToken { kind: AMP, offset: 0, state: 0 }
    );
}

#[test]
fn find_at_the_end_finds_nothing() {
    let tokens = tokenize("a");
    let mut source = LexerWrap::new(&tokens);
    source.bump();
    assert_eq!(source.find(FindProperty::KindIs(EOF)), NOT_FOUND);
    assert_eq!(source.find(FindProperty::KindIsNot(IDENT)), NOT_FOUND);
}

#[test]
fn bump_to_counts_the_tokens_on_the_way() {
    let tokens = tokenize("\n\n\n+ 1");
    let mut source = LexerWrap::new(&tokens);
    let found = source.find(FindProperty::KindIs(PLUS));
    assert_eq!(source.bump_to(found), 3);
    source.bump();
    assert_eq!(source.bump_to(found), 2);
    source.bump();
    source.bump();
    assert_eq!(source.bump_to(found), 0);
    source.bump();
    assert_eq!(source.bump_to(found), 0);
    assert_eq!(source.bump_to(NOT_FOUND), 0);
    assert_eq!(source.bump_to(ForwardToken::default()), 0);
    assert_eq!(
        source.bump_to(ForwardToken { kind: PLUS, offset: usize::MAX, state: usize::MAX }),
        0
    );
    assert_eq!(source.bump_to(ForwardToken { kind: PLUS, offset: 7, state: 2 }), 5);
}
