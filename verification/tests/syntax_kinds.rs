use lfr::syntax_kind::{LfrLanguage, SyntaxKind, LAST_RAW};

#[test]
fn raw_values_are_the_places_in_the_list() {
    assert_eq!(SyntaxKind::TOMBSTONE.to_raw(), 0);
    assert_eq!(SyntaxKind::EOF.to_raw(), 1);
    assert_eq!(SyntaxKind::SEMICOLON.to_raw(), 2);
    assert_eq!(SyntaxKind::R_ANGLE_EQ.to_raw(), 40);
    assert_eq!(SyntaxKind::COLON2.to_raw(), 41);
    assert_eq!(SyntaxKind::FN_KW.to_raw(), 42);
    assert_eq!(SyntaxKind::AS_KW.to_raw(), 56);
    assert_eq!(SyntaxKind::INT_NUMBER.to_raw(), 57);
    assert_eq!(SyntaxKind::ERROR.to_raw(), 62);
    assert_eq!(SyntaxKind::NEWLINE.to_raw(), 69);
    assert_eq!(SyntaxKind::ROOT.to_raw(), 70);
    assert_eq!(SyntaxKind::DECLARATION_STMT.to_raw(), 101);
    assert_eq!(SyntaxKind::__LAST.to_raw(), 102);
    assert_eq!(LAST_RAW, 102);
}

#[test]
fn raw_values_lead_back_to_their_kinds() {
    for raw in 0..LAST_RAW {
        let kind = SyntaxKind::from_raw(raw).unwrap();
        assert_eq!(kind.to_raw(), raw);
        assert_eq!(LfrLanguage::kind_from_raw(raw), kind);
        assert_eq!(LfrLanguage::kind_to_raw(kind), raw);
        assert_ne!(kind, SyntaxKind::__LAST);
    }
    assert_eq!(SyntaxKind::from_raw(LAST_RAW), None);
    assert_eq!(SyntaxKind::from_raw(u16::MAX), None);
}

#[test]
fn kinds_are_ordered_by_raw_value() {
    assert!(SyntaxKind::TOMBSTONE < SyntaxKind::EOF);
    assert!(SyntaxKind::ROOT < SyntaxKind::STMT);
    assert!(SyntaxKind::DECLARATION_STMT < SyntaxKind::__LAST);
}

#[test]
fn trivia_is_blanks_and_comments() {
    assert!(SyntaxKind::WHITESPACE.is_trivia());
    assert!(SyntaxKind::COMMENT.is_trivia());
    assert!(SyntaxKind::BLOCK_COMMENT.is_trivia());
    assert!(!SyntaxKind::NEWLINE.is_trivia());
    assert!(!SyntaxKind::IDENT.is_trivia());
    assert!(!SyntaxKind::ERROR.is_trivia());
    assert!(!SyntaxKind::EOF.is_trivia());
    let mut count = 0;
    for raw in 0..LAST_RAW {
        if SyntaxKind::from_raw(raw).unwrap().is_trivia() {
            count += 1;
        }
    }
    assert_eq!(count, 3);
}

#[test]
fn kinds_have_their_names() {
    assert_eq!(SyntaxKind::EOF.name(), "EOF");
    assert_eq!(SyntaxKind::L_PAREN.name(), "L_PAREN");
    assert_eq!(SyntaxKind::__LAST.name(), "__LAST");
    for raw in 0..LAST_RAW {
        let kind = SyntaxKind::from_raw(raw).unwrap();
        assert_eq!(kind.name(), format!("{:?}", kind));
    }
}
