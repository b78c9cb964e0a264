use lfr::parser::error::ParseError;
use lfr::parser::parse;
use lfr::syntax_kind::{LfrLanguage, SyntaxKind};
use rowan::{GreenNodeData, NodeOrToken};

fn kind_of(raw: rowan::SyntaxKind) -> SyntaxKind {
    LfrLanguage::kind_from_raw(raw.0)
}

/// The tree as nested brackets: nodes by kind, leaves by kind and text.
/// Blanks and comments are left out unless `trivia` is set.
fn shape(node: &GreenNodeData, trivia: bool) -> String {
    let mut out = format!("{:?}(", kind_of(node.kind()));
    let mut first = true;
    for child in node.children() {
        let part = match child {
            NodeOrToken::Node(inner) => shape(inner, trivia),
            NodeOrToken::Token(leaf) => {
                let kind = kind_of(leaf.kind());
                if kind.is_trivia() && !trivia {
                    continue;
                }
                format!("{:?}{:?}", kind, leaf.text())
            }
        };
        if !first {
            out.push(' ');
        }
        first = false;
        out.push_str(&part);
    }
    out.push(')');
    out
}

fn leaves(node: &GreenNodeData, out: &mut Vec<(SyntaxKind, String)>) {
    for child in node.children() {
        match child {
            NodeOrToken::Node(inner) => leaves(inner, out),
            NodeOrToken::Token(leaf) => out.push((kind_of(leaf.kind()), leaf.text().to_string())),
        }
    }
}

fn text_of(node: &GreenNodeData) -> String {
    let mut all = Vec::new();
    leaves(node, &mut all);
    all.into_iter().map(|(_, text)| text).collect()
}

fn tree(text: &str) -> (String, Vec<(ParseError, u32)>) {
    let (node, errors) = parse(text);
    assert_eq!(text_of(&node), text);
    (shape(&node, false), errors)
}

fn clean(text: &str) -> String {
    let (shape, errors) = tree(text);
    assert_eq!(errors, vec![]);
    shape
}

#[test]
fn precedence() {
    assert_eq!(
        clean("x = 1 + 2 * 3"),
        "ROOT(STMT(BIN_EXPR(PRIMARY_EXPR(IDENT\"x\") EQ\"=\" BIN_EXPR(PRIMARY_EXPR(INT_NUMBER\"1\") \
         PLUS\"+\" BIN_EXPR(PRIMARY_EXPR(INT_NUMBER\"2\") ASTERISK\"*\" \
         PRIMARY_EXPR(INT_NUMBER\"3\"))))))"
    );
}

#[test]
fn continuation_onto_next_line() {
    assert_eq!(
        clean("x = 1\n+ 2"),
        "ROOT(STMT(BIN_EXPR(PRIMARY_EXPR(IDENT\"x\") EQ\"=\" BIN_EXPR(PRIMARY_EXPR(INT_NUMBER\"1\") \
         NEWLINE\"\\n\" PLUS\"+\" PRIMARY_EXPR(INT_NUMBER\"2\")))))"
    );
}

#[test]
fn array_literal_on_new_line_is_a_statement() {
    assert_eq!(
        clean("x = a\n[1]"),
        "ROOT(STMT(BIN_EXPR(PRIMARY_EXPR(IDENT\"x\") EQ\"=\" PRIMARY_EXPR(IDENT\"a\"))) \
         NEWLINE\"\\n\" STMT(PRIMARY_EXPR(ARR_EXPR(L_BRACK\"[\" PRIMARY_EXPR(INT_NUMBER\"1\") \
         R_BRACK\"]\"))))"
    );
}

#[test]
fn call_on_new_line_is_a_statement() {
    assert_eq!(
        clean("x = f\n(1)"),
        "ROOT(STMT(BIN_EXPR(PRIMARY_EXPR(IDENT\"x\") EQ\"=\" PRIMARY_EXPR(IDENT\"f\"))) \
         NEWLINE\"\\n\" STMT(PRIMARY_EXPR(TUPLE_EXPR(L_PAREN\"(\" PRIMARY_EXPR(INT_NUMBER\"1\") \
         R_PAREN\")\"))))"
    );
}

#[test]
fn if_else_chain() {
    assert_eq!(
        clean("if a {} else if b {} else {}"),
        "ROOT(STMT(PRIMARY_EXPR(IF_EXPR(IF_KW\"if\" PRIMARY_EXPR(IDENT\"a\") BLOCK(L_CURLY\"{\" \
         R_CURLY\"}\") ELSE_KW\"else\" IF_KW\"if\" PRIMARY_EXPR(IDENT\"b\") BLOCK(L_CURLY\"{\" \
         R_CURLY\"}\") ELSE_KW\"else\" BLOCK(L_CURLY\"{\" R_CURLY\"}\")))))"
    );
}

#[test]
fn if_else_chain_over_lines() {
    assert_eq!(
        clean("if a\n{\n}\n\nelse\n{\n}"),
        "ROOT(STMT(PRIMARY_EXPR(IF_EXPR(IF_KW\"if\" PRIMARY_EXPR(IDENT\"a\") NEWLINE\"\\n\" \
         BLOCK(L_CURLY\"{\" NEWLINE\"\\n\" R_CURLY\"}\") NEWLINE\"\\n\" NEWLINE\"\\n\" \
         ELSE_KW\"else\" NEWLINE\"\\n\" BLOCK(L_CURLY\"{\" NEWLINE\"\\n\" R_CURLY\"}\")))))"
    );
}

#[test]
fn unterminated_block_comment() {
    let (shape, errors) = tree("/* oops");
    assert_eq!(shape, "ROOT(STMT(ERROR\"/* oops\"))");
    assert_eq!(errors, vec![(ParseError::Unexpected { got: SyntaxKind::ERROR }, 0)]);
}

#[test]
fn composite_tokens_never_fuse_across_trivia() {
    let (shape, errors) = tree("a = = b");
    assert_eq!(
        shape,
        "ROOT(STMT(BIN_EXPR(PRIMARY_EXPR(IDENT\"a\") EQ\"=\" PRIMARY_EXPR(EQ\"=\"))) \
         STMT(PRIMARY_EXPR(IDENT\"b\")))"
    );
    assert_eq!(errors, vec![(ParseError::Unexpected { got: SyntaxKind::EQ }, 3)]);
    assert!(!shape.contains("EQ_EQ"));
}

#[test]
fn composite_tokens_fuse_side_by_side() {
    assert_eq!(
        clean("a == b"),
        "ROOT(STMT(BIN_EXPR(PRIMARY_EXPR(IDENT\"a\") EQ_EQ\"==\" PRIMARY_EXPR(IDENT\"b\"))))"
    );
    assert_eq!(
        clean("a <= b"),
        "ROOT(STMT(BIN_EXPR(PRIMARY_EXPR(IDENT\"a\") L_ANGLE_EQ\"<=\" PRIMARY_EXPR(IDENT\"b\"))))"
    );
    assert_eq!(
        clean("a != b"),
        "ROOT(STMT(BIN_EXPR(PRIMARY_EXPR(IDENT\"a\") BANG_EQ\"!=\" PRIMARY_EXPR(IDENT\"b\"))))"
    );
    assert_eq!(
        clean("a += b"),
        "ROOT(STMT(BIN_EXPR(PRIMARY_EXPR(IDENT\"a\") PLUS_EQ\"+=\" PRIMARY_EXPR(IDENT\"b\"))))"
    );
}

#[test]
fn assignment_groups_to_the_right() {
    assert_eq!(
        clean("a = b = c"),
        "ROOT(STMT(BIN_EXPR(PRIMARY_EXPR(IDENT\"a\") EQ\"=\" BIN_EXPR(PRIMARY_EXPR(IDENT\"b\") \
         EQ\"=\" PRIMARY_EXPR(IDENT\"c\")))))"
    );
}

#[test]
fn same_level_groups_to_the_left() {
    assert_eq!(
        clean("a - b + c"),
        "ROOT(STMT(BIN_EXPR(BIN_EXPR(PRIMARY_EXPR(IDENT\"a\") MINUS\"-\" PRIMARY_EXPR(IDENT\"b\")) \
         PLUS\"+\" PRIMARY_EXPR(IDENT\"c\"))))"
    );
}

#[test]
fn tighter_operator_first_groups_to_the_left() {
    assert_eq!(
        clean("a * b + c"),
        "ROOT(STMT(BIN_EXPR(BIN_EXPR(PRIMARY_EXPR(IDENT\"a\") ASTERISK\"*\" \
         PRIMARY_EXPR(IDENT\"b\")) PLUS\"+\" PRIMARY_EXPR(IDENT\"c\"))))"
    );
}

#[test]
fn tighter_operator_second_groups_to_the_right() {
    assert_eq!(
        clean("a < b + c"),
        "ROOT(STMT(BIN_EXPR(PRIMARY_EXPR(IDENT\"a\") L_ANGLE\"<\" BIN_EXPR(PRIMARY_EXPR(IDENT\"b\") \
         PLUS\"+\" PRIMARY_EXPR(IDENT\"c\")))))"
    );
    assert_eq!(
        clean("a == b < c"),
        "ROOT(STMT(BIN_EXPR(PRIMARY_EXPR(IDENT\"a\") EQ_EQ\"==\" BIN_EXPR(PRIMARY_EXPR(IDENT\"b\") \
         L_ANGLE\"<\" PRIMARY_EXPR(IDENT\"c\")))))"
    );
}

#[test]
fn prefix_operators_nest() {
    assert_eq!(
        clean("-!x"),
        "ROOT(STMT(PREFIX_UNARY_EXPR(MINUS\"-\" PREFIX_UNARY_EXPR(BANG\"!\" \
         PRIMARY_EXPR(IDENT\"x\")))))"
    );
}

#[test]
fn postfix_chain() {
    assert_eq!(
        clean("x.y.z(1)[2]"),
        "ROOT(STMT(INDEX_EXPR(METHOD_CALL_EXPR(MEMBER_ACCESS_EXPR(PRIMARY_EXPR(IDENT\"x\") DOT\".\" \
         IDENT\"y\") DOT\".\" IDENT\"z\" FN_CALL_ARGS(L_PAREN\"(\" PRIMARY_EXPR(INT_NUMBER\"1\") \
         R_PAREN\")\")) INDEX_EXPR_BRACKETS(L_BRACK\"[\" PRIMARY_EXPR(INT_NUMBER\"2\") \
         R_BRACK\"]\"))))"
    );
}

#[test]
fn member_access_on_new_line_is_a_statement() {
    let (shape, errors) = tree("return 'abc'\n    .len()");
    assert_eq!(
        shape,
        "ROOT(STMT(RETURN_STMT(RETURN_KW\"return\" PRIMARY_EXPR(STR\"'abc'\") NEWLINE\"\\n\")) \
         STMT(DOT\".\") STMT(FN_CALL_EXPR(PRIMARY_EXPR(IDENT\"len\") FN_CALL_ARGS(L_PAREN\"(\" \
         R_PAREN\")\"))))"
    );
    assert_eq!(errors, vec![(ParseError::Unexpected { got: SyntaxKind::DOT }, 13)]);
}

#[test]
fn method_call_on_the_same_line() {
    assert_eq!(
        clean("return 'abc'.len()"),
        "ROOT(STMT(RETURN_STMT(RETURN_KW\"return\" METHOD_CALL_EXPR(PRIMARY_EXPR(STR\"'abc'\") \
         DOT\".\" IDENT\"len\" FN_CALL_ARGS(L_PAREN\"(\" R_PAREN\")\")))))"
    );
}

#[test]
fn function_call_with_arguments() {
    assert_eq!(
        clean("f(1, 2, a = b)"),
        "ROOT(STMT(FN_CALL_EXPR(PRIMARY_EXPR(IDENT\"f\") FN_CALL_ARGS(L_PAREN\"(\" \
         PRIMARY_EXPR(INT_NUMBER\"1\") COMMA\",\" PRIMARY_EXPR(INT_NUMBER\"2\") COMMA\",\" \
         BIN_EXPR(PRIMARY_EXPR(IDENT\"a\") EQ\"=\" PRIMARY_EXPR(IDENT\"b\")) R_PAREN\")\"))))"
    );
}

#[test]
fn imports_come_first() {
    assert_eq!(
        clean("import 'a'\nimport a as b\nx"),
        "ROOT(IMPORT_STMT(IMPORT_KW\"import\" IMPORT_TARGET(STR\"'a'\") NEWLINE\"\\n\") \
         IMPORT_STMT(IMPORT_KW\"import\" IMPORT_TARGET(IDENT\"a\") AS_KW\"as\" IDENT\"b\" \
         NEWLINE\"\\n\") STMT(PRIMARY_EXPR(IDENT\"x\")))"
    );
}

#[test]
fn declaration_with_list_over_lines() {
    assert_eq!(
        clean("let a = [1, 2,\n 3]\n"),
        "ROOT(STMT(DECLARATION_STMT(LET_KW\"let\" IDENT\"a\" EQ\"=\" PRIMARY_EXPR(ARR_EXPR(\
         L_BRACK\"[\" PRIMARY_EXPR(INT_NUMBER\"1\") COMMA\",\" PRIMARY_EXPR(INT_NUMBER\"2\") \
         COMMA\",\" NEWLINE\"\\n\" PRIMARY_EXPR(INT_NUMBER\"3\") R_BRACK\"]\")) NEWLINE\"\\n\")))"
    );
}

#[test]
fn loops_and_control_statements() {
    assert_eq!(
        clean("foreach a in b { continue\n break 1\n return\n}\n"),
        "ROOT(STMT(FOR_STMT(FOR_KW\"foreach\" FOR_IN_EXPR(PRIMARY_EXPR(IDENT\"a\") IN_KW\"in\" \
         PRIMARY_EXPR(IDENT\"b\")) BLOCK(L_CURLY\"{\" STMT(CONTINUE_STMT(CONTINUE_KW\"continue\" \
         NEWLINE\"\\n\")) STMT(BREAK_STMT(BREAK_KW\"break\" PRIMARY_EXPR(INT_NUMBER\"1\") \
         NEWLINE\"\\n\")) STMT(RETURN_STMT(RETURN_KW\"return\" NEWLINE\"\\n\")) R_CURLY\"}\") \
         NEWLINE\"\\n\")))"
    );
    assert_eq!(
        clean("while a { }"),
        "ROOT(STMT(WHILE_STMT(WHILE_KW\"while\" PRIMARY_EXPR(IDENT\"a\") BLOCK(L_CURLY\"{\" \
         R_CURLY\"}\"))))"
    );
}

#[test]
fn return_at_the_end_needs_no_value() {
    assert_eq!(clean("return"), "ROOT(STMT(RETURN_STMT(RETURN_KW\"return\")))");
    assert_eq!(clean("break"), "ROOT(STMT(BREAK_STMT(BREAK_KW\"break\")))");
}

#[test]
fn tuple_and_block() {
    assert_eq!(
        clean("(1, 2)"),
        "ROOT(STMT(PRIMARY_EXPR(TUPLE_EXPR(L_PAREN\"(\" PRIMARY_EXPR(INT_NUMBER\"1\") COMMA\",\" \
         PRIMARY_EXPR(INT_NUMBER\"2\") R_PAREN\")\"))))"
    );
    assert_eq!(
        clean("{ x\n y }"),
        "ROOT(STMT(PRIMARY_EXPR(BLOCK(L_CURLY\"{\" STMT(PRIMARY_EXPR(IDENT\"x\")) NEWLINE\"\\n\" \
         STMT(PRIMARY_EXPR(IDENT\"y\")) R_CURLY\"}\"))))"
    );
}

#[test]
fn empty_text_is_an_empty_root() {
    assert_eq!(clean(""), "ROOT()");
    assert_eq!(clean("\n\n"), "ROOT(NEWLINE\"\\n\" NEWLINE\"\\n\")");
}

#[test]
fn expected_error_does_not_consume() {
    let (shape, errors) = tree("if a b");
    assert_eq!(
        shape,
        "ROOT(STMT(PRIMARY_EXPR(IF_EXPR(IF_KW\"if\" PRIMARY_EXPR(IDENT\"a\") BLOCK()))) \
         STMT(PRIMARY_EXPR(IDENT\"b\")))"
    );
    assert_eq!(
        errors,
        vec![(
            ParseError::Expected { expected: SyntaxKind::L_CURLY, got: SyntaxKind::IDENT },
            4
        )]
    );
    let (shape, errors) = tree("a.");
    assert_eq!(shape, "ROOT(STMT(MEMBER_ACCESS_EXPR(PRIMARY_EXPR(IDENT\"a\") DOT\".\")))");
    assert_eq!(
        errors,
        vec![(ParseError::Expected { expected: SyntaxKind::IDENT, got: SyntaxKind::EOF }, 2)]
    );
}

#[test]
fn unexpected_error_consumes() {
    let (shape, errors) = tree("@");
    assert_eq!(shape, "ROOT(STMT(ERROR\"@\"))");
    assert_eq!(errors, vec![(ParseError::Unexpected { got: SyntaxKind::ERROR }, 0)]);
    let (shape, errors) = tree("x = true");
    assert_eq!(
        shape,
        "ROOT(STMT(BIN_EXPR(PRIMARY_EXPR(IDENT\"x\") EQ\"=\" PRIMARY_EXPR(TRUE_KW\"true\"))))"
    );
    assert_eq!(errors, vec![(ParseError::Unexpected { got: SyntaxKind::TRUE_KW }, 3)]);
}

#[test]
fn separator_or_terminator_error() {
    let (shape, errors) = tree("f(1 2)");
    assert_eq!(
        shape,
        "ROOT(STMT(FN_CALL_EXPR(PRIMARY_EXPR(IDENT\"f\") FN_CALL_ARGS(L_PAREN\"(\" \
         PRIMARY_EXPR(INT_NUMBER\"1\") PRIMARY_EXPR(INT_NUMBER\"2\") R_PAREN\")\"))))"
    );
    assert_eq!(
        errors,
        vec![(
            ParseError::SeparatorOrTerminator {
                separator: SyntaxKind::COMMA,
                terminator: SyntaxKind::R_PAREN,
                got: SyntaxKind::INT_NUMBER
            },
            3
        )]
    );
}

#[test]
fn missing_line_break_is_an_error() {
    let (shape, errors) = tree("let a = 1 b");
    assert_eq!(
        shape,
        "ROOT(STMT(DECLARATION_STMT(LET_KW\"let\" IDENT\"a\" EQ\"=\" \
         PRIMARY_EXPR(INT_NUMBER\"1\"))) STMT(PRIMARY_EXPR(IDENT\"b\")))"
    );
    assert_eq!(
        errors,
        vec![(
            ParseError::Expected { expected: SyntaxKind::NEWLINE, got: SyntaxKind::IDENT },
            9
        )]
    );
}

#[test]
fn unclosed_list_ends_at_the_end() {
    let (shape, errors) = tree("[1,");
    assert_eq!(
        shape,
        "ROOT(STMT(PRIMARY_EXPR(ARR_EXPR(L_BRACK\"[\" PRIMARY_EXPR(INT_NUMBER\"1\") COMMA\",\"))))"
    );
    assert_eq!(
        errors,
        vec![(ParseError::Expected { expected: SyntaxKind::R_BRACK, got: SyntaxKind::EOF }, 3)]
    );
}

#[test]
fn trivia_goes_into_the_innermost_open_node() {
    let (node, errors) = parse(" x // c\n/* d */ y ");
    assert_eq!(errors, vec![]);
    assert_eq!(
        shape(&node, true),
        "ROOT(STMT(PRIMARY_EXPR(WHITESPACE\" \" IDENT\"x\")) WHITESPACE\" \" COMMENT\"// c\" \
         NEWLINE\"\\n\" STMT(PRIMARY_EXPR(BLOCK_COMMENT\"/* d */\" WHITESPACE\" \" IDENT\"y\")) \
         WHITESPACE\" \")"
    );
}

#[test]
fn every_trivia_token_is_a_leaf_once() {
    let text = "a  =  /* x */ b // c\n\n\t1 ==2 // d";
    let (node, _) = parse(text);
    let mut all = Vec::new();
    leaves(&node, &mut all);
    let kept: Vec<(SyntaxKind, String)> = all
        .into_iter()
        .filter(|(kind, _)| kind.is_trivia() || *kind == SyntaxKind::NEWLINE)
        .collect();
    let expected: Vec<(SyntaxKind, String)> = vec![
        (SyntaxKind::WHITESPACE, "  ".to_string()),
        (SyntaxKind::WHITESPACE, "  ".to_string()),
        (SyntaxKind::BLOCK_COMMENT, "/* x */".to_string()),
        (SyntaxKind::WHITESPACE, " ".to_string()),
        (SyntaxKind::WHITESPACE, " ".to_string()),
        (SyntaxKind::COMMENT, "// c".to_string()),
        (SyntaxKind::NEWLINE, "\n".to_string()),
        (SyntaxKind::NEWLINE, "\n".to_string()),
        (SyntaxKind::WHITESPACE, "\t".to_string()),
        (SyntaxKind::WHITESPACE, " ".to_string()),
        (SyntaxKind::WHITESPACE, " ".to_string()),
        (SyntaxKind::COMMENT, "// d".to_string()),
    ];
    assert_eq!(kept, expected);
}

#[test]
fn leaves_hold_the_text() {
    let texts = [
        "",
        "x",
        "import 'a'\nimport a\nif 0 == 1 {\n    print(1)\n} else {\n    print(0)\n}\n\nx = 1\n+2\n\nreturn 'abc'\n    .len()\n\n/*\nHello\n*/\n",
        "((((",
        "}}}} )) ]] ,, ..",
        "'unclosed\n''' also unclosed",
        "/* a ** b */ /**/ /*/ /* **",
        "naïve = 'ü' + 日本語 // ∀\n",
        "a &&= b ||= c && d || e ^ f",
        "let let let = = =\n\r\n\t",
        "foreach while if else else if return break continue",
        "0x 0b 0o17 08 0xFFul 1u2l",
    ];
    for text in texts {
        let (node, _) = parse(text);
        assert_eq!(text_of(&node), text);
        let mut all = Vec::new();
        leaves(&node, &mut all);
        let total: usize = all.iter().map(|(_, leaf)| leaf.len()).sum();
        assert_eq!(total, text.len());
        assert_eq!(kind_of(node.kind()), SyntaxKind::ROOT);
    }
}

#[test]
fn reprinting_and_parsing_again_gives_the_same_tree() {
    let texts = ["x = 1\n+ 2", "if a b", "f(1 2) /* x", "a == b\n.c(d)[e]\n"];
    for text in texts {
        let (first, first_errors) = parse(text);
        let printed = text_of(&first);
        let (second, second_errors) = parse(&printed);
        assert_eq!(shape(&first, true), shape(&second, true));
        assert_eq!(first_errors, second_errors);
        assert!(first == second);
    }
}
