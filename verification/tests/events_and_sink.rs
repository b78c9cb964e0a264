use lfr::lexer::tokenize;
use lfr::parser::error::ParseError;
use lfr::parser::event::{process, resolve, Event};
use lfr::parser::marker::Marker;
use lfr::parser::text_token_source::LexerWrap;
use lfr::parser::text_tree_sink::TextTreeSink;
use lfr::parser::{parse_to_sink, Parser};
use lfr::syntax_kind::{LfrLanguage, SyntaxKind};
use lfr::syntax_kind::SyntaxKind::{
    BIN_EXPR, EOF, EQ, EQ_EQ, ERROR, IDENT, NEWLINE, PLUS, PRIMARY_EXPR, ROOT, STMT,
};
use rowan::{GreenNodeData, NodeOrToken};

fn shape(node: &GreenNodeData) -> String {
    let mut out = format!("{:?}(", LfrLanguage::kind_from_raw(node.kind().0));
    let mut first = true;
    for child in node.children() {
        let part = match child {
            NodeOrToken::Node(inner) => shape(inner),
            NodeOrToken::Token(leaf) => {
                format!("{:?}{:?}", LfrLanguage::kind_from_raw(leaf.kind().0), leaf.text())
            }
        };
        if !first {
            out.push(' ');
        }
        first = false;
        out.push_str(&part);
    }
    out.push(')');
    out
}

fn start(kind: SyntaxKind) -> Event {
    Event::Start { kind, forward_parent: None }
}

fn leaf(kind: SyntaxKind) -> Event {
    Event::Token { kind, n_raw_tokens: 1 }
}

fn parser(text: &str) -> Parser {
    let tokens = tokenize(text);
    Parser { source: LexerWrap::new(&tokens), events: Vec::new() }
}

#[test]
fn resolve_puts_forward_parents_first() {
    let events = vec![
        start(ROOT),
        Event::Start { kind: PRIMARY_EXPR, forward_parent: Some(4) },
        leaf(IDENT),
        Event::Finish,
        Event::Start { kind: BIN_EXPR, forward_parent: Some(8) },
        leaf(PLUS),
        leaf(IDENT),
        Event::Finish,
        start(STMT),
        Event::Tombstone,
        Event::Finish,
        Event::Finish,
    ];
    assert_eq!(
        resolve(events),
        vec![
            start(ROOT),
            start(STMT),
            start(BIN_EXPR),
            start(PRIMARY_EXPR),
            leaf(IDENT),
            Event::Finish,
            leaf(PLUS),
            leaf(IDENT),
            Event::Finish,
            Event::Finish,
            Event::Finish,
        ]
    );
}

#[test]
fn resolve_does_not_follow_links_that_lead_nowhere() {
    let events = vec![
        start(ROOT),
        Event::Start { kind: STMT, forward_parent: Some(1) },
        Event::Finish,
        Event::Start { kind: STMT, forward_parent: Some(0) },
        Event::Error { msg: ParseError::Unexpected { got: EOF } },
        Event::Finish,
        Event::Start { kind: BIN_EXPR, forward_parent: Some(7) },
        Event::Finish,
        Event::Start { kind: PRIMARY_EXPR, forward_parent: Some(100) },
        Event::Finish,
        Event::Finish,
    ];
    assert_eq!(
        resolve(events),
        vec![
            start(ROOT),
            start(STMT),
            Event::Finish,
            start(STMT),
            Event::Error { msg: ParseError::Unexpected { got: EOF } },
            Event::Finish,
            start(BIN_EXPR),
            Event::Finish,
            start(PRIMARY_EXPR),
            Event::Finish,
            Event::Finish,
        ]
    );
}

#[test]
fn sink_gives_every_token_a_leaf() {
    let text = " a /* b */ == c ";
    let tokens = tokenize(text);
    let mut sink = TextTreeSink::new(text, &tokens);
    sink.start_node(ROOT);
    sink.start_node(BIN_EXPR);
    sink.token(IDENT, 1);
    sink.error(ParseError::Unexpected { got: EQ });
    sink.token(EQ_EQ, 2);
    sink.finish_node();
    sink.error(ParseError::Unexpected { got: IDENT });
    sink.token(IDENT, 1);
    sink.finish_node();
    let (node, errors) = sink.finish();
    assert_eq!(
        shape(&node),
        "ROOT(BIN_EXPR(WHITESPACE\" \" IDENT\"a\" WHITESPACE\" \" BLOCK_COMMENT\"/* b */\" \
         WHITESPACE\" \" EQ_EQ\"==\") WHITESPACE\" \" IDENT\"c\" WHITESPACE\" \")"
    );
    assert_eq!(
        errors,
        vec![
            (ParseError::Unexpected { got: EQ }, 2),
            (ParseError::Unexpected { got: IDENT }, 13)
        ]
    );
}

#[test]
fn sink_puts_what_is_left_into_the_root() {
    let text = "a b\nc";
    let tokens = tokenize(text);
    let mut sink = TextTreeSink::new(text, &tokens);
    sink.start_node(ROOT);
    sink.token(IDENT, 1);
    sink.finish_node();
    let (node, errors) = sink.finish();
    assert_eq!(
        shape(&node),
        "ROOT(IDENT\"a\" WHITESPACE\" \" IDENT\"b\" NEWLINE\"\\n\" IDENT\"c\")"
    );
    assert_eq!(errors, vec![]);
}

#[test]
fn sink_takes_no_more_tokens_than_there_are() {
    let text = "a+";
    let tokens = tokenize(text);
    let mut sink = TextTreeSink::new(text, &tokens);
    sink.start_node(ROOT);
    sink.token(BIN_EXPR, 3);
    sink.token(ERROR, 1);
    sink.finish_node();
    let (node, _) = sink.finish();
    assert_eq!(shape(&node), "ROOT(BIN_EXPR\"a+\" ERROR\"\")");
}

#[test]
fn process_feeds_the_sink() {
    let text = "a + b";
    let tokens = tokenize(text);
    let mut sink = TextTreeSink::new(text, &tokens);
    let events = vec![
        Event::Tombstone,
        start(ROOT),
        Event::Start { kind: PRIMARY_EXPR, forward_parent: Some(5) },
        leaf(IDENT),
        Event::Finish,
        start(BIN_EXPR),
        leaf(PLUS),
        start(PRIMARY_EXPR),
        leaf(IDENT),
        Event::Finish,
        Event::Finish,
        Event::Finish,
    ];
    let events = events[1..].iter().map(|event| match event {
        Event::Start { kind, forward_parent: Some(k) } => {
            Event::Start { kind: *kind, forward_parent: Some(k - 1) }
        }
        other => *other,
    });
    process(&mut sink, events.collect());
    let (node, errors) = sink.finish();
    assert_eq!(
        shape(&node),
        "ROOT(BIN_EXPR(PRIMARY_EXPR(IDENT\"a\") WHITESPACE\" \" PLUS\"+\" \
         PRIMARY_EXPR(WHITESPACE\" \" IDENT\"b\")))"
    );
    assert_eq!(errors, vec![]);
}

#[test]
fn parse_to_sink_moves_the_source_to_its_end() {
    let text = "x = 1";
    let tokens = tokenize(text);
    let mut source = LexerWrap::new(&tokens);
    let mut sink = TextTreeSink::new(text, &tokens);
    parse_to_sink(&mut source, &mut sink);
    assert_eq!(source.remaining(), 0);
    let (node, errors) = sink.finish();
    assert_eq!(
        shape(&node),
        "ROOT(STMT(BIN_EXPR(PRIMARY_EXPR(IDENT\"x\") WHITESPACE\" \" EQ\"=\" \
         PRIMARY_EXPR(WHITESPACE\" \" INT_NUMBER\"1\"))))"
    );
    assert_eq!(errors, vec![]);
}

#[test]
fn parser_sees_composites_where_their_parts_are_joint() {
    let mut p = parser("a == b = = c");
    assert!(p.at(IDENT));
    assert!(!p.at(EQ_EQ));
    assert_eq!(p.at_any(&[EQ, IDENT]), Some(IDENT));
    assert_eq!(p.at_any(&[EQ, PLUS]), None);
    p.bump_any();
    assert!(p.at(EQ_EQ));
    assert!(p.at(EQ));
    assert_eq!(p.current(), EQ);
    assert_eq!(p.nth(1), EQ);
    assert_eq!(p.nth(2), IDENT);
    assert_eq!(p.nth(9), EOF);
    assert!(p.eat(EQ_EQ));
    assert!(!p.eat(EQ_EQ));
    p.bump(IDENT);
    assert!(p.at(EQ));
    assert!(!p.at(EQ_EQ));
    assert!(p.eat_any(&[EQ_EQ, EQ]));
    assert!(!p.eat_any(&[EQ_EQ, IDENT]));
    assert_eq!(
        p.events,
        vec![
            leaf(IDENT),
            Event::Token { kind: EQ_EQ, n_raw_tokens: 2 },
            leaf(IDENT),
            leaf(EQ),
        ]
    );
    assert_eq!(Parser::sk_raw_tokens(EQ_EQ), 2);
    assert_eq!(Parser::sk_raw_tokens(SyntaxKind::AMP2_EQ), 3);
    assert_eq!(Parser::sk_raw_tokens(EQ), 1);
    assert_eq!(Parser::sk_raw_tokens(ROOT), 1);
}

#[test]
fn parser_expects_and_complains() {
    let mut p = parser("a\n");
    assert!(!p.expect(PLUS));
    assert!(p.expect(IDENT));
    assert!(p.has_newline());
    p.require_newline();
    p.require_newline();
    assert!(p.eat(EOF));
    assert!(p.expect(EOF));
    assert!(p.eat_any(&[PLUS, EOF]));
    p.unexpected();
    p.bump_any();
    assert_eq!(
        p.events,
        vec![
            Event::Error { msg: ParseError::Expected { expected: PLUS, got: IDENT } },
            leaf(IDENT),
            leaf(NEWLINE),
            Event::Error { msg: ParseError::Unexpected { got: EOF } },
        ]
    );
    let mut p = parser("a b");
    assert!(!p.eat(EOF));
    assert!(!p.eat_any(&[EOF]));
    p.bump_any();
    p.require_newline();
    p.unexpected();
    assert_eq!(
        p.events,
        vec![
            leaf(IDENT),
            Event::Error { msg: ParseError::Expected { expected: NEWLINE, got: IDENT } },
            Event::Error { msg: ParseError::Unexpected { got: IDENT } },
            leaf(IDENT),
        ]
    );
}

#[test]
fn parser_looks_past_line_breaks() {
    let mut p = parser("\n\n.x\n+= y");
    assert!(!p.bump_to_if_next_non_newline_is(PLUS));
    assert_eq!(p.events, vec![]);
    assert!(p.bump_to_if_next_non_newline_is(SyntaxKind::DOT));
    assert_eq!(p.events, vec![leaf(NEWLINE), leaf(NEWLINE)]);
    assert_eq!(p.current(), SyntaxKind::DOT);
    p.bump_any();
    p.bump_any();
    assert_eq!(p.peek_past_newlines(&[SyntaxKind::PLUS_EQ, PLUS]), Some(SyntaxKind::PLUS_EQ));
    assert_eq!(p.peek_past_newlines(&[PLUS, SyntaxKind::PLUS_EQ]), Some(PLUS));
    assert_eq!(p.peek_past_newlines(&[EQ]), None);
    assert_eq!(p.bump_to_if_next_non_newline_is_any(&[EQ]), None);
    assert!(p.has_newline());
    assert_eq!(
        p.bump_to_if_next_non_newline_is_any(&[SyntaxKind::PLUS_EQ]),
        Some(SyntaxKind::PLUS_EQ)
    );
    assert!(p.at(SyntaxKind::PLUS_EQ));
    p.skip_newlines();
    assert!(p.at(PLUS));
    let mut p = parser("\n\n\n");
    p.skip_newlines();
    assert_eq!(p.events, vec![leaf(NEWLINE), leaf(NEWLINE), leaf(NEWLINE)]);
    assert_eq!(p.current(), EOF);
    assert!(!p.bump_to_if_next_non_newline_is(IDENT));
}

#[test]
fn markers_complete_precede_and_undo() {
    let mut p = parser("a b");
    let first = p.start();
    assert_eq!(first.pos, 0);
    p.bump_any();
    let done = first.complete(&mut p, PRIMARY_EXPR);
    assert_eq!((done.start_pos, done.finish_pos, done.kind), (0, 2, PRIMARY_EXPR));
    assert_eq!(p.events, vec![start(PRIMARY_EXPR), leaf(IDENT), Event::Finish]);
    let outer = done.precede(&mut p);
    assert_eq!(outer.pos, 3);
    assert_eq!(
        p.events,
        vec![
            Event::Start { kind: PRIMARY_EXPR, forward_parent: Some(3) },
            leaf(IDENT),
            Event::Finish,
            Event::Tombstone
        ]
    );
    p.bump_any();
    let done = outer.complete(&mut p, BIN_EXPR);
    assert_eq!((done.start_pos, done.finish_pos, done.kind), (3, 5, BIN_EXPR));
    let again = done.undo_completion(&mut p);
    assert_eq!(again.pos, 3);
    assert_eq!(
        p.events,
        vec![
            Event::Start { kind: PRIMARY_EXPR, forward_parent: Some(3) },
            leaf(IDENT),
            Event::Finish,
            Event::Tombstone,
            leaf(IDENT),
            Event::Tombstone
        ]
    );
    let done = again.complete(&mut p, STMT);
    assert_eq!((done.start_pos, done.finish_pos, done.kind), (3, 6, STMT));
    assert_eq!(Marker::new(7).pos, 7);
    assert_eq!(Event::tombstone(), Event::Tombstone);
    assert_eq!(
        resolve(p.events),
        vec![
            start(STMT),
            start(PRIMARY_EXPR),
            leaf(IDENT),
            Event::Finish,
            leaf(IDENT),
            Event::Finish
        ]
    );
}

#[test]
fn events_open_as_many_nodes_as_they_close() {
    let texts = ["x = 1\n+ 2", "a.b(c)[d].e", "if a b", "f(1 2) /* x", "{ [ ( . . ) ] }", ""];
    for text in texts {
        let mut p = parser(text);
        p.parse();
        let starts = p.events.iter().filter(|event| matches!(event, Event::Start { .. })).count();
        let finishes = p.events.iter().filter(|event| matches!(event, Event::Finish)).count();
        assert_eq!(starts, finishes);
        assert_eq!(p.events[0], start(ROOT));
        assert_eq!(p.events.last(), Some(&Event::Finish));
        for (place, event) in p.events.iter().enumerate() {
            if let Event::Start { forward_parent: Some(parent), .. } = event {
                assert!(place < *parent);
                assert!(matches!(p.events[*parent], Event::Start { .. }));
            }
        }
        assert_eq!(p.source.remaining(), 0);
        let resolved = resolve(p.events);
        let mut open = 0i64;
        for (place, event) in resolved.iter().enumerate() {
            match event {
                Event::Start { forward_parent, .. } => {
                    assert_eq!(*forward_parent, None);
                    open += 1;
                }
                Event::Finish => open -= 1,
                Event::Tombstone => panic!("a tombstone is left"),
                _ => {}
            }
            if place + 1 < resolved.len() {
                assert!(open >= 1);
            }
        }
        assert_eq!(open, 0);
        let starts = resolved.iter().filter(|event| matches!(event, Event::Start { .. })).count();
        let finishes = resolved.iter().filter(|event| matches!(event, Event::Finish)).count();
        assert_eq!(starts, finishes);
    }
}

#[test]
fn a_node_can_be_taken_back_after_more_was_written() {
    let mut p = parser("a b c");
    let first = p.start();
    p.bump_any();
    let done = first.complete(&mut p, PRIMARY_EXPR);
    p.bump_any();
    let again = done.undo_completion(&mut p);
    assert_eq!(again.pos, 0);
    assert_eq!(
        p.events,
        vec![Event::Tombstone, leaf(IDENT), Event::Tombstone, leaf(IDENT)]
    );
    p.bump_any();
    let done = again.complete(&mut p, STMT);
    assert_eq!((done.start_pos, done.finish_pos, done.kind), (0, 5, STMT));
    assert_eq!(
        resolve(p.events),
        vec![start(STMT), leaf(IDENT), leaf(IDENT), leaf(IDENT), Event::Finish]
    );
}

#[test]
fn and_the_source_is_read_to_its_end() {
    let texts = ["x = 1\n+ 2", "if a b", "((((", "} } }", "a.\n.b", "\n\n", ""];
    for text in texts {
        let tokens = tokenize(text);
        let mut source = LexerWrap::new(&tokens);
        let mut sink = TextTreeSink::new(text, &tokens);
        parse_to_sink(&mut source, &mut sink);
        assert_eq!(source.remaining(), 0);
        assert_eq!(source.current().syntax_kind, EOF);
    }
}

#[test]
fn expecting_the_end_where_it_is_not_complains() {
    let mut p = parser("a");
    assert!(!p.expect(EOF));
    assert_eq!(
        p.events,
        vec![Event::Error { msg: ParseError::Expected { expected: EOF, got: IDENT } }]
    );
    p.bump_any();
    assert!(p.expect(EOF));
    assert_eq!(p.events.len(), 2);
}

#[test]
fn builder_takes_one_node_with_its_leaves() {
    let text = "x";
    let tokens = tokenize(text);
    let mut sink = TextTreeSink::new(text, &tokens);
    sink.start_node(ROOT);
    sink.finish_node();
    let (node, errors) = sink.finish();
    assert_eq!(shape(&node), "ROOT(IDENT\"x\")");
    assert_eq!(errors, vec![]);
}
