//! The grammar, written as functions from the parser's state to its state.
//!
//! Each function says which events a rule writes and how far it reads. The
//! rules call each other in a circle (an expression may hold a block, a
//! block holds statements, a statement may be an expression), so each takes
//! a budget `d` of nesting that it may still open. A budget as large as the
//! number of tokens left is never used up, because every step down consumes
//! a token first.

use crate::parser::error::ParseError;
use crate::parser::event::pending;
use crate::parser::marker::{just_completed, CompletedMarker, Marker};
use crate::parser::text_token_source::{first_match_from, matches_at, no_eof, SourceToken};
use crate::parser::{Parser, ParserView};
use crate::syntax_kind::SyntaxKind;
use vstd::prelude::*;

verus! {

/// What a rule that builds one node leaves behind: the parser's state, and
/// the place of the node's `Start`.
pub struct Parsed {
    /// The parser after the rule.
    pub state: ParserView,
    /// The place of the `Start` of the node that the rule built last.
    pub start: int,
}

/// What stands between the brackets of a list.
#[derive(Clone, Copy, Debug, PartialEq, Eq, Structural)]
pub enum TtItem {
    /// An expression.
    Expr,
    /// An argument of a call.
    FnArg,
    /// A statement.
    Statement,
}

/// Every infix operator, the longer before the shorter, so that the first
/// of them that starts at a place is the longest that starts there.
pub open spec fn operators() -> Seq<SyntaxKind> {
    seq![
        SyntaxKind::AMP2_EQ,
        SyntaxKind::PIPE2_EQ,
        SyntaxKind::AMP2,
        SyntaxKind::PIPE2,
        SyntaxKind::PLUS_EQ,
        SyntaxKind::MINUS_EQ,
        SyntaxKind::ASTERISK_EQ,
        SyntaxKind::SLASH_EQ,
        SyntaxKind::MODULUS_EQ,
        SyntaxKind::AMP_EQ,
        SyntaxKind::PIPE_EQ,
        SyntaxKind::CARET_EQ,
        SyntaxKind::EQ_EQ,
        SyntaxKind::BANG_EQ,
        SyntaxKind::L_ANGLE_EQ,
        SyntaxKind::R_ANGLE_EQ,
        SyntaxKind::EQ,
        SyntaxKind::PLUS,
        SyntaxKind::MINUS,
        SyntaxKind::ASTERISK,
        SyntaxKind::SLASH,
        SyntaxKind::PERCENT,
        SyntaxKind::L_ANGLE,
        SyntaxKind::R_ANGLE,
    ]
}

/// The level of an infix operator, from 3 (binds most) to 9 (assignment,
/// binds least); 0 for every other kind.
pub open spec fn precedence(kind: SyntaxKind) -> int {
    match kind {
        SyntaxKind::ASTERISK | SyntaxKind::SLASH | SyntaxKind::PERCENT => 3,
        SyntaxKind::PLUS | SyntaxKind::MINUS => 4,
        SyntaxKind::L_ANGLE | SyntaxKind::L_ANGLE_EQ | SyntaxKind::R_ANGLE
        | SyntaxKind::R_ANGLE_EQ => 5,
        SyntaxKind::EQ_EQ | SyntaxKind::BANG_EQ => 6,
        SyntaxKind::AMP2 => 7,
        SyntaxKind::PIPE2 => 8,
        SyntaxKind::EQ | SyntaxKind::PLUS_EQ | SyntaxKind::MINUS_EQ | SyntaxKind::ASTERISK_EQ
        | SyntaxKind::SLASH_EQ | SyntaxKind::MODULUS_EQ | SyntaxKind::AMP_EQ
        | SyntaxKind::PIPE_EQ | SyntaxKind::CARET_EQ | SyntaxKind::AMP2_EQ
        | SyntaxKind::PIPE2_EQ => 9,
        _ => 0,
    }
}

/// The infix operator of level `level` that comes next, line breaks
/// skipped, if the next token is one.
pub open spec fn operator_ahead(s: ParserView, level: int) -> Option<SyntaxKind> {
    match s.next_non_newline_any(operators()) {
        Some(op) => if precedence(op) == level {
            Some(op)
        } else {
            None
        },
        None => None,
    }
}

/// Whether a statement that starts with a token of this kind is an
/// expression.
pub open spec fn starts_expr(kind: SyntaxKind) -> bool {
    kind == SyntaxKind::L_PAREN || kind == SyntaxKind::L_BRACK || kind == SyntaxKind::L_CURLY
        || kind == SyntaxKind::PLUS || kind == SyntaxKind::MINUS || kind == SyntaxKind::BANG
        || kind == SyntaxKind::TRUE_KW || kind == SyntaxKind::FALSE_KW || kind
        == SyntaxKind::INT_NUMBER || kind == SyntaxKind::IDENT || kind == SyntaxKind::STR || kind
        == SyntaxKind::MULTILINE_STR || kind == SyntaxKind::IF_KW
}

/// Whether a statement that starts with a token of this kind is `continue`,
/// `break` or `return`.
pub open spec fn starts_control(kind: SyntaxKind) -> bool {
    kind == SyntaxKind::CONTINUE_KW || kind == SyntaxKind::BREAK_KW || kind
        == SyntaxKind::RETURN_KW
}

/// Whether a string literal is under the cursor.
pub open spec fn is_string_lit(s: ParserView) -> bool {
    s.at_any(seq![SyntaxKind::STR, SyntaxKind::MULTILINE_STR]) is Some
}

/// `ImportTarget := String | Ident`
pub open spec fn import_target(s: ParserView) -> ParserView {
    let m = s.events.len() as int;
    let s1 = s.start();
    let s2 = if is_string_lit(s1) {
        s1.bump_any()
    } else {
        s1.expect(SyntaxKind::IDENT)
    };
    s2.complete(m, SyntaxKind::IMPORT_TARGET)
}

/// `ImportStmt := 'import' ImportTarget ('as' Ident)? Newline?`
pub open spec fn import_stmt(s: ParserView) -> ParserView {
    let m = s.events.len() as int;
    let s1 = import_target(s.start().expect(SyntaxKind::IMPORT_KW));
    let s2 = if s1.can_eat(SyntaxKind::AS_KW) {
        s1.eat(SyntaxKind::AS_KW).expect(SyntaxKind::IDENT)
    } else {
        s1
    };
    s2.require_newline().complete(m, SyntaxKind::IMPORT_STMT)
}

/// One item of a list.
pub open spec fn tt_item(s: ParserView, d: nat, item: TtItem) -> ParserView
    decreases d, 50nat, 0nat,
{
    match item {
        TtItem::Expr => expr(s, d).state,
        TtItem::FnArg => farg(s, d),
        TtItem::Statement => statement(s, d),
    }
}

/// What follows an item of a list that has a separator: the separator is
/// consumed or the closing token is left; anything else is complained
/// about and left.
pub open spec fn after_item(
    s: ParserView,
    separator: Option<SyntaxKind>,
    end_tok: SyntaxKind,
) -> ParserView {
    match separator {
        Some(sep) => {
            let t = s.skip_newlines();
            if t.at(sep) {
                t.eat(sep)
            } else if !t.at(end_tok) {
                t.error(
                    ParseError::SeparatorOrTerminator {
                        separator: sep,
                        terminator: end_tok,
                        got: t.current(),
                    },
                )
            } else {
                t
            }
        },
        None => s,
    }
}

/// The items of a list up to its closing token: each item, then the
/// separator if the list has one, line breaks skipped between them.
pub open spec fn tt_loop(
    s: ParserView,
    d: nat,
    separator: Option<SyntaxKind>,
    end_tok: SyntaxKind,
    item: TtItem,
) -> ParserView
    decreases d, 0nat, s.remaining(),
{
    if s.at_any(seq![SyntaxKind::EOF, end_tok]) is Some || d == 0 {
        s
    } else {
        let s1 = tt_item(s, (d - 1) as nat, item);
        let s3 = after_item(s1, separator, end_tok).skip_newlines();
        if s3.remaining() < s.remaining() {
            tt_loop(s3, d, separator, end_tok, item)
        } else {
            s3
        }
    }
}

/// A list in brackets: the opening token, the items, the closing token, all
/// in one node of kind `outer_kind`.
pub open spec fn tt(
    s: ParserView,
    d: nat,
    outer_kind: SyntaxKind,
    start_tok: SyntaxKind,
    separator: Option<SyntaxKind>,
    end_tok: SyntaxKind,
    item: TtItem,
) -> Parsed
    decreases d, 1nat, 0nat,
{
    let m = s.events.len() as int;
    let s1 = s.start().eat(start_tok).skip_newlines();
    let s2 = tt_loop(s1, d, separator, end_tok, item);
    Parsed { state: s2.expect(end_tok).complete(m, outer_kind), start: m }
}

/// `Block := '{' (Newline* Stmt)* Newline* '}'`. Where no `{` stands, the
/// block is empty and a complaint is written.
pub open spec fn expr_block(s: ParserView, d: nat) -> Parsed
    decreases d, 2nat, 0nat,
{
    let s0 = s.skip_newlines();
    if s0.can_eat(SyntaxKind::L_CURLY) {
        tt(
            s0,
            d,
            SyntaxKind::BLOCK,
            SyntaxKind::L_CURLY,
            None,
            SyntaxKind::R_CURLY,
            TtItem::Statement,
        )
    } else {
        let m = s0.events.len() as int;
        Parsed {
            state: s0.start().expect(SyntaxKind::L_CURLY).complete(m, SyntaxKind::BLOCK),
            start: m,
        }
    }
}

/// `'if' Expr Block`
pub open spec fn conditional_branch(s: ParserView, d: nat) -> ParserView
    decreases d, 3nat, 0nat,
{
    let s1 = s.skip_newlines().eat(SyntaxKind::IF_KW);
    if d == 0 {
        s1
    } else {
        expr_block(expr(s1, (d - 1) as nat).state, d).state
    }
}

/// The `else if` branches and the `else` block that follow the first
/// branch of a conditional.
pub open spec fn conditional_loop(s: ParserView, d: nat) -> ParserView
    decreases d, 4nat, s.remaining(),
{
    if s.next_non_newline_is(SyntaxKind::ELSE_KW) {
        let s1 = s.bump_to_if_next_non_newline_is(SyntaxKind::ELSE_KW).eat(SyntaxKind::ELSE_KW);
        if s1.next_non_newline_is(SyntaxKind::IF_KW) {
            let s2 = conditional_branch(s1.bump_to_if_next_non_newline_is(SyntaxKind::IF_KW), d);
            if s2.remaining() < s.remaining() {
                conditional_loop(s2, d)
            } else {
                s2
            }
        } else {
            expr_block(s1, d).state
        }
    } else {
        s
    }
}

/// `IfExpr := 'if' Expr Block ('else' 'if' Expr Block)* ('else' Block)?`
pub open spec fn conditional(s: ParserView, d: nat) -> Parsed
    decreases d, 5nat, 0nat,
{
    let s0 = s.skip_newlines();
    let m = s0.events.len() as int;
    let s1 = conditional_branch(s0.start(), d);
    Parsed { state: conditional_loop(s1, d).complete(m, SyntaxKind::IF_EXPR), start: m }
}

/// `'[' (Expr ',')* ']'`
pub open spec fn array_expr(s: ParserView, d: nat) -> Parsed
    decreases d, 5nat, 0nat,
{
    tt(
        s.skip_newlines(),
        d,
        SyntaxKind::ARR_EXPR,
        SyntaxKind::L_BRACK,
        Some(SyntaxKind::COMMA),
        SyntaxKind::R_BRACK,
        TtItem::Expr,
    )
}

/// `'(' (Expr ',')* ')'`
pub open spec fn tuple_expr(s: ParserView, d: nat) -> Parsed
    decreases d, 5nat, 0nat,
{
    tt(
        s.skip_newlines(),
        d,
        SyntaxKind::TUPLE_EXPR,
        SyntaxKind::L_PAREN,
        Some(SyntaxKind::COMMA),
        SyntaxKind::R_PAREN,
        TtItem::Expr,
    )
}

/// A primary expression: an array, a tuple, a conditional, a block, a
/// number, a name or a string. Any other token is complained about and
/// consumed.
pub open spec fn primary(s: ParserView, d: nat) -> Parsed
    decreases d, 6nat, 0nat,
{
    let s0 = s.skip_newlines();
    let m = s0.events.len() as int;
    let s1 = s0.start();
    let s2 = if s1.at(SyntaxKind::L_BRACK) {
        array_expr(s1, d).state
    } else if s1.at(SyntaxKind::L_PAREN) {
        tuple_expr(s1, d).state
    } else if s1.at(SyntaxKind::IF_KW) {
        conditional(s1, d).state
    } else if s1.at(SyntaxKind::L_CURLY) {
        expr_block(s1, d).state
    } else if s1.at_any(seq![SyntaxKind::INT_NUMBER, SyntaxKind::IDENT]) is Some {
        s1.bump_any()
    } else if is_string_lit(s1) {
        s1.bump_any()
    } else {
        s1.unexpected()
    };
    Parsed { state: s2.complete(m, SyntaxKind::PRIMARY_EXPR), start: m }
}

/// The arguments of a call, and the call's node around the callee whose
/// marker stands at place `m`.
pub open spec fn f_call(s: ParserView, d: nat, m: int) -> ParserView
    decreases d, 7nat, 0nat,
{
    tt(
        s,
        d,
        SyntaxKind::FN_CALL_ARGS,
        SyntaxKind::L_PAREN,
        Some(SyntaxKind::COMMA),
        SyntaxKind::R_PAREN,
        TtItem::FnArg,
    ).state.complete(m, SyntaxKind::FN_CALL_EXPR)
}

/// The arguments of a method call, and the call's node around the member
/// access whose marker stands at place `m`.
pub open spec fn method_call(s: ParserView, d: nat, m: int) -> ParserView
    decreases d, 7nat, 0nat,
{
    tt(
        s,
        d,
        SyntaxKind::FN_CALL_ARGS,
        SyntaxKind::L_PAREN,
        Some(SyntaxKind::COMMA),
        SyntaxKind::R_PAREN,
        TtItem::FnArg,
    ).state.complete(m, SyntaxKind::METHOD_CALL_EXPR)
}

/// `'[' Expr ']'` after an expression whose marker stands at place `m`.
pub open spec fn index_expr(s: ParserView, d: nat, m: int) -> ParserView
    decreases d, 7nat, 0nat,
{
    let b = s.events.len() as int;
    let s1 = s.start().eat(SyntaxKind::L_BRACK);
    if d == 0 {
        s1
    } else {
        expr(s1, (d - 1) as nat).state.expect(SyntaxKind::R_BRACK).complete(
            b,
            SyntaxKind::INDEX_EXPR_BRACKETS,
        ).complete(m, SyntaxKind::INDEX_EXPR)
    }
}

/// `'.' Ident` after an expression whose marker stands at place `m`.
pub open spec fn member_expr(s: ParserView, m: int) -> ParserView {
    s.eat(SyntaxKind::DOT).expect(SyntaxKind::IDENT).complete(m, SyntaxKind::MEMBER_ACCESS_EXPR)
}

/// The calls, indexings and member accesses that follow a primary
/// expression. Each of them must start on the line on which the
/// expression before it ends. A member access that is followed by `(` is
/// taken back and becomes a method call.
pub open spec fn postfix_loop(s: ParserView, d: nat, start: int) -> Parsed
    decreases d, 8nat, s.remaining(),
{
    let m = s.events.len() as int;
    match s.at_any(seq![SyntaxKind::L_PAREN, SyntaxKind::L_BRACK, SyntaxKind::DOT]) {
        Some(kind) => {
            let s1 = s.precede(start);
            let s2 = if kind == SyntaxKind::L_PAREN {
                f_call(s1, d, m)
            } else if kind == SyntaxKind::L_BRACK {
                index_expr(s1, d, m)
            } else {
                let member = member_expr(s1, m);
                if member.can_eat(SyntaxKind::L_PAREN) {
                    method_call(member.undo_completion(m, member.events.len() - 1), d, m)
                } else {
                    member
                }
            };
            if s2.remaining() < s.remaining() {
                postfix_loop(s2, d, m)
            } else {
                Parsed { state: s2, start: m }
            }
        },
        None => Parsed { state: s, start },
    }
}

/// Level 1: a primary expression and what follows it.
pub open spec fn precedence_1_expr(s: ParserView, d: nat) -> Parsed
    decreases d, 9nat, 0nat,
{
    let first = primary(s.skip_newlines(), d);
    postfix_loop(first.state, d, first.start)
}

/// Level 2: any number of prefix `+`, `-`, `!` before an expression of
/// level 1.
pub open spec fn precedence_2_expr(s: ParserView, d: nat) -> Parsed
    decreases d, 10nat, 0nat,
{
    let s0 = s.skip_newlines();
    match s0.at_any(seq![SyntaxKind::PLUS, SyntaxKind::MINUS, SyntaxKind::BANG]) {
        Some(kind) => {
            let m = s0.events.len() as int;
            let s1 = s0.start().eat(kind);
            if d == 0 {
                Parsed { state: s1, start: m }
            } else {
                Parsed {
                    state: precedence_2_expr(s1, (d - 1) as nat).state.complete(
                        m,
                        SyntaxKind::PREFIX_UNARY_EXPR,
                    ),
                    start: m,
                }
            }
        },
        None => precedence_1_expr(s0, d),
    }
}

/// The operand of an infix operator of level `level`: an expression of the
/// level below.
pub open spec fn operand(s: ParserView, d: nat, level: int) -> Parsed
    decreases d, 3 * level + 2, 0nat,
    when 3 <= level <= 8
{
    if level <= 3 {
        precedence_2_expr(s, d)
    } else {
        infix_binop(s, d, level - 1)
    }
}

/// The operators of level `level` and their right operands, after the left
/// operand whose `Start` stands at place `start`. Each operator takes what
/// was parsed so far as its left side: these levels group to the left.
pub open spec fn infix_loop(s: ParserView, d: nat, level: int, start: int) -> Parsed
    decreases d, 3 * level + 3, s.remaining(),
    when 3 <= level <= 8
{
    match operator_ahead(s, level) {
        Some(op) => {
            let s1 = s.bump_to(s.next_not_newline());
            let m = s1.events.len() as int;
            let s2 = operand(s1.precede(start).eat(op), d, level).state.complete(
                m,
                SyntaxKind::BIN_EXPR,
            );
            if s2.remaining() < s.remaining() {
                infix_loop(s2, d, level, m)
            } else {
                Parsed { state: s2, start: m }
            }
        },
        None => Parsed { state: s, start },
    }
}

/// Levels 3 to 8: operands of the level below, joined by the operators of
/// this level.
pub open spec fn infix_binop(s: ParserView, d: nat, level: int) -> Parsed
    decreases d, 3 * level + 4, 0nat,
    when 3 <= level <= 8
{
    let first = operand(s.skip_newlines(), d, level);
    infix_loop(first.state, d, level, first.start)
}

/// Level 9: assignment. Its right side is again an assignment: this level
/// groups to the right.
pub open spec fn precedence_9_expr(s: ParserView, d: nat) -> Parsed
    decreases d, 30nat, 0nat,
{
    let first = infix_binop(s.skip_newlines(), d, 8);
    match operator_ahead(first.state, 9) {
        Some(op) => {
            let s1 = first.state.bump_to(first.state.next_not_newline());
            let m = s1.events.len() as int;
            let s2 = s1.precede(first.start).eat(op);
            if d == 0 {
                Parsed { state: s2, start: m }
            } else {
                Parsed {
                    state: precedence_9_expr(s2, (d - 1) as nat).state.complete(
                        m,
                        SyntaxKind::BIN_EXPR,
                    ),
                    start: m,
                }
            }
        },
        None => first,
    }
}

/// An expression.
pub open spec fn expr(s: ParserView, d: nat) -> Parsed
    decreases d, 31nat, 0nat,
{
    precedence_9_expr(s, d)
}

/// An argument of a call.
pub open spec fn farg(s: ParserView, d: nat) -> ParserView
    decreases d, 32nat, 0nat,
{
    expr(s.skip_newlines(), d).state
}

/// `Expr 'in' Expr`
pub open spec fn for_in_expr(s: ParserView, d: nat) -> ParserView
    decreases d, 33nat, 0nat,
{
    let m = s.events.len() as int;
    let s1 = expr(s.start(), d).state.expect(SyntaxKind::IN_KW);
    expr(s1, d).state.complete(m, SyntaxKind::FOR_IN_EXPR)
}

/// `Declaration := 'let' Ident '=' Expr Newline`
pub open spec fn declaration(s: ParserView, d: nat) -> ParserView
    decreases d, 34nat, 0nat,
{
    let s0 = s.skip_newlines();
    let m = s0.events.len() as int;
    let s1 = s0.start().expect(SyntaxKind::LET_KW).expect(SyntaxKind::IDENT).expect(
        SyntaxKind::EQ,
    );
    expr(s1, d).state.require_newline().complete(m, SyntaxKind::DECLARATION_STMT)
}

/// `ForStmt := 'for' Expr 'in' Expr Block Newline`
pub open spec fn for_stmt(s: ParserView, d: nat) -> ParserView
    decreases d, 34nat, 0nat,
{
    let s0 = s.skip_newlines();
    let m = s0.events.len() as int;
    let s1 = for_in_expr(s0.start().eat(SyntaxKind::FOR_KW), d);
    expr_block(s1, d).state.require_newline().complete(m, SyntaxKind::FOR_STMT)
}

/// `WhileStmt := 'while' Expr Block Newline`
pub open spec fn while_stmt(s: ParserView, d: nat) -> ParserView
    decreases d, 34nat, 0nat,
{
    let s0 = s.skip_newlines();
    let m = s0.events.len() as int;
    let s1 = expr(s0.start().eat(SyntaxKind::WHILE_KW), d).state;
    expr_block(s1, d).state.require_newline().complete(m, SyntaxKind::WHILE_STMT)
}

/// The value of a `break` or `return`, if one stands on its line.
pub open spec fn control_value(s: ParserView, d: nat) -> ParserView
    decreases d, 33nat, 0nat,
{
    if s.at(SyntaxKind::NEWLINE) || s.at(SyntaxKind::EOF) {
        s
    } else {
        expr(s, d).state
    }
}

/// `ControlStmt := ('continue' | 'break' Expr? | 'return' Expr?) Newline`
pub open spec fn control_stmt(s: ParserView, d: nat) -> ParserView
    decreases d, 34nat, 0nat,
{
    let s0 = s.skip_newlines();
    let m = s0.events.len() as int;
    let s1 = s0.start();
    let (s2, kind) = if s1.can_eat(SyntaxKind::CONTINUE_KW) {
        (s1.eat(SyntaxKind::CONTINUE_KW), SyntaxKind::CONTINUE_STMT)
    } else if s1.can_eat(SyntaxKind::RETURN_KW) {
        (control_value(s1.eat(SyntaxKind::RETURN_KW), d), SyntaxKind::RETURN_STMT)
    } else {
        (control_value(s1.eat(SyntaxKind::BREAK_KW), d), SyntaxKind::BREAK_STMT)
    };
    s2.require_newline().complete(m, kind)
}

/// `Stmt := Expr | Declaration | ForStmt | WhileStmt | ControlStmt`, chosen
/// by the token under the cursor. Any other token is complained about and
/// consumed.
pub open spec fn statement(s: ParserView, d: nat) -> ParserView
    decreases d, 35nat, 0nat,
{
    let m = s.events.len() as int;
    statement_body(s.start(), d).complete(m, SyntaxKind::STMT)
}

/// The forms that a statement can have.
#[derive(Clone, Copy, Debug, PartialEq, Eq, Structural)]
pub enum StatementForm {
    /// An expression.
    Expr,
    /// A declaration, `let ...`.
    Declaration,
    /// A loop over a range, `for ...`.
    For,
    /// A loop on a condition, `while ...`.
    While,
    /// `continue`, `break` or `return`.
    Control,
    /// Nothing that a statement can start with.
    Other,
}

/// The form of the statement that starts with a token of kind `tok`.
pub open spec fn form_of(tok: SyntaxKind) -> StatementForm {
    if starts_expr(tok) {
        StatementForm::Expr
    } else if tok == SyntaxKind::LET_KW {
        StatementForm::Declaration
    } else if tok == SyntaxKind::FOR_KW {
        StatementForm::For
    } else if tok == SyntaxKind::WHILE_KW {
        StatementForm::While
    } else if starts_control(tok) {
        StatementForm::Control
    } else {
        StatementForm::Other
    }
}

/// What a statement holds, chosen by the token under the cursor.
pub open spec fn statement_body(s: ParserView, d: nat) -> ParserView
    decreases d, 34nat, 1nat,
{
    match form_of(s.current()) {
        StatementForm::Expr => expr(s, d).state,
        StatementForm::Declaration => declaration(s, d),
        StatementForm::For => for_stmt(s, d),
        StatementForm::While => while_stmt(s, d),
        StatementForm::Control => control_stmt(s, d),
        StatementForm::Other => s.unexpected(),
    }
}

/// A statement, line breaks before it skipped.
pub open spec fn lang_item(s: ParserView, d: nat) -> ParserView {
    statement(s.skip_newlines(), d)
}

/// The import statements at the head of a file.
pub open spec fn root_imports(s: ParserView) -> ParserView
    decreases s.remaining(),
{
    let s0 = s.skip_newlines();
    if s0.at(SyntaxKind::EOF) || !s0.at(SyntaxKind::IMPORT_KW) {
        s0
    } else {
        let s1 = import_stmt(s0);
        if s1.remaining() < s.remaining() {
            root_imports(s1)
        } else {
            s1
        }
    }
}

/// The statements of a file.
pub open spec fn root_items(s: ParserView, d: nat) -> ParserView
    decreases s.remaining(),
{
    let s0 = s.skip_newlines();
    if s0.at(SyntaxKind::EOF) {
        s0
    } else {
        let s1 = lang_item(s0, d);
        if s1.remaining() < s.remaining() {
            root_items(s1, d)
        } else {
            s1
        }
    }
}

/// `Root := (Newline* ImportStmt)* (Newline* Stmt)*`
pub open spec fn root(s: ParserView) -> ParserView {
    let m = s.events.len() as int;
    root_items(root_imports(s.start()), s.remaining()).complete(m, SyntaxKind::ROOT)
}

/// `after` can be reached from `before`, and a token was consumed unless
/// the source was at its end.
pub open spec fn advances(before: ParserView, after: ParserView) -> bool {
    &&& before.leads_to(after)
    &&& before.current() != SyntaxKind::EOF ==> after.source.pos > before.source.pos
}

/// `completed` is the node that was built last, and it was built after
/// `before`, with its `Start` at place `start`.
pub open spec fn built(
    before: ParserView,
    after: ParserView,
    completed: CompletedMarker,
    start: int,
) -> bool {
    &&& completed.start_pos == start
    &&& before.events.len() <= completed.start_pos
    &&& just_completed(after.events, completed)
}

/// The marker at place `m` was completed as `completed`, a token was
/// consumed, and nothing before the marker changed.
pub open spec fn wraps(
    before: ParserView,
    after: ParserView,
    m: int,
    completed: CompletedMarker,
) -> bool {
    &&& after.source.tokens == before.source.tokens
    &&& before.source.pos < after.source.pos
    &&& after.wf()
    &&& before.events.len() <= after.events.len()
    &&& completed.start_pos == m
    &&& just_completed(after.events, completed)
    &&& forall|i: int| 0 <= i < m ==> #[trigger] after.events[i] == before.events[i]
    &&& forall|k: int| k < m && #[trigger] pending(before.events, k) ==> pending(after.events, k)
}

/// The kind that `first_match_from` names is one of the kinds given, and a
/// token of it starts at the place asked about.
pub proof fn lemma_first_match(
    tokens: Seq<SourceToken>,
    i: int,
    kinds: Seq<SyntaxKind>,
    j: int,
)
    requires
        0 <= j,
    ensures
        match first_match_from(tokens, i, kinds, j) {
            Some(kind) => matches_at(tokens, i, kind) && exists|k: int|
                j <= k < kinds.len() && #[trigger] kinds[k] == kind,
            None => forall|k: int| j <= k < kinds.len() ==> !matches_at(tokens, i, #[trigger] kinds[k]),
        },
    decreases kinds.len() - j,
{
    if j < kinds.len() && !matches_at(tokens, i, kinds[j]) {
        lemma_first_match(tokens, i, kinds, j + 1);
    }
}

/// The level of an infix operator; 0 for every other kind.
pub fn precedence_of(kind: SyntaxKind) -> (level: u8)
    ensures
        level == precedence(kind),
{
    match kind {
        SyntaxKind::ASTERISK | SyntaxKind::SLASH | SyntaxKind::PERCENT => 3,
        SyntaxKind::PLUS | SyntaxKind::MINUS => 4,
        SyntaxKind::L_ANGLE | SyntaxKind::L_ANGLE_EQ | SyntaxKind::R_ANGLE
        | SyntaxKind::R_ANGLE_EQ => 5,
        SyntaxKind::EQ_EQ | SyntaxKind::BANG_EQ => 6,
        SyntaxKind::AMP2 => 7,
        SyntaxKind::PIPE2 => 8,
        SyntaxKind::EQ | SyntaxKind::PLUS_EQ | SyntaxKind::MINUS_EQ | SyntaxKind::ASTERISK_EQ
        | SyntaxKind::SLASH_EQ | SyntaxKind::MODULUS_EQ | SyntaxKind::AMP_EQ
        | SyntaxKind::PIPE_EQ | SyntaxKind::CARET_EQ | SyntaxKind::AMP2_EQ
        | SyntaxKind::PIPE2_EQ => 9,
        _ => 0,
    }
}

/// Looks past line breaks for an infix operator of level `level`. Where
/// one comes next, the line breaks before it are consumed.
#[verifier::rlimit(50)]
fn next_operator(p: &mut Parser, level: u8) -> (found: Option<SyntaxKind>)
    requires
        old(p)@.wf(),
        level >= 3,
    ensures
        found == operator_ahead(old(p)@, level as int),
        final(p)@ == if found is Some {
            old(p)@.bump_to(old(p)@.next_not_newline())
        } else {
            old(p)@
        },
        old(p)@.leads_to(final(p)@),
        found is Some ==> final(p)@.can_eat(found.unwrap()),
{
    let ops = [
        SyntaxKind::AMP2_EQ,
        SyntaxKind::PIPE2_EQ,
        SyntaxKind::AMP2,
        SyntaxKind::PIPE2,
        SyntaxKind::PLUS_EQ,
        SyntaxKind::MINUS_EQ,
        SyntaxKind::ASTERISK_EQ,
        SyntaxKind::SLASH_EQ,
        SyntaxKind::MODULUS_EQ,
        SyntaxKind::AMP_EQ,
        SyntaxKind::PIPE_EQ,
        SyntaxKind::CARET_EQ,
        SyntaxKind::EQ_EQ,
        SyntaxKind::BANG_EQ,
        SyntaxKind::L_ANGLE_EQ,
        SyntaxKind::R_ANGLE_EQ,
        SyntaxKind::EQ,
        SyntaxKind::PLUS,
        SyntaxKind::MINUS,
        SyntaxKind::ASTERISK,
        SyntaxKind::SLASH,
        SyntaxKind::PERCENT,
        SyntaxKind::L_ANGLE,
        SyntaxKind::R_ANGLE,
    ];
    assert(ops@ =~= operators());
    match p.peek_past_newlines(&ops) {
        Some(op) => {
            if precedence_of(op) == level {
                p.bump_to_if_next_non_newline_is_any(&ops);
                proof {
                    lemma_first_match(p@.source.tokens, p@.source.pos, ops@, 0);
                }
                Some(op)
            } else {
                proof {
                    crate::parser::lemma_leads_to_refl(p@);
                }
                None
            }
        },
        None => {
            proof {
                crate::parser::lemma_leads_to_refl(p@);
            }
            None
        },
    }
}

fn at_list_end(p: &Parser, end_tok: SyntaxKind) -> (at: bool)
    ensures
        at == (p@.at_any(seq![SyntaxKind::EOF, end_tok]) is Some),
{
    let kinds = [SyntaxKind::EOF, end_tok];
    assert(kinds@ =~= seq![SyntaxKind::EOF, end_tok]);
    p.at_any(&kinds).is_some()
}

fn is_string_lit_start(p: &Parser) -> (at: bool)
    ensures
        at == is_string_lit(p@),
{
    let kinds = [SyntaxKind::STR, SyntaxKind::MULTILINE_STR];
    assert(kinds@ =~= seq![SyntaxKind::STR, SyntaxKind::MULTILINE_STR]);
    p.at_any(&kinds).is_some()
}

fn is_tuple_expr_start(p: &Parser) -> (at: bool)
    ensures
        at == p@.at(SyntaxKind::L_PAREN),
{
    p.at(SyntaxKind::L_PAREN)
}

fn is_array_expr_start(p: &Parser) -> (at: bool)
    ensures
        at == p@.at(SyntaxKind::L_BRACK),
{
    p.at(SyntaxKind::L_BRACK)
}

fn is_expr_block_start(p: &Parser) -> (at: bool)
    ensures
        at == p@.at(SyntaxKind::L_CURLY),
{
    p.at(SyntaxKind::L_CURLY)
}

fn is_conditional_start(p: &Parser) -> (at: bool)
    ensures
        at == p@.at(SyntaxKind::IF_KW),
{
    p.at(SyntaxKind::IF_KW)
}

fn is_control_stmt(p: &Parser) -> (at: bool)
    ensures
        at == starts_control(p@.current()),
{
    let kinds = [SyntaxKind::CONTINUE_KW, SyntaxKind::BREAK_KW, SyntaxKind::RETURN_KW];
    proof {
        lemma_first_match(p@.source.tokens, p@.source.pos, kinds@, 0);
    }
    p.at_any(&kinds).is_some()
}

#[verifier::rlimit(50)]
fn parse_ident(p: &mut Parser)
    requires
        old(p)@.wf(),
    ensures
        final(p)@ == old(p)@.expect(SyntaxKind::IDENT),
        old(p)@.leads_to(final(p)@),
{
    p.expect(SyntaxKind::IDENT);
}

#[verifier::rlimit(50)]
fn parse_string(p: &mut Parser)
    requires
        old(p)@.wf(),
        is_string_lit(old(p)@),
    ensures
        final(p)@ == old(p)@.bump_any(),
        advances(old(p)@, final(p)@),
{
    p.bump_any();
}

#[verifier::rlimit(50)]
fn parse_import_target(p: &mut Parser)
    requires
        old(p)@.wf(),
    ensures
        final(p)@ == import_target(old(p)@),
        old(p)@.leads_to(final(p)@),
{
    let marker = p.start();
    if is_string_lit_start(p) {
        parse_string(p);
    } else {
        parse_ident(p);
    }
    marker.complete(p, SyntaxKind::IMPORT_TARGET);
}

#[verifier::rlimit(50)]
fn parse_import_stmt(p: &mut Parser)
    requires
        old(p)@.wf(),
    ensures
        final(p)@ == import_stmt(old(p)@),
        old(p)@.leads_to(final(p)@),
        old(p)@.can_eat(SyntaxKind::IMPORT_KW) ==> final(p)@.source.pos > old(p)@.source.pos,
{
    let marker = p.start();
    p.expect(SyntaxKind::IMPORT_KW);
    parse_import_target(p);
    if p.at(SyntaxKind::AS_KW) {
        p.bump(SyntaxKind::AS_KW);
        parse_ident(p);
    }
    p.require_newline();
    marker.complete(p, SyntaxKind::IMPORT_STMT);
}

#[verifier::rlimit(50)]
fn parse_tt_item(p: &mut Parser, item: TtItem, Ghost(d): Ghost<nat>)
    requires
        old(p)@.wf(),
        d >= old(p)@.remaining(),
    ensures
        final(p)@ == tt_item(old(p)@, d, item),
        advances(old(p)@, final(p)@),
    decreases d, 50nat, 0nat,
{
    match item {
        TtItem::Expr => {
            parse_expr(p, Ghost(d));
        },
        TtItem::FnArg => {
            parse_farg(p, Ghost(d));
        },
        TtItem::Statement => {
            parse_statement(p, Ghost(d));
        },
    }
}

#[verifier::rlimit(50)]
fn parse_after_item(p: &mut Parser, separator: Option<SyntaxKind>, end_tok: SyntaxKind)
    requires
        old(p)@.wf(),
    ensures
        final(p)@ == after_item(old(p)@, separator, end_tok),
        old(p)@.leads_to(final(p)@),
{
    if let Some(separator) = separator {
        p.skip_newlines();
        if p.eat(separator) {
        } else if !p.at(end_tok) {
            let got = p.current();
            p.error(ParseError::SeparatorOrTerminator { separator, terminator: end_tok, got });
        }
    } else {
        proof {
            crate::parser::lemma_leads_to_refl(p@);
        }
    }
}

#[verifier::rlimit(50)]
fn parse_tt(
    p: &mut Parser,
    outer_kind: SyntaxKind,
    start_tok: SyntaxKind,
    separator: Option<SyntaxKind>,
    end_tok: SyntaxKind,
    item: TtItem,
    Ghost(d): Ghost<nat>,
) -> (completed: CompletedMarker)
    requires
        old(p)@.wf(),
        d >= old(p)@.remaining(),
        old(p)@.can_eat(start_tok),
    ensures
        final(p)@ == tt(old(p)@, d, outer_kind, start_tok, separator, end_tok, item).state,
        advances(old(p)@, final(p)@),
        built(
            old(p)@,
            final(p)@,
            completed,
            tt(old(p)@, d, outer_kind, start_tok, separator, end_tok, item).start,
        ),
    decreases d, 1nat, 0nat,
{
    let marker = p.start();
    p.bump(start_tok);
    p.skip_newlines();
    let ghost entry = p@;
    while !at_list_end(p, end_tok)
        invariant
            p@.wf(),
            old(p)@.leads_to(p@),
            p@.source.pos > old(p)@.source.pos,
            pending(p@.events, marker.pos as int),
            marker.pos == old(p)@.events.len(),
            d >= 1 + p@.remaining(),
            tt_loop(p@, d, separator, end_tok, item) == tt_loop(
                entry,
                d,
                separator,
                end_tok,
                item,
            ),
        decreases p@.remaining(),
    {
        parse_tt_item(p, item, Ghost((d - 1) as nat));
        parse_after_item(p, separator, end_tok);
        p.skip_newlines();
    }
    p.expect(end_tok);
    marker.complete(p, outer_kind)
}

#[verifier::rlimit(50)]
fn parse_expr_block(p: &mut Parser, Ghost(d): Ghost<nat>) -> (completed: CompletedMarker)
    requires
        old(p)@.wf(),
        d >= old(p)@.remaining(),
    ensures
        final(p)@ == expr_block(old(p)@, d).state,
        old(p)@.leads_to(final(p)@),
        old(p)@.can_eat(SyntaxKind::L_CURLY) ==> final(p)@.source.pos > old(p)@.source.pos,
        built(old(p)@, final(p)@, completed, expr_block(old(p)@, d).start),
    decreases d, 2nat, 0nat,
{
    p.skip_newlines();
    if is_expr_block_start(p) {
        parse_tt(
            p,
            SyntaxKind::BLOCK,
            SyntaxKind::L_CURLY,
            None,
            SyntaxKind::R_CURLY,
            TtItem::Statement,
            Ghost(d),
        )
    } else {
        let marker = p.start();
        p.expect(SyntaxKind::L_CURLY);
        marker.complete(p, SyntaxKind::BLOCK)
    }
}

#[verifier::rlimit(50)]
fn parse_conditional_branch(p: &mut Parser, Ghost(d): Ghost<nat>)
    requires
        old(p)@.wf(),
        d >= old(p)@.remaining(),
        old(p)@.can_eat(SyntaxKind::IF_KW),
    ensures
        final(p)@ == conditional_branch(old(p)@, d),
        old(p)@.leads_to(final(p)@),
        final(p)@.source.pos > old(p)@.source.pos,
    decreases d, 3nat, 0nat,
{
    p.skip_newlines();
    p.bump(SyntaxKind::IF_KW);
    parse_expr(p, Ghost((d - 1) as nat));
    parse_expr_block(p, Ghost(d));
}

#[verifier::rlimit(50)]
fn parse_conditional(p: &mut Parser, Ghost(d): Ghost<nat>) -> (completed: CompletedMarker)
    requires
        old(p)@.wf(),
        d >= old(p)@.remaining(),
        old(p)@.can_eat(SyntaxKind::IF_KW),
    ensures
        final(p)@ == conditional(old(p)@, d).state,
        advances(old(p)@, final(p)@),
        built(old(p)@, final(p)@, completed, conditional(old(p)@, d).start),
    decreases d, 5nat, 0nat,
{
    p.skip_newlines();
    let marker = p.start();
    parse_conditional_branch(p, Ghost(d));
    let ghost entry = p@;
    loop
        invariant_except_break
            conditional_loop(p@, d) == conditional_loop(entry, d),
        invariant
            p@.wf(),
            old(p)@.leads_to(p@),
            p@.source.pos > old(p)@.source.pos,
            pending(p@.events, marker.pos as int),
            marker.pos == old(p)@.events.len(),
            d >= p@.remaining(),
        ensures
            p@ == conditional_loop(entry, d),
        decreases p@.remaining(),
    {
        if !p.bump_to_if_next_non_newline_is(SyntaxKind::ELSE_KW) {
            break ;
        }
        p.bump(SyntaxKind::ELSE_KW);
        if p.bump_to_if_next_non_newline_is(SyntaxKind::IF_KW) {
            parse_conditional_branch(p, Ghost(d));
        } else {
            parse_expr_block(p, Ghost(d));
            break ;
        }
    }
    marker.complete(p, SyntaxKind::IF_EXPR)
}

#[verifier::rlimit(50)]
fn parse_array_expr(p: &mut Parser, Ghost(d): Ghost<nat>) -> (completed: CompletedMarker)
    requires
        old(p)@.wf(),
        d >= old(p)@.remaining(),
        old(p)@.can_eat(SyntaxKind::L_BRACK),
    ensures
        final(p)@ == array_expr(old(p)@, d).state,
        advances(old(p)@, final(p)@),
        built(old(p)@, final(p)@, completed, array_expr(old(p)@, d).start),
    decreases d, 5nat, 0nat,
{
    p.skip_newlines();
    parse_tt(
        p,
        SyntaxKind::ARR_EXPR,
        SyntaxKind::L_BRACK,
        Some(SyntaxKind::COMMA),
        SyntaxKind::R_BRACK,
        TtItem::Expr,
        Ghost(d),
    )
}

#[verifier::rlimit(50)]
fn parse_tuple_expr(p: &mut Parser, Ghost(d): Ghost<nat>) -> (completed: CompletedMarker)
    requires
        old(p)@.wf(),
        d >= old(p)@.remaining(),
        old(p)@.can_eat(SyntaxKind::L_PAREN),
    ensures
        final(p)@ == tuple_expr(old(p)@, d).state,
        advances(old(p)@, final(p)@),
        built(old(p)@, final(p)@, completed, tuple_expr(old(p)@, d).start),
    decreases d, 5nat, 0nat,
{
    p.skip_newlines();
    parse_tt(
        p,
        SyntaxKind::TUPLE_EXPR,
        SyntaxKind::L_PAREN,
        Some(SyntaxKind::COMMA),
        SyntaxKind::R_PAREN,
        TtItem::Expr,
        Ghost(d),
    )
}

#[verifier::rlimit(50)]
fn parse_primary(p: &mut Parser, Ghost(d): Ghost<nat>) -> (completed: CompletedMarker)
    requires
        old(p)@.wf(),
        d >= old(p)@.remaining(),
    ensures
        final(p)@ == primary(old(p)@, d).state,
        advances(old(p)@, final(p)@),
        built(old(p)@, final(p)@, completed, primary(old(p)@, d).start),
    decreases d, 6nat, 0nat,
{
    p.skip_newlines();
    let mk = p.start();
    if is_array_expr_start(p) {
        parse_array_expr(p, Ghost(d));
    } else if is_tuple_expr_start(p) {
        parse_tuple_expr(p, Ghost(d));
    } else if is_conditional_start(p) {
        parse_conditional(p, Ghost(d));
    } else if is_expr_block_start(p) {
        parse_expr_block(p, Ghost(d));
    } else if at_number_or_name(p) {
        p.bump_any();
    } else if is_string_lit_start(p) {
        parse_string(p);
    } else {
        p.unexpected();
    }
    mk.complete(p, SyntaxKind::PRIMARY_EXPR)
}

fn at_number_or_name(p: &Parser) -> (at: bool)
    ensures
        at == (p@.at_any(seq![SyntaxKind::INT_NUMBER, SyntaxKind::IDENT]) is Some),
{
    let kinds = [SyntaxKind::INT_NUMBER, SyntaxKind::IDENT];
    assert(kinds@ =~= seq![SyntaxKind::INT_NUMBER, SyntaxKind::IDENT]);
    p.at_any(&kinds).is_some()
}

#[verifier::rlimit(50)]
fn parse_f_call(p: &mut Parser, marker: Marker, Ghost(d): Ghost<nat>) -> (completed: CompletedMarker)
    requires
        old(p)@.wf(),
        d >= old(p)@.remaining(),
        pending(old(p)@.events, marker.pos as int),
        old(p)@.can_eat(SyntaxKind::L_PAREN),
    ensures
        final(p)@ == f_call(old(p)@, d, marker.pos as int),
        wraps(old(p)@, final(p)@, marker.pos as int, completed),
    decreases d, 7nat, 0nat,
{
    parse_tt(
        p,
        SyntaxKind::FN_CALL_ARGS,
        SyntaxKind::L_PAREN,
        Some(SyntaxKind::COMMA),
        SyntaxKind::R_PAREN,
        TtItem::FnArg,
        Ghost(d),
    );
    marker.complete(p, SyntaxKind::FN_CALL_EXPR)
}

#[verifier::rlimit(50)]
fn parse_method_call(p: &mut Parser, marker: Marker, Ghost(d): Ghost<nat>) -> (completed:
    CompletedMarker)
    requires
        old(p)@.wf(),
        d >= old(p)@.remaining(),
        pending(old(p)@.events, marker.pos as int),
        old(p)@.can_eat(SyntaxKind::L_PAREN),
    ensures
        final(p)@ == method_call(old(p)@, d, marker.pos as int),
        wraps(old(p)@, final(p)@, marker.pos as int, completed),
    decreases d, 7nat, 0nat,
{
    parse_tt(
        p,
        SyntaxKind::FN_CALL_ARGS,
        SyntaxKind::L_PAREN,
        Some(SyntaxKind::COMMA),
        SyntaxKind::R_PAREN,
        TtItem::FnArg,
        Ghost(d),
    );
    marker.complete(p, SyntaxKind::METHOD_CALL_EXPR)
}

#[verifier::rlimit(50)]
fn parse_index_expr(p: &mut Parser, marker: Marker, Ghost(d): Ghost<nat>) -> (completed:
    CompletedMarker)
    requires
        old(p)@.wf(),
        d >= old(p)@.remaining(),
        pending(old(p)@.events, marker.pos as int),
        old(p)@.can_eat(SyntaxKind::L_BRACK),
    ensures
        final(p)@ == index_expr(old(p)@, d, marker.pos as int),
        wraps(old(p)@, final(p)@, marker.pos as int, completed),
    decreases d, 7nat, 0nat,
{
    let brackets_marker = p.start();
    p.bump(SyntaxKind::L_BRACK);
    parse_expr(p, Ghost((d - 1) as nat));
    p.expect(SyntaxKind::R_BRACK);
    brackets_marker.complete(p, SyntaxKind::INDEX_EXPR_BRACKETS);
    marker.complete(p, SyntaxKind::INDEX_EXPR)
}

#[verifier::rlimit(50)]
fn parse_member_expr(p: &mut Parser, marker: Marker) -> (completed: CompletedMarker)
    requires
        old(p)@.wf(),
        pending(old(p)@.events, marker.pos as int),
        old(p)@.can_eat(SyntaxKind::DOT),
    ensures
        final(p)@ == member_expr(old(p)@, marker.pos as int),
        wraps(old(p)@, final(p)@, marker.pos as int, completed),
{
    p.bump(SyntaxKind::DOT);
    p.expect(SyntaxKind::IDENT);
    marker.complete(p, SyntaxKind::MEMBER_ACCESS_EXPR)
}

fn at_postfix(p: &Parser) -> (found: Option<SyntaxKind>)
    ensures
        found == p@.at_any(seq![SyntaxKind::L_PAREN, SyntaxKind::L_BRACK, SyntaxKind::DOT]),
        found is Some ==> p@.can_eat(found.unwrap()) && (found.unwrap() == SyntaxKind::L_PAREN
            || found.unwrap() == SyntaxKind::L_BRACK || found.unwrap() == SyntaxKind::DOT),
{
    let kinds = [SyntaxKind::L_PAREN, SyntaxKind::L_BRACK, SyntaxKind::DOT];
    assert(kinds@ =~= seq![SyntaxKind::L_PAREN, SyntaxKind::L_BRACK, SyntaxKind::DOT]);
    proof {
        lemma_first_match(p@.source.tokens, p@.source.pos, kinds@, 0);
    }
    p.at_any(&kinds)
}

#[verifier::rlimit(50)]
fn parse_precedence_1_expr(p: &mut Parser, Ghost(d): Ghost<nat>) -> (completed: CompletedMarker)
    requires
        old(p)@.wf(),
        d >= old(p)@.remaining(),
    ensures
        final(p)@ == precedence_1_expr(old(p)@, d).state,
        advances(old(p)@, final(p)@),
        built(old(p)@, final(p)@, completed, precedence_1_expr(old(p)@, d).start),
    decreases d, 9nat, 0nat,
{
    p.skip_newlines();
    let mut marker = parse_primary(p, Ghost(d));
    let ghost first = p@;
    let ghost first_start = marker.start_pos as int;
    loop
        invariant_except_break
            postfix_loop(p@, d, marker.start_pos as int) == postfix_loop(first, d, first_start),
        invariant
            p@.wf(),
            d >= p@.remaining(),
            advances(old(p)@, p@),
            old(p)@.events.len() <= marker.start_pos,
            just_completed(p@.events, marker),
        ensures
            (Parsed { state: p@, start: marker.start_pos as int }) == postfix_loop(
                first,
                d,
                first_start,
            ),
        decreases p@.remaining(),
    {
        if let Some(kind) = at_postfix(p) {
            if kind == SyntaxKind::L_PAREN {
                let new_marker = marker.precede(p);
                marker = parse_f_call(p, new_marker, Ghost(d));
            } else if kind == SyntaxKind::L_BRACK {
                let new_marker = marker.precede(p);
                marker = parse_index_expr(p, new_marker, Ghost(d));
            } else {
                let new_marker = marker.precede(p);
                marker = parse_member_expr(p, new_marker);
                if p.at(SyntaxKind::L_PAREN) {
                    let m = marker.undo_completion(p);
                    marker = parse_method_call(p, m, Ghost(d));
                }
            }
        } else {
            break ;
        }
    }
    marker
}

fn at_prefix_operator(p: &Parser) -> (found: Option<SyntaxKind>)
    ensures
        found == p@.at_any(seq![SyntaxKind::PLUS, SyntaxKind::MINUS, SyntaxKind::BANG]),
        found is Some ==> p@.can_eat(found.unwrap()),
{
    let kinds = [SyntaxKind::PLUS, SyntaxKind::MINUS, SyntaxKind::BANG];
    assert(kinds@ =~= seq![SyntaxKind::PLUS, SyntaxKind::MINUS, SyntaxKind::BANG]);
    proof {
        lemma_first_match(p@.source.tokens, p@.source.pos, kinds@, 0);
    }
    p.at_any(&kinds)
}

#[verifier::rlimit(50)]
fn parse_precedence_2_expr(p: &mut Parser, Ghost(d): Ghost<nat>) -> (completed: CompletedMarker)
    requires
        old(p)@.wf(),
        d >= old(p)@.remaining(),
    ensures
        final(p)@ == precedence_2_expr(old(p)@, d).state,
        advances(old(p)@, final(p)@),
        built(old(p)@, final(p)@, completed, precedence_2_expr(old(p)@, d).start),
    decreases d, 10nat, 0nat,
{
    p.skip_newlines();
    if let Some(kind) = at_prefix_operator(p) {
        let marker = p.start();
        p.bump(kind);
        parse_precedence_2_expr(p, Ghost((d - 1) as nat));
        marker.complete(p, SyntaxKind::PREFIX_UNARY_EXPR)
    } else {
        parse_precedence_1_expr(p, Ghost(d))
    }
}

#[verifier::rlimit(50)]
fn parse_operand(p: &mut Parser, level: u8, Ghost(d): Ghost<nat>) -> (completed: CompletedMarker)
    requires
        old(p)@.wf(),
        d >= old(p)@.remaining(),
        3 <= level <= 8,
    ensures
        final(p)@ == operand(old(p)@, d, level as int).state,
        advances(old(p)@, final(p)@),
        built(old(p)@, final(p)@, completed, operand(old(p)@, d, level as int).start),
    decreases d, 4 * level + 2, 0nat,
{
    match level {
        3 => parse_precedence_2_expr(p, Ghost(d)),
        4 => parse_precedence_3_expr(p, Ghost(d)),
        5 => parse_precedence_4_expr(p, Ghost(d)),
        6 => parse_precedence_5_expr(p, Ghost(d)),
        7 => parse_precedence_6_expr(p, Ghost(d)),
        _ => parse_precedence_7_expr(p, Ghost(d)),
    }
}

#[verifier::rlimit(50)]
fn parse_infix_binop(p: &mut Parser, level: u8, Ghost(d): Ghost<nat>) -> (completed:
    CompletedMarker)
    requires
        old(p)@.wf(),
        d >= old(p)@.remaining(),
        3 <= level <= 8,
    ensures
        final(p)@ == infix_binop(old(p)@, d, level as int).state,
        advances(old(p)@, final(p)@),
        built(old(p)@, final(p)@, completed, infix_binop(old(p)@, d, level as int).start),
    decreases d, 4 * level + 4, 0nat,
{
    p.skip_newlines();
    let mut completed = parse_operand(p, level, Ghost(d));
    let ghost first = p@;
    let ghost first_start = completed.start_pos as int;
    loop
        invariant_except_break
            infix_loop(p@, d, level as int, completed.start_pos as int) == infix_loop(
                first,
                d,
                level as int,
                first_start,
            ),
        invariant
            p@.wf(),
            3 <= level <= 8,
            d >= p@.remaining(),
            advances(old(p)@, p@),
            old(p)@.events.len() <= completed.start_pos,
            just_completed(p@.events, completed),
        ensures
            (Parsed { state: p@, start: completed.start_pos as int }) == infix_loop(
                first,
                d,
                level as int,
                first_start,
            ),
        decreases p@.remaining(),
    {
        match next_operator(p, level) {
            Some(kind) => {
                let prec = completed.precede(p);
                p.bump(kind);
                parse_operand(p, level, Ghost(d));
                completed = prec.complete(p, SyntaxKind::BIN_EXPR);
            },
            None => {
                break ;
            },
        }
    }
    completed
}

#[verifier::rlimit(50)]
fn parse_precedence_3_expr(p: &mut Parser, Ghost(d): Ghost<nat>) -> (completed: CompletedMarker)
    requires
        old(p)@.wf(),
        d >= old(p)@.remaining(),
    ensures
        final(p)@ == infix_binop(old(p)@, d, 3).state,
        advances(old(p)@, final(p)@),
        built(old(p)@, final(p)@, completed, infix_binop(old(p)@, d, 3).start),
    decreases d, 17nat, 0nat,
{
    parse_infix_binop(p, 3, Ghost(d))
}

#[verifier::rlimit(50)]
fn parse_precedence_4_expr(p: &mut Parser, Ghost(d): Ghost<nat>) -> (completed: CompletedMarker)
    requires
        old(p)@.wf(),
        d >= old(p)@.remaining(),
    ensures
        final(p)@ == infix_binop(old(p)@, d, 4).state,
        advances(old(p)@, final(p)@),
        built(old(p)@, final(p)@, completed, infix_binop(old(p)@, d, 4).start),
    decreases d, 21nat, 0nat,
{
    parse_infix_binop(p, 4, Ghost(d))
}

#[verifier::rlimit(50)]
fn parse_precedence_5_expr(p: &mut Parser, Ghost(d): Ghost<nat>) -> (completed: CompletedMarker)
    requires
        old(p)@.wf(),
        d >= old(p)@.remaining(),
    ensures
        final(p)@ == infix_binop(old(p)@, d, 5).state,
        advances(old(p)@, final(p)@),
        built(old(p)@, final(p)@, completed, infix_binop(old(p)@, d, 5).start),
    decreases d, 25nat, 0nat,
{
    parse_infix_binop(p, 5, Ghost(d))
}

#[verifier::rlimit(50)]
fn parse_precedence_6_expr(p: &mut Parser, Ghost(d): Ghost<nat>) -> (completed: CompletedMarker)
    requires
        old(p)@.wf(),
        d >= old(p)@.remaining(),
    ensures
        final(p)@ == infix_binop(old(p)@, d, 6).state,
        advances(old(p)@, final(p)@),
        built(old(p)@, final(p)@, completed, infix_binop(old(p)@, d, 6).start),
    decreases d, 29nat, 0nat,
{
    parse_infix_binop(p, 6, Ghost(d))
}

#[verifier::rlimit(50)]
fn parse_precedence_7_expr(p: &mut Parser, Ghost(d): Ghost<nat>) -> (completed: CompletedMarker)
    requires
        old(p)@.wf(),
        d >= old(p)@.remaining(),
    ensures
        final(p)@ == infix_binop(old(p)@, d, 7).state,
        advances(old(p)@, final(p)@),
        built(old(p)@, final(p)@, completed, infix_binop(old(p)@, d, 7).start),
    decreases d, 33nat, 0nat,
{
    parse_infix_binop(p, 7, Ghost(d))
}

#[verifier::rlimit(50)]
fn parse_precedence_8_expr(p: &mut Parser, Ghost(d): Ghost<nat>) -> (completed: CompletedMarker)
    requires
        old(p)@.wf(),
        d >= old(p)@.remaining(),
    ensures
        final(p)@ == infix_binop(old(p)@, d, 8).state,
        advances(old(p)@, final(p)@),
        built(old(p)@, final(p)@, completed, infix_binop(old(p)@, d, 8).start),
    decreases d, 37nat, 0nat,
{
    parse_infix_binop(p, 8, Ghost(d))
}

#[verifier::rlimit(50)]
fn parse_precedence_9_expr(p: &mut Parser, Ghost(d): Ghost<nat>) -> (completed: CompletedMarker)
    requires
        old(p)@.wf(),
        d >= old(p)@.remaining(),
    ensures
        final(p)@ == precedence_9_expr(old(p)@, d).state,
        advances(old(p)@, final(p)@),
        built(old(p)@, final(p)@, completed, precedence_9_expr(old(p)@, d).start),
    decreases d, 40nat, 0nat,
{
    p.skip_newlines();
    let first = parse_precedence_8_expr(p, Ghost(d));
    match next_operator(p, 9) {
        Some(kind) => {
            let prec = first.precede(p);
            p.bump(kind);
            parse_precedence_9_expr(p, Ghost((d - 1) as nat));
            prec.complete(p, SyntaxKind::BIN_EXPR)
        },
        None => first,
    }
}

#[verifier::rlimit(50)]
fn parse_expr(p: &mut Parser, Ghost(d): Ghost<nat>) -> (completed: CompletedMarker)
    requires
        old(p)@.wf(),
        d >= old(p)@.remaining(),
    ensures
        final(p)@ == expr(old(p)@, d).state,
        advances(old(p)@, final(p)@),
        built(old(p)@, final(p)@, completed, expr(old(p)@, d).start),
    decreases d, 41nat, 0nat,
{
    parse_precedence_9_expr(p, Ghost(d))
}

#[verifier::rlimit(50)]
fn parse_farg(p: &mut Parser, Ghost(d): Ghost<nat>)
    requires
        old(p)@.wf(),
        d >= old(p)@.remaining(),
    ensures
        final(p)@ == farg(old(p)@, d),
        advances(old(p)@, final(p)@),
    decreases d, 42nat, 0nat,
{
    p.skip_newlines();
    parse_expr(p, Ghost(d));
}

#[verifier::rlimit(50)]
fn parse_for_in_expr(p: &mut Parser, Ghost(d): Ghost<nat>) -> (completed: CompletedMarker)
    requires
        old(p)@.wf(),
        d >= old(p)@.remaining(),
    ensures
        final(p)@ == for_in_expr(old(p)@, d),
        advances(old(p)@, final(p)@),
    decreases d, 43nat, 0nat,
{
    let marker = p.start();
    parse_expr(p, Ghost(d));
    p.expect(SyntaxKind::IN_KW);
    parse_expr(p, Ghost(d));
    marker.complete(p, SyntaxKind::FOR_IN_EXPR)
}

#[verifier::rlimit(50)]
fn parse_declaration(p: &mut Parser, Ghost(d): Ghost<nat>) -> (completed: CompletedMarker)
    requires
        old(p)@.wf(),
        d >= old(p)@.remaining(),
    ensures
        final(p)@ == declaration(old(p)@, d),
        advances(old(p)@, final(p)@),
    decreases d, 44nat, 0nat,
{
    p.skip_newlines();
    let mk = p.start();
    p.expect(SyntaxKind::LET_KW);
    p.expect(SyntaxKind::IDENT);
    p.expect(SyntaxKind::EQ);
    parse_expr(p, Ghost(d));
    p.require_newline();
    mk.complete(p, SyntaxKind::DECLARATION_STMT)
}

#[verifier::rlimit(50)]
fn parse_for(p: &mut Parser, Ghost(d): Ghost<nat>) -> (completed: CompletedMarker)
    requires
        old(p)@.wf(),
        d >= old(p)@.remaining(),
        old(p)@.can_eat(SyntaxKind::FOR_KW),
    ensures
        final(p)@ == for_stmt(old(p)@, d),
        advances(old(p)@, final(p)@),
    decreases d, 44nat, 0nat,
{
    p.skip_newlines();
    let marker = p.start();
    p.bump(SyntaxKind::FOR_KW);
    parse_for_in_expr(p, Ghost(d));
    parse_expr_block(p, Ghost(d));
    p.require_newline();
    marker.complete(p, SyntaxKind::FOR_STMT)
}

#[verifier::rlimit(50)]
fn parse_while(p: &mut Parser, Ghost(d): Ghost<nat>) -> (completed: CompletedMarker)
    requires
        old(p)@.wf(),
        d >= old(p)@.remaining(),
        old(p)@.can_eat(SyntaxKind::WHILE_KW),
    ensures
        final(p)@ == while_stmt(old(p)@, d),
        advances(old(p)@, final(p)@),
    decreases d, 44nat, 0nat,
{
    p.skip_newlines();
    let marker = p.start();
    p.bump(SyntaxKind::WHILE_KW);
    parse_expr(p, Ghost(d));
    parse_expr_block(p, Ghost(d));
    p.require_newline();
    marker.complete(p, SyntaxKind::WHILE_STMT)
}

#[verifier::rlimit(50)]
fn parse_control_value(p: &mut Parser, Ghost(d): Ghost<nat>)
    requires
        old(p)@.wf(),
        d >= old(p)@.remaining(),
    ensures
        final(p)@ == control_value(old(p)@, d),
        old(p)@.leads_to(final(p)@),
    decreases d, 43nat, 0nat,
{
    if !p.at(SyntaxKind::NEWLINE) && !p.at(SyntaxKind::EOF) {
        parse_expr(p, Ghost(d));
    } else {
        proof {
            crate::parser::lemma_leads_to_refl(p@);
        }
    }
}

#[verifier::rlimit(50)]
fn parse_control_stmt(p: &mut Parser, Ghost(d): Ghost<nat>) -> (completed: CompletedMarker)
    requires
        old(p)@.wf(),
        d >= old(p)@.remaining(),
        starts_control(old(p)@.current()),
    ensures
        final(p)@ == control_stmt(old(p)@, d),
        advances(old(p)@, final(p)@),
    decreases d, 44nat, 0nat,
{
    p.skip_newlines();
    let marker = p.start();
    let kind = if p.eat(SyntaxKind::CONTINUE_KW) {
        SyntaxKind::CONTINUE_STMT
    } else if p.eat(SyntaxKind::RETURN_KW) {
        parse_control_value(p, Ghost(d));
        SyntaxKind::RETURN_STMT
    } else {
        p.bump(SyntaxKind::BREAK_KW);
        parse_control_value(p, Ghost(d));
        SyntaxKind::BREAK_STMT
    };
    p.require_newline();
    marker.complete(p, kind)
}

/// The form of a statement, told by its first token.
fn statement_form(tok: SyntaxKind) -> (form: StatementForm)
    ensures
        form == form_of(tok),
{
    match tok {
        SyntaxKind::L_PAREN
        | SyntaxKind::L_BRACK
        | SyntaxKind::L_CURLY
        | SyntaxKind::PLUS
        | SyntaxKind::MINUS
        | SyntaxKind::BANG
        | SyntaxKind::TRUE_KW
        | SyntaxKind::FALSE_KW
        | SyntaxKind::INT_NUMBER
        | SyntaxKind::IDENT
        | SyntaxKind::STR
        | SyntaxKind::MULTILINE_STR
        | SyntaxKind::IF_KW => StatementForm::Expr,
        SyntaxKind::LET_KW => StatementForm::Declaration,
        SyntaxKind::FOR_KW => StatementForm::For,
        SyntaxKind::WHILE_KW => StatementForm::While,
        SyntaxKind::CONTINUE_KW | SyntaxKind::BREAK_KW | SyntaxKind::RETURN_KW => {
            StatementForm::Control
        },
        _ => StatementForm::Other,
    }
}

#[verifier::rlimit(50)]
fn parse_statement_body(p: &mut Parser, tok: SyntaxKind, Ghost(d): Ghost<nat>)
    requires
        old(p)@.wf(),
        d >= old(p)@.remaining(),
        tok == old(p)@.current(),
    ensures
        final(p)@ == statement_body(old(p)@, d),
        advances(old(p)@, final(p)@),
    decreases d, 44nat, 1nat,
{
    match statement_form(tok) {
        StatementForm::Expr => {
            parse_expr(p, Ghost(d));
        },
        StatementForm::Declaration => {
            parse_declaration(p, Ghost(d));
        },
        StatementForm::For => {
            parse_for(p, Ghost(d));
        },
        StatementForm::While => {
            parse_while(p, Ghost(d));
        },
        StatementForm::Control => {
            parse_control_stmt(p, Ghost(d));
        },
        StatementForm::Other => {
            p.unexpected();
        },
    }
}

#[verifier::rlimit(50)]
fn parse_statement(p: &mut Parser, Ghost(d): Ghost<nat>)
    requires
        old(p)@.wf(),
        d >= old(p)@.remaining(),
    ensures
        final(p)@ == statement(old(p)@, d),
        advances(old(p)@, final(p)@),
    decreases d, 45nat, 0nat,
{
    let tok = p.current();
    let statement_marker = p.start();
    parse_statement_body(p, tok, Ghost(d));
    statement_marker.complete(p, SyntaxKind::STMT);
}

#[verifier::rlimit(50)]
fn parse_lang_item(p: &mut Parser, Ghost(d): Ghost<nat>)
    requires
        old(p)@.wf(),
        d >= old(p)@.remaining(),
    ensures
        final(p)@ == lang_item(old(p)@, d),
        advances(old(p)@, final(p)@),
{
    p.skip_newlines();
    parse_statement(p, Ghost(d));
}

/// Parses a whole file: the imports, then the statements, in one `ROOT`
/// node.
#[verifier::rlimit(50)]
pub fn parse_root(p: &mut Parser)
    requires
        old(p)@.wf(),
    ensures
        final(p)@ == root(old(p)@),
        final(p)@.wf(),
        final(p)@.source.tokens == old(p)@.source.tokens,
        final(p)@.at(SyntaxKind::EOF),
        no_eof(old(p)@.source.tokens) ==> final(p)@.source.pos == old(p)@.source.tokens.len(),
        crate::parser::event::extends(old(p)@.events, final(p)@.events),
        old(p)@.events.len() == 0 ==> crate::parser::event::rooted(final(p)@.events),
        old(p)@.events.len() == 0 ==> final(p)@.events[0] == (crate::parser::event::Event::Start {
            kind: SyntaxKind::ROOT,
            forward_parent: None,
        }),
{
    let ghost d = p@.remaining();
    let marker = p.start();
    let ghost entry = p@;
    loop
        invariant_except_break
            root_imports(p@) == root_imports(entry),
        invariant
            p@.wf(),
            d >= p@.remaining(),
            pending(p@.events, marker.pos as int),
            marker.pos == old(p)@.events.len(),
            old(p)@.leads_to(p@),
        ensures
            p@ == root_imports(entry),
        decreases p@.remaining(),
    {
        p.skip_newlines();
        if p.at(SyntaxKind::EOF) || !p.at(SyntaxKind::IMPORT_KW) {
            break ;
        }
        parse_import_stmt(p);
    }
    let ghost middle = p@;
    loop
        invariant_except_break
            root_items(p@, d) == root_items(middle, d),
        invariant
            p@.wf(),
            d >= p@.remaining(),
            pending(p@.events, marker.pos as int),
            marker.pos == old(p)@.events.len(),
            old(p)@.leads_to(p@),
        ensures
            p@ == root_items(middle, d),
            p@.at(SyntaxKind::EOF),
        decreases p@.remaining(),
    {
        p.skip_newlines();
        if p.at(SyntaxKind::EOF) {
            break ;
        }
        parse_lang_item(p, Ghost(d));
    }
    proof {
        crate::parser::event::lemma_pending_node(p@.events, marker.pos as int, SyntaxKind::ROOT);
        assert(p@.events.take(marker.pos as int) =~= old(p)@.events);
    }
    marker.complete(p, SyntaxKind::ROOT);
    proof {
        if old(p)@.events.len() == 0 {
            crate::parser::event::lemma_node_rooted(p@.events);
        }
    }
}

} // verus!
