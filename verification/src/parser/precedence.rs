//! How operators group: what the grammar makes of `a OP1 b OP2 c`.

use crate::parser::event::{
    chain_kinds, chain_taken, lemma_resolve_start, link_target, opened, resolved, resolved_from,
    Event,
};
use crate::parser::grammar::{
    expr, form_of, infix_binop, infix_loop, lang_item, lemma_first_match, operand,
    operator_ahead, operators, postfix_loop, precedence, precedence_1_expr, precedence_2_expr,
    precedence_9_expr, primary, root, root_imports, root_items, statement, statement_body,
    Parsed, StatementForm,
};
use crate::parser::text_token_source::{
    first_holding, first_match_from, holds_at, kind_at, matches_at, SourceToken, SourceView,
};
use crate::parser::token_source::FindProperty;
use crate::parser::{start_state, ParserView};
use crate::syntax_kind::SyntaxKind;
use vstd::prelude::*;

verus! {

/// Whether a token of this kind is an operand by itself: a name or a
/// number.
pub open spec fn is_operand(kind: SyntaxKind) -> bool {
    kind == SyntaxKind::IDENT || kind == SyntaxKind::INT_NUMBER
}

/// Whether the kind is an infix operator.
pub open spec fn is_operator(kind: SyntaxKind) -> bool {
    precedence(kind) != 0
}

/// What stands at place `j`: the end of the tokens, or the operator `next`
/// with an operand after it.
pub open spec fn followed_by(tokens: Seq<SourceToken>, j: int, next: Option<SyntaxKind>) -> bool {
    match next {
        None => j == tokens.len(),
        Some(op) => is_operator(op) && matches_at(tokens, j, op) && is_operand(
            kind_at(tokens, j + op.parts().len()),
        ),
    }
}

/// The level of what follows: that of the operator, or 10 at the end.
pub open spec fn next_level(next: Option<SyntaxKind>) -> int {
    match next {
        None => 10,
        Some(op) => precedence(op),
    }
}

/// The parser after an operand by itself: one `PRIMARY_EXPR` around the
/// token under the cursor.
pub open spec fn node(s: ParserView) -> ParserView {
    s.start().bump_any().complete(s.events.len() as int, SyntaxKind::PRIMARY_EXPR)
}

/// The parser after `x OP y`, two operands by themselves: one `BIN_EXPR`
/// around the two and the operator.
pub open spec fn bin(s: ParserView, op: SyntaxKind) -> ParserView {
    let x = node(s);
    node(x.precede(s.events.len() as int).eat(op)).complete(
        x.events.len() as int,
        SyntaxKind::BIN_EXPR,
    )
}

/// The parser after `(x OP1 y) OP2 z`.
pub open spec fn left_grouped(s: ParserView, op1: SyntaxKind, op2: SyntaxKind) -> ParserView {
    let first = bin(s, op1);
    node(first.precede(node(s).events.len() as int).eat(op2)).complete(
        first.events.len() as int,
        SyntaxKind::BIN_EXPR,
    )
}

/// The parser after `x OP1 (y OP2 z)`.
pub open spec fn right_grouped(s: ParserView, op1: SyntaxKind, op2: SyntaxKind) -> ParserView {
    let x = node(s);
    bin(x.precede(s.events.len() as int).eat(op1), op2).complete(
        x.events.len() as int,
        SyntaxKind::BIN_EXPR,
    )
}

/// The places of the operators of level 3, 2 and 1 parts in `operators`.
proof fn lemma_operators(k: int)
    requires
        0 <= k < operators().len(),
    ensures
        operators().len() == 24,
        is_operator(operators()[k]),
        operators()[k].parts().len() == if k < 2 {
            3int
        } else if k < 16 {
            2int
        } else {
            1int
        },
{
    let ops = operators();
    if k == 0 {
    } else if k == 1 {
    } else if k == 2 {
    } else if k == 3 {
    } else if k == 4 {
    } else if k == 5 {
    } else if k == 6 {
    } else if k == 7 {
    } else if k == 8 {
    } else if k == 9 {
    } else if k == 10 {
    } else if k == 11 {
    } else if k == 12 {
    } else if k == 13 {
    } else if k == 14 {
    } else if k == 15 {
    } else if k == 16 {
    } else if k == 17 {
    } else if k == 18 {
    } else if k == 19 {
    } else if k == 20 {
    } else if k == 21 {
    } else if k == 22 {
    } else {
    }
}

/// Every operator stands in `operators`.
proof fn lemma_operator_place(op: SyntaxKind) -> (k: int)
    requires
        is_operator(op),
    ensures
        0 <= k < 24,
        operators()[k] == op,
{
    let ops = operators();
    match op {
        SyntaxKind::AMP2_EQ => 0,
        SyntaxKind::PIPE2_EQ => 1,
        SyntaxKind::AMP2 => 2,
        SyntaxKind::PIPE2 => 3,
        SyntaxKind::PLUS_EQ => 4,
        SyntaxKind::MINUS_EQ => 5,
        SyntaxKind::ASTERISK_EQ => 6,
        SyntaxKind::SLASH_EQ => 7,
        SyntaxKind::MODULUS_EQ => 8,
        SyntaxKind::AMP_EQ => 9,
        SyntaxKind::PIPE_EQ => 10,
        SyntaxKind::CARET_EQ => 11,
        SyntaxKind::EQ_EQ => 12,
        SyntaxKind::BANG_EQ => 13,
        SyntaxKind::L_ANGLE_EQ => 14,
        SyntaxKind::R_ANGLE_EQ => 15,
        SyntaxKind::EQ => 16,
        SyntaxKind::PLUS => 17,
        SyntaxKind::MINUS => 18,
        SyntaxKind::ASTERISK => 19,
        SyntaxKind::SLASH => 20,
        SyntaxKind::PERCENT => 21,
        SyntaxKind::L_ANGLE => 22,
        _ => 23,
    }
}

/// Where an operator stands with an operand after it, another operator
/// that starts at the same place is a shorter one.
proof fn lemma_other_operator(tokens: Seq<SourceToken>, j: int, op: SyntaxKind, other: SyntaxKind)
    requires
        followed_by(tokens, j, Some(op)),
        is_operator(other),
        matches_at(tokens, j, other),
    ensures
        other == op || other.parts().len() < op.parts().len(),
{
}

/// The first of `kinds` from place `a` on that starts at place `i` is the
/// first from a later place `b` on, where none between them starts there.
proof fn lemma_first_match_skip(
    tokens: Seq<SourceToken>,
    i: int,
    kinds: Seq<SyntaxKind>,
    a: int,
    b: int,
)
    requires
        0 <= a <= b <= kinds.len(),
        forall|k: int| a <= k < b ==> !matches_at(tokens, i, #[trigger] kinds[k]),
    ensures
        first_match_from(tokens, i, kinds, a) == first_match_from(tokens, i, kinds, b),
    decreases b - a,
{
    if a < b {
        assert(!matches_at(tokens, i, kinds[a]));
        lemma_first_match_skip(tokens, i, kinds, a + 1, b);
    }
}

/// What the parser sees ahead where `next` follows: that operator, or
/// none at the end; and nothing that would go on with the operand before.
proof fn lemma_ahead(s: ParserView, next: Option<SyntaxKind>)
    requires
        0 <= s.source.pos <= s.source.tokens.len() <= usize::MAX,
        followed_by(s.source.tokens, s.source.pos, next),
    ensures
        s.next_non_newline_any(operators()) == next,
        next is Some ==> s.bump_to(s.next_not_newline()) == s && s.can_eat(next.unwrap()),
        forall|level: int|
            #[trigger] operator_ahead(s, level) == if next is Some && precedence(next.unwrap())
                == level {
                next
            } else {
                None
            },
        s.at_any(seq![SyntaxKind::L_PAREN, SyntaxKind::L_BRACK, SyntaxKind::DOT]) is None,
        !s.at(SyntaxKind::NEWLINE),
        next is None ==> s.at(SyntaxKind::EOF),
{
    let tokens = s.source.tokens;
    let j = s.source.pos;
    let not_newline = FindProperty::KindIsNot(SyntaxKind::NEWLINE);
    let postfix = seq![SyntaxKind::L_PAREN, SyntaxKind::L_BRACK, SyntaxKind::DOT];
    lemma_first_match(tokens, j, postfix, 0);
    assert(postfix[0] == SyntaxKind::L_PAREN && postfix[1] == SyntaxKind::L_BRACK && postfix[2]
        == SyntaxKind::DOT);
    match next {
        None => {
            assert(first_holding(tokens, j, not_newline) is None);
        },
        Some(op) => {
            let place = lemma_operator_place(op);
            assert(holds_at(tokens, j, not_newline));
            assert(first_holding(tokens, j, not_newline) == Some(j));
            assert(s.next_not_newline().offset == 0);
            assert(s.next_not_newline().kind == kind_at(tokens, j));
            assert(s.source.distance_to(s.next_not_newline()) == 0);
            assert forall|k: int| 0 <= k < place implies !matches_at(
                tokens,
                j,
                #[trigger] operators()[k],
            ) by {
                lemma_operators(k);
                lemma_operators(place);
                if matches_at(tokens, j, operators()[k]) {
                    lemma_other_operator(tokens, j, op, operators()[k]);
                    if operators()[k] == op {
                        lemma_operators_differ(k, place);
                    }
                }
            }
            lemma_operators(place);
            lemma_first_match_skip(tokens, j, operators(), 0, place);
        },
    }
}

/// No operator stands in `operators` twice.
proof fn lemma_operators_differ(a: int, b: int)
    requires
        0 <= a < b < 24,
    ensures
        operators()[a] != operators()[b],
{
    lemma_place_is(a);
    lemma_place_is(b);
}

/// The rank of the operator at place `k` in `operators` is `k`.
proof fn lemma_place_is(k: int)
    requires
        0 <= k < 24,
    ensures
        operator_rank(operators()[k]) == k,
{
    lemma_operators(k);
    if k == 0 {
    } else if k == 1 {
    } else if k == 2 {
    } else if k == 3 {
    } else if k == 4 {
    } else if k == 5 {
    } else if k == 6 {
    } else if k == 7 {
    } else if k == 8 {
    } else if k == 9 {
    } else if k == 10 {
    } else if k == 11 {
    } else if k == 12 {
    } else if k == 13 {
    } else if k == 14 {
    } else if k == 15 {
    } else if k == 16 {
    } else if k == 17 {
    } else if k == 18 {
    } else if k == 19 {
    } else if k == 20 {
    } else if k == 21 {
    } else if k == 22 {
    } else {
    }
}

/// The place of an operator in `operators`.
pub open spec fn operator_rank(op: SyntaxKind) -> int {
    match op {
        SyntaxKind::AMP2_EQ => 0,
        SyntaxKind::PIPE2_EQ => 1,
        SyntaxKind::AMP2 => 2,
        SyntaxKind::PIPE2 => 3,
        SyntaxKind::PLUS_EQ => 4,
        SyntaxKind::MINUS_EQ => 5,
        SyntaxKind::ASTERISK_EQ => 6,
        SyntaxKind::SLASH_EQ => 7,
        SyntaxKind::MODULUS_EQ => 8,
        SyntaxKind::AMP_EQ => 9,
        SyntaxKind::PIPE_EQ => 10,
        SyntaxKind::CARET_EQ => 11,
        SyntaxKind::EQ_EQ => 12,
        SyntaxKind::BANG_EQ => 13,
        SyntaxKind::L_ANGLE_EQ => 14,
        SyntaxKind::R_ANGLE_EQ => 15,
        SyntaxKind::EQ => 16,
        SyntaxKind::PLUS => 17,
        SyntaxKind::MINUS => 18,
        SyntaxKind::ASTERISK => 19,
        SyntaxKind::SLASH => 20,
        SyntaxKind::PERCENT => 21,
        SyntaxKind::L_ANGLE => 22,
        _ => 23,
    }
}

/// Whether an operand by itself stands under the cursor.
pub open spec fn operand_at(s: ParserView) -> bool {
    &&& 0 <= s.source.pos < s.source.tokens.len() <= usize::MAX
    &&& is_operand(kind_at(s.source.tokens, s.source.pos))
}

/// Where the cursor stands after an operand by itself.
proof fn lemma_node(s: ParserView)
    requires
        operand_at(s),
    ensures
        node(s).source == (SourceView { tokens: s.source.tokens, pos: s.source.pos + 1 }),
        node(s).events.len() == s.events.len() + 3,
{
}

/// Where the cursor stands after an operator was taken.
proof fn lemma_taken(s: ParserView, start: int, op: SyntaxKind)
    requires
        0 <= s.source.pos <= s.source.tokens.len() <= usize::MAX,
        followed_by(s.source.tokens, s.source.pos, Some(op)),
        0 <= start < s.events.len(),
    ensures
        operand_at(s.precede(start).eat(op)),
        s.precede(start).eat(op).source == (SourceView {
            tokens: s.source.tokens,
            pos: s.source.pos + op.parts().len(),
        }),
        s.precede(start).eat(op).events.len() == s.events.len() + 2,
        s.precede(start).eat(op).remaining() < s.remaining(),
        s.precede(start).can_eat(op),
{
}

/// An operand by itself, at level 2.
proof fn lemma_alone_2(s: ParserView, d: nat, next: Option<SyntaxKind>)
    requires
        operand_at(s),
        followed_by(s.source.tokens, s.source.pos + 1, next),
    ensures
        precedence_2_expr(s, d) == (Parsed { state: node(s), start: s.events.len() as int }),
{
    let tokens = s.source.tokens;
    let pos = s.source.pos;
    let prefix = seq![SyntaxKind::PLUS, SyntaxKind::MINUS, SyntaxKind::BANG];
    assert(prefix[0] == SyntaxKind::PLUS && prefix[1] == SyntaxKind::MINUS && prefix[2]
        == SyntaxKind::BANG);
    lemma_first_match(tokens, pos, prefix, 0);
    assert(s.skip_newlines() == s);
    assert(s.at_any(prefix) is None);
    let s1 = s.start();
    let plain = seq![SyntaxKind::INT_NUMBER, SyntaxKind::IDENT];
    assert(plain[0] == SyntaxKind::INT_NUMBER && plain[1] == SyntaxKind::IDENT);
    lemma_first_match(tokens, pos, plain, 0);
    assert(s1.at_any(plain) is Some);
    assert(primary(s, d) == (Parsed { state: node(s), start: s.events.len() as int }));
    lemma_node(s);
    lemma_ahead(node(s), next);
    assert(postfix_loop(node(s), d, s.events.len() as int) == (Parsed {
        state: node(s),
        start: s.events.len() as int,
    }));
    assert(precedence_1_expr(s, d) == (Parsed { state: node(s), start: s.events.len() as int }));
}

/// An operand by itself, at the levels whose operators do not follow.
pub proof fn lemma_alone(s: ParserView, d: nat, level: int, next: Option<SyntaxKind>)
    requires
        operand_at(s),
        followed_by(s.source.tokens, s.source.pos + 1, next),
        2 <= level <= 8,
        next_level(next) > level,
    ensures
        level >= 3 ==> infix_binop(s, d, level) == (Parsed {
            state: node(s),
            start: s.events.len() as int,
        }),
        level >= 3 ==> operand(s, d, level) == (Parsed {
            state: node(s),
            start: s.events.len() as int,
        }),
        level < 8 ==> operand(s, d, level + 1) == (Parsed {
            state: node(s),
            start: s.events.len() as int,
        }),
    decreases level,
{
    assert(s.skip_newlines() == s);
    lemma_node(s);
    lemma_ahead(node(s), next);
    if level == 2 {
        lemma_alone_2(s, d, next);
    } else {
        lemma_alone(s, d, level - 1, next);
        assert(operator_ahead(node(s), level) is None);
        assert(infix_loop(node(s), d, level, s.events.len() as int) == (Parsed {
            state: node(s),
            start: s.events.len() as int,
        }));
    }
}

/// What `x OP y` needs: an operand, the operator `op`, an operand, and
/// `next` after them.
pub open spec fn two_at(s: ParserView, op: SyntaxKind, next: Option<SyntaxKind>) -> bool {
    &&& operand_at(s)
    &&& followed_by(s.source.tokens, s.source.pos + 1, Some(op))
    &&& followed_by(s.source.tokens, s.source.pos + 2 + op.parts().len(), next)
}

/// Where the cursor stands after `x OP y`.
proof fn lemma_bin(s: ParserView, op: SyntaxKind, next: Option<SyntaxKind>)
    requires
        two_at(s, op, next),
        s.events.len() > 0,
    ensures
        bin(s, op).source == (SourceView {
            tokens: s.source.tokens,
            pos: s.source.pos + 2 + op.parts().len(),
        }),
        bin(s, op).events.len() == s.events.len() + 9,
        bin(s, op).remaining() < s.remaining(),
        bin(s, op).remaining() < node(s).remaining(),
{
    lemma_node(s);
    lemma_taken(node(s), s.events.len() as int, op);
    lemma_node(node(s).precede(s.events.len() as int).eat(op));
}

/// `x OP y` by itself, at the level of `OP` and at the levels above whose
/// operators do not follow.
pub proof fn lemma_two(s: ParserView, d: nat, level: int, op: SyntaxKind, next: Option<SyntaxKind>)
    requires
        two_at(s, op, next),
        s.events.len() > 0,
        3 <= precedence(op) <= level <= 8,
        next_level(next) > level,
    ensures
        infix_binop(s, d, level) == (Parsed {
            state: bin(s, op),
            start: node(s).events.len() as int,
        }),
        level < 8 ==> operand(s, d, level + 1) == (Parsed {
            state: bin(s, op),
            start: node(s).events.len() as int,
        }),
    decreases level,
{
    let m = s.events.len() as int;
    let x = node(s);
    let m1 = x.events.len() as int;
    assert(s.skip_newlines() == s);
    lemma_node(s);
    lemma_ahead(x, Some(op));
    lemma_bin(s, op, next);
    lemma_ahead(bin(s, op), next);
    if level == precedence(op) {
        lemma_alone(s, d, level - 1, Some(op));
        let s1 = x.precede(m).eat(op);
        lemma_taken(x, m, op);
        lemma_alone(s1, d, level - 1, next);
        assert(operator_ahead(x, level) == Some(op));
        assert(operator_ahead(bin(s, op), level) is None);
        assert(infix_loop(bin(s, op), d, level, m1) == (Parsed { state: bin(s, op), start: m1 }));
        assert(infix_loop(x, d, level, m) == (Parsed { state: bin(s, op), start: m1 }));
    } else {
        lemma_two(s, d, level - 1, op, next);
        assert(operator_ahead(bin(s, op), level) is None);
        assert(infix_loop(bin(s, op), d, level, m1) == (Parsed { state: bin(s, op), start: m1 }));
    }
}

/// What `x OP1 y OP2 z` needs: three operands with the two operators
/// between them, and the end after them.
pub open spec fn three_at(s: ParserView, op1: SyntaxKind, op2: SyntaxKind) -> bool {
    &&& operand_at(s)
    &&& s.events.len() > 0
    &&& followed_by(s.source.tokens, s.source.pos + 1, Some(op1))
    &&& followed_by(s.source.tokens, s.source.pos + 2 + op1.parts().len(), Some(op2))
    &&& followed_by(
        s.source.tokens,
        s.source.pos + 3 + op1.parts().len() + op2.parts().len(),
        None,
    )
}

/// Where the cursor stands after `x OP1 (y OP2 z)` and after
/// `(x OP1 y) OP2 z`: at the end.
proof fn lemma_grouped(s: ParserView, op1: SyntaxKind, op2: SyntaxKind)
    requires
        three_at(s, op1, op2),
    ensures
        right_grouped(s, op1, op2).source == (SourceView {
            tokens: s.source.tokens,
            pos: s.source.tokens.len() as int,
        }),
        left_grouped(s, op1, op2).source == (SourceView {
            tokens: s.source.tokens,
            pos: s.source.tokens.len() as int,
        }),
        right_grouped(s, op1, op2).remaining() < node(s).remaining(),
        left_grouped(s, op1, op2).remaining() < bin(s, op1).remaining(),
        right_grouped(s, op1, op2).events.len() == s.events.len() + 15,
        left_grouped(s, op1, op2).events.len() == s.events.len() + 15,
{
    let m = s.events.len() as int;
    lemma_node(s);
    lemma_taken(node(s), m, op1);
    let s1 = node(s).precede(m).eat(op1);
    lemma_bin(s1, op2, None);
    lemma_bin(s, op1, Some(op2));
    lemma_taken(bin(s, op1), node(s).events.len() as int, op2);
    lemma_node(bin(s, op1).precede(node(s).events.len() as int).eat(op2));
}

/// `x OP1 y OP2 z` where `OP2` binds more than `OP1`: `OP2` takes `y` and
/// `z` first.
pub proof fn lemma_right(s: ParserView, d: nat, level: int, op1: SyntaxKind, op2: SyntaxKind)
    requires
        three_at(s, op1, op2),
        3 <= precedence(op2) < precedence(op1) <= level <= 8,
    ensures
        infix_binop(s, d, level) == (Parsed {
            state: right_grouped(s, op1, op2),
            start: node(s).events.len() as int,
        }),
        level < 8 ==> operand(s, d, level + 1) == infix_binop(s, d, level),
    decreases level,
{
    let m = s.events.len() as int;
    let x = node(s);
    let m1 = x.events.len() as int;
    let done = right_grouped(s, op1, op2);
    assert(s.skip_newlines() == s);
    lemma_node(s);
    lemma_grouped(s, op1, op2);
    lemma_ahead(x, Some(op1));
    lemma_ahead(done, None);
    assert(operator_ahead(done, level) is None);
    assert(infix_loop(done, d, level, m1) == (Parsed { state: done, start: m1 }));
    if level == precedence(op1) {
        lemma_alone(s, d, level - 1, Some(op1));
        let s1 = x.precede(m).eat(op1);
        lemma_taken(x, m, op1);
        lemma_two(s1, d, level - 1, op2, None);
        assert(operator_ahead(x, level) == Some(op1));
        assert(infix_loop(x, d, level, m) == (Parsed { state: done, start: m1 }));
    } else {
        lemma_right(s, d, level - 1, op1, op2);
    }
}

/// `x OP1 y OP2 z` where both operators are of one level below 9: `OP1`
/// takes `x` and `y` first.
pub proof fn lemma_left_same(s: ParserView, d: nat, level: int, op1: SyntaxKind, op2: SyntaxKind)
    requires
        three_at(s, op1, op2),
        3 <= precedence(op1) == precedence(op2) <= level <= 8,
    ensures
        infix_binop(s, d, level) == (Parsed {
            state: left_grouped(s, op1, op2),
            start: bin(s, op1).events.len() as int,
        }),
        level < 8 ==> operand(s, d, level + 1) == infix_binop(s, d, level),
    decreases level,
{
    let m = s.events.len() as int;
    let x = node(s);
    let m1 = x.events.len() as int;
    let first = bin(s, op1);
    let m3 = first.events.len() as int;
    let done = left_grouped(s, op1, op2);
    assert(s.skip_newlines() == s);
    lemma_node(s);
    lemma_grouped(s, op1, op2);
    lemma_bin(s, op1, Some(op2));
    lemma_ahead(x, Some(op1));
    lemma_ahead(first, Some(op2));
    lemma_ahead(done, None);
    assert(operator_ahead(done, level) is None);
    assert(infix_loop(done, d, level, m3) == (Parsed { state: done, start: m3 }));
    if level == precedence(op1) {
        lemma_alone(s, d, level - 1, Some(op1));
        let s1 = x.precede(m).eat(op1);
        lemma_taken(x, m, op1);
        lemma_alone(s1, d, level - 1, Some(op2));
        let s3 = first.precede(m1).eat(op2);
        lemma_taken(first, m1, op2);
        lemma_alone(s3, d, level - 1, None);
        assert(operator_ahead(x, level) == Some(op1));
        assert(operator_ahead(first, level) == Some(op2));
        assert(infix_loop(first, d, level, m1) == (Parsed { state: done, start: m3 }));
        assert(infix_loop(x, d, level, m) == (Parsed { state: done, start: m3 }));
    } else {
        lemma_left_same(s, d, level - 1, op1, op2);
    }
}

/// `x OP1 y OP2 z` where `OP1` binds more than `OP2`, both below level 9:
/// `OP1` takes `x` and `y` first.
pub proof fn lemma_left_upper(s: ParserView, d: nat, level: int, op1: SyntaxKind, op2: SyntaxKind)
    requires
        three_at(s, op1, op2),
        3 <= precedence(op1) < precedence(op2) <= level <= 8,
    ensures
        infix_binop(s, d, level) == (Parsed {
            state: left_grouped(s, op1, op2),
            start: bin(s, op1).events.len() as int,
        }),
        level < 8 ==> operand(s, d, level + 1) == infix_binop(s, d, level),
    decreases level,
{
    let x = node(s);
    let m1 = x.events.len() as int;
    let first = bin(s, op1);
    let m3 = first.events.len() as int;
    let done = left_grouped(s, op1, op2);
    assert(s.skip_newlines() == s);
    lemma_node(s);
    lemma_grouped(s, op1, op2);
    lemma_bin(s, op1, Some(op2));
    lemma_ahead(first, Some(op2));
    lemma_ahead(done, None);
    assert(operator_ahead(done, level) is None);
    assert(infix_loop(done, d, level, m3) == (Parsed { state: done, start: m3 }));
    if level == precedence(op2) {
        lemma_two(s, d, level - 1, op1, Some(op2));
        let s3 = first.precede(m1).eat(op2);
        lemma_taken(first, m1, op2);
        lemma_alone(s3, d, level - 1, None);
        assert(operator_ahead(first, level) == Some(op2));
        assert(infix_loop(first, d, level, m1) == (Parsed { state: done, start: m3 }));
    } else {
        lemma_left_upper(s, d, level - 1, op1, op2);
    }
}

/// Whether `x OP1 y OP2 z` groups as `x OP1 (y OP2 z)`: where `OP2` binds
/// more than `OP1`, and where both are assignments.
pub open spec fn groups_right(op1: SyntaxKind, op2: SyntaxKind) -> bool {
    precedence(op2) < precedence(op1) || (precedence(op1) == 9 && precedence(op2) == 9)
}

/// The parser after the expression `x OP1 y OP2 z`.
pub open spec fn grouped(s: ParserView, op1: SyntaxKind, op2: SyntaxKind) -> ParserView {
    if groups_right(op1, op2) {
        right_grouped(s, op1, op2)
    } else {
        left_grouped(s, op1, op2)
    }
}

/// The expression `x OP1 y OP2 z` where both operators are below level 9.
proof fn lemma_expr_low(s: ParserView, d: nat, op1: SyntaxKind, op2: SyntaxKind)
    requires
        three_at(s, op1, op2),
        precedence(op1) <= 8,
        precedence(op2) <= 8,
    ensures
        precedence_9_expr(s, d).state == grouped(s, op1, op2),
{
    assert(s.skip_newlines() == s);
    lemma_grouped(s, op1, op2);
    lemma_ahead(grouped(s, op1, op2), None);
    if precedence(op2) < precedence(op1) {
        lemma_right(s, d, 8, op1, op2);
    } else if precedence(op2) == precedence(op1) {
        lemma_left_same(s, d, 8, op1, op2);
    } else {
        lemma_left_upper(s, d, 8, op1, op2);
    }
    assert(operator_ahead(grouped(s, op1, op2), 9) is None);
}

/// The expression `x OP1 y OP2 z` where `OP2` is an assignment and `OP1`
/// is none.
proof fn lemma_expr_then_assign(s: ParserView, d: nat, op1: SyntaxKind, op2: SyntaxKind)
    requires
        three_at(s, op1, op2),
        precedence(op1) <= 8,
        precedence(op2) == 9,
        d >= 1,
    ensures
        precedence_9_expr(s, d).state == left_grouped(s, op1, op2),
{
    let x = node(s);
    let m1 = x.events.len() as int;
    let first = bin(s, op1);
    assert(s.skip_newlines() == s);
    lemma_node(s);
    lemma_grouped(s, op1, op2);
    lemma_bin(s, op1, Some(op2));
    lemma_two(s, d, 8, op1, Some(op2));
    lemma_ahead(first, Some(op2));
    assert(operator_ahead(first, 9) == Some(op2));
    let s3 = first.precede(m1).eat(op2);
    lemma_taken(first, m1, op2);
    assert(s3.skip_newlines() == s3);
    lemma_alone(s3, (d - 1) as nat, 8, None);
    lemma_node(s3);
    lemma_ahead(node(s3), None);
    assert(operator_ahead(node(s3), 9) is None);
    assert(precedence_9_expr(s3, (d - 1) as nat).state == node(s3));
}

/// The expression `x OP1 y OP2 z` where `OP1` is an assignment.
proof fn lemma_assign(s: ParserView, d: nat, op1: SyntaxKind, op2: SyntaxKind)
    requires
        three_at(s, op1, op2),
        precedence(op1) == 9,
        d >= 2,
    ensures
        precedence_9_expr(s, d).state == right_grouped(s, op1, op2),
{
    let m = s.events.len() as int;
    let x = node(s);
    assert(s.skip_newlines() == s);
    lemma_node(s);
    lemma_grouped(s, op1, op2);
    lemma_alone(s, d, 8, Some(op1));
    lemma_ahead(x, Some(op1));
    assert(operator_ahead(x, 9) == Some(op1));
    let s1 = x.precede(m).eat(op1);
    lemma_taken(x, m, op1);
    assert(s1.skip_newlines() == s1);
    lemma_bin(s1, op2, None);
    lemma_ahead(bin(s1, op2), None);
    assert(operator_ahead(bin(s1, op2), 9) is None);
    let d1 = (d - 1) as nat;
    if precedence(op2) <= 8 {
        lemma_two(s1, d1, 8, op2, None);
        assert(precedence_9_expr(s1, d1).state == bin(s1, op2));
    } else {
        let y = node(s1);
        lemma_node(s1);
        lemma_alone(s1, d1, 8, Some(op2));
        lemma_ahead(y, Some(op2));
        assert(operator_ahead(y, 9) == Some(op2));
        let s3 = y.precede(s1.events.len() as int).eat(op2);
        lemma_taken(y, s1.events.len() as int, op2);
        assert(s3.skip_newlines() == s3);
        lemma_alone(s3, (d1 - 1) as nat, 8, None);
        lemma_node(s3);
        lemma_ahead(node(s3), None);
        assert(operator_ahead(node(s3), 9) is None);
        assert(precedence_9_expr(s3, (d1 - 1) as nat).state == node(s3));
        assert(precedence_9_expr(s1, d1).state == bin(s1, op2));
    }
}

/// The expression `x OP1 y OP2 z`.
proof fn lemma_expr(s: ParserView, d: nat, op1: SyntaxKind, op2: SyntaxKind)
    requires
        three_at(s, op1, op2),
        d >= 2,
    ensures
        expr(s, d).state == grouped(s, op1, op2),
{
    if precedence(op1) == 9 {
        lemma_assign(s, d, op1, op2);
    } else if precedence(op2) == 9 {
        lemma_expr_then_assign(s, d, op1, op2);
    } else {
        lemma_expr_low(s, d, op1, op2);
    }
}

/// A leaf, a `Finish` or a complaint is handed on as it is.
proof fn lemma_resolve_plain(events: Seq<Event>, i: int)
    requires
        0 <= i < events.len(),
        !(events[i] is Start),
    ensures
        resolved_from(events, i) == if events[i] is Tombstone {
            resolved_from(events, i + 1)
        } else {
            seq![events[i]] + resolved_from(events, i + 1)
        },
{
}

/// A `Start` with one forward parent comes after that parent.
proof fn lemma_resolve_linked(events: Seq<Event>, i: int, k: int)
    requires
        0 <= i < k < events.len(),
        events[i] is Start,
        events[i]->Start_forward_parent == Some(k as usize),
        k <= usize::MAX,
        events[k] is Start,
        events[k]->Start_forward_parent is None,
    ensures
        resolved_from(events, i) == seq![
            events[k],
            Event::Start { kind: events[i]->Start_kind, forward_parent: None },
        ] + resolved_from(events.update(k, Event::Tombstone), i + 1),
{
    let kind = events[i]->Start_kind;
    let parent = events[k]->Start_kind;
    let taken = events.update(k, Event::Tombstone);
    assert(link_target(events, i, Some(k as usize)) == Some(k));
    assert(chain_kinds(taken, k, None) =~= Seq::<SyntaxKind>::empty());
    assert(chain_taken(taken, k, None) == taken);
    assert(chain_kinds(events, i, Some(k as usize)) =~= seq![parent]);
    assert(seq![kind] + seq![parent] =~= seq![kind, parent]);
    assert(opened(seq![kind, parent]) =~= seq![
        events[k],
        Event::Start { kind, forward_parent: None },
    ]);
}

/// A `Start` whose forward parent has a forward parent comes after both,
/// the outer one first.
proof fn lemma_resolve_linked_twice(events: Seq<Event>, i: int, k: int, k2: int)
    requires
        0 <= i < k < k2 < events.len(),
        k2 <= usize::MAX,
        events[i] is Start,
        events[i]->Start_forward_parent == Some(k as usize),
        events[k] is Start,
        events[k]->Start_forward_parent == Some(k2 as usize),
        events[k2] is Start,
        events[k2]->Start_forward_parent is None,
    ensures
        resolved_from(events, i) == seq![
            events[k2],
            Event::Start { kind: events[k]->Start_kind, forward_parent: None },
            Event::Start { kind: events[i]->Start_kind, forward_parent: None },
        ] + resolved_from(
            events.update(k, Event::Tombstone).update(k2, Event::Tombstone),
            i + 1,
        ),
{
    let kind = events[i]->Start_kind;
    let parent = events[k]->Start_kind;
    let outer = events[k2]->Start_kind;
    let taken = events.update(k, Event::Tombstone);
    let taken2 = taken.update(k2, Event::Tombstone);
    assert(link_target(events, i, Some(k as usize)) == Some(k));
    assert(link_target(taken, k, Some(k2 as usize)) == Some(k2));
    assert(chain_kinds(taken2, k2, None) =~= Seq::<SyntaxKind>::empty());
    assert(chain_taken(taken2, k2, None) == taken2);
    assert(chain_kinds(taken, k, Some(k2 as usize)) =~= seq![outer]);
    assert(chain_taken(taken, k, Some(k2 as usize)) == taken2);
    assert(chain_kinds(events, i, Some(k as usize)) =~= seq![parent, outer]);
    assert(seq![kind] + seq![parent, outer] =~= seq![kind, parent, outer]);
    assert(opened(seq![kind, parent, outer]) =~= seq![
        events[k2],
        Event::Start { kind: parent, forward_parent: None },
        Event::Start { kind, forward_parent: None },
    ]);
}

/// The events that the parser writes for `a OP1 (b OP2 c)`, a statement by
/// itself.
pub open spec fn right_events(a: SyntaxKind, op1: SyntaxKind, b: SyntaxKind, op2: SyntaxKind, c: SyntaxKind) -> Seq<Event> {
    seq![
        Event::Start { kind: SyntaxKind::ROOT, forward_parent: None },
        Event::Start { kind: SyntaxKind::STMT, forward_parent: None },
        Event::Start { kind: SyntaxKind::PRIMARY_EXPR, forward_parent: Some(5) },
        Event::Token { kind: a, n_raw_tokens: 1 },
        Event::Finish,
        Event::Start { kind: SyntaxKind::BIN_EXPR, forward_parent: None },
        Event::Token { kind: op1, n_raw_tokens: op1.parts().len() as u8 },
        Event::Start { kind: SyntaxKind::PRIMARY_EXPR, forward_parent: Some(10) },
        Event::Token { kind: b, n_raw_tokens: 1 },
        Event::Finish,
        Event::Start { kind: SyntaxKind::BIN_EXPR, forward_parent: None },
        Event::Token { kind: op2, n_raw_tokens: op2.parts().len() as u8 },
        Event::Start { kind: SyntaxKind::PRIMARY_EXPR, forward_parent: None },
        Event::Token { kind: c, n_raw_tokens: 1 },
        Event::Finish,
        Event::Finish,
        Event::Finish,
        Event::Finish,
        Event::Finish,
    ]
}

/// The tree of `a OP1 (b OP2 c)`, a statement by itself, as the events that
/// build it: `ROOT(STMT(BIN_EXPR(a OP1 BIN_EXPR(b OP2 c))))`.
pub open spec fn right_tree(a: SyntaxKind, op1: SyntaxKind, b: SyntaxKind, op2: SyntaxKind, c: SyntaxKind) -> Seq<Event> {
    seq![
        Event::Start { kind: SyntaxKind::ROOT, forward_parent: None },
        Event::Start { kind: SyntaxKind::STMT, forward_parent: None },
        Event::Start { kind: SyntaxKind::BIN_EXPR, forward_parent: None },
        Event::Start { kind: SyntaxKind::PRIMARY_EXPR, forward_parent: None },
        Event::Token { kind: a, n_raw_tokens: 1 },
        Event::Finish,
        Event::Token { kind: op1, n_raw_tokens: op1.parts().len() as u8 },
        Event::Start { kind: SyntaxKind::BIN_EXPR, forward_parent: None },
        Event::Start { kind: SyntaxKind::PRIMARY_EXPR, forward_parent: None },
        Event::Token { kind: b, n_raw_tokens: 1 },
        Event::Finish,
        Event::Token { kind: op2, n_raw_tokens: op2.parts().len() as u8 },
        Event::Start { kind: SyntaxKind::PRIMARY_EXPR, forward_parent: None },
        Event::Token { kind: c, n_raw_tokens: 1 },
        Event::Finish,
        Event::Finish,
        Event::Finish,
        Event::Finish,
        Event::Finish,
    ]
}

/// The events that the parser writes for `(a OP1 b) OP2 c`, a statement by
/// itself.
pub open spec fn left_events(a: SyntaxKind, op1: SyntaxKind, b: SyntaxKind, op2: SyntaxKind, c: SyntaxKind) -> Seq<Event> {
    seq![
        Event::Start { kind: SyntaxKind::ROOT, forward_parent: None },
        Event::Start { kind: SyntaxKind::STMT, forward_parent: None },
        Event::Start { kind: SyntaxKind::PRIMARY_EXPR, forward_parent: Some(5) },
        Event::Token { kind: a, n_raw_tokens: 1 },
        Event::Finish,
        Event::Start { kind: SyntaxKind::BIN_EXPR, forward_parent: Some(11) },
        Event::Token { kind: op1, n_raw_tokens: op1.parts().len() as u8 },
        Event::Start { kind: SyntaxKind::PRIMARY_EXPR, forward_parent: None },
        Event::Token { kind: b, n_raw_tokens: 1 },
        Event::Finish,
        Event::Finish,
        Event::Start { kind: SyntaxKind::BIN_EXPR, forward_parent: None },
        Event::Token { kind: op2, n_raw_tokens: op2.parts().len() as u8 },
        Event::Start { kind: SyntaxKind::PRIMARY_EXPR, forward_parent: None },
        Event::Token { kind: c, n_raw_tokens: 1 },
        Event::Finish,
        Event::Finish,
        Event::Finish,
        Event::Finish,
    ]
}

/// The tree of `(a OP1 b) OP2 c`, a statement by itself, as the events that
/// build it: `ROOT(STMT(BIN_EXPR(BIN_EXPR(a OP1 b) OP2 c)))`.
pub open spec fn left_tree(a: SyntaxKind, op1: SyntaxKind, b: SyntaxKind, op2: SyntaxKind, c: SyntaxKind) -> Seq<Event> {
    seq![
        Event::Start { kind: SyntaxKind::ROOT, forward_parent: None },
        Event::Start { kind: SyntaxKind::STMT, forward_parent: None },
        Event::Start { kind: SyntaxKind::BIN_EXPR, forward_parent: None },
        Event::Start { kind: SyntaxKind::BIN_EXPR, forward_parent: None },
        Event::Start { kind: SyntaxKind::PRIMARY_EXPR, forward_parent: None },
        Event::Token { kind: a, n_raw_tokens: 1 },
        Event::Finish,
        Event::Token { kind: op1, n_raw_tokens: op1.parts().len() as u8 },
        Event::Start { kind: SyntaxKind::PRIMARY_EXPR, forward_parent: None },
        Event::Token { kind: b, n_raw_tokens: 1 },
        Event::Finish,
        Event::Finish,
        Event::Token { kind: op2, n_raw_tokens: op2.parts().len() as u8 },
        Event::Start { kind: SyntaxKind::PRIMARY_EXPR, forward_parent: None },
        Event::Token { kind: c, n_raw_tokens: 1 },
        Event::Finish,
        Event::Finish,
        Event::Finish,
        Event::Finish,
    ]
}

/// The events of this grouping, put in the order of the tree.
#[verifier::rlimit(30)]
proof fn lemma_right_resolved(a: SyntaxKind, op1: SyntaxKind, b: SyntaxKind, op2: SyntaxKind, c: SyntaxKind)
    ensures
        resolved(right_events(a, op1, b, op2, c)) == right_tree(a, op1, b, op2, c),
{
    let e0 = right_events(a, op1, b, op2, c);
    let e1 = e0.update(5, Event::Tombstone);
    let e2 = e1.update(10, Event::Tombstone);
    assert(resolved_from(e2, 19) =~= Seq::<Event>::empty());
    lemma_resolve_plain(e2, 18);
    assert(resolved_from(e2, 18) =~= right_tree(a, op1, b, op2, c).skip(18));
    lemma_resolve_plain(e2, 17);
    assert(resolved_from(e2, 17) =~= right_tree(a, op1, b, op2, c).skip(17));
    lemma_resolve_plain(e2, 16);
    assert(resolved_from(e2, 16) =~= right_tree(a, op1, b, op2, c).skip(16));
    lemma_resolve_plain(e2, 15);
    assert(resolved_from(e2, 15) =~= right_tree(a, op1, b, op2, c).skip(15));
    lemma_resolve_plain(e2, 14);
    assert(resolved_from(e2, 14) =~= right_tree(a, op1, b, op2, c).skip(14));
    lemma_resolve_plain(e2, 13);
    assert(resolved_from(e2, 13) =~= right_tree(a, op1, b, op2, c).skip(13));
    lemma_resolve_start(e2, 12);
    assert(resolved_from(e2, 12) =~= right_tree(a, op1, b, op2, c).skip(12));
    lemma_resolve_plain(e2, 11);
    assert(resolved_from(e2, 11) =~= right_tree(a, op1, b, op2, c).skip(11));
    lemma_resolve_plain(e2, 10);
    assert(resolved_from(e2, 10) =~= right_tree(a, op1, b, op2, c).skip(11));
    lemma_resolve_plain(e2, 9);
    assert(resolved_from(e2, 9) =~= right_tree(a, op1, b, op2, c).skip(10));
    lemma_resolve_plain(e2, 8);
    assert(resolved_from(e2, 8) =~= right_tree(a, op1, b, op2, c).skip(9));
    lemma_resolve_linked(e1, 7, 10);
    assert(resolved_from(e1, 7) =~= right_tree(a, op1, b, op2, c).skip(7));
    lemma_resolve_plain(e1, 6);
    assert(resolved_from(e1, 6) =~= right_tree(a, op1, b, op2, c).skip(6));
    lemma_resolve_plain(e1, 5);
    assert(resolved_from(e1, 5) =~= right_tree(a, op1, b, op2, c).skip(6));
    lemma_resolve_plain(e1, 4);
    assert(resolved_from(e1, 4) =~= right_tree(a, op1, b, op2, c).skip(5));
    lemma_resolve_plain(e1, 3);
    assert(resolved_from(e1, 3) =~= right_tree(a, op1, b, op2, c).skip(4));
    lemma_resolve_linked(e0, 2, 5);
    assert(resolved_from(e0, 2) =~= right_tree(a, op1, b, op2, c).skip(2));
    lemma_resolve_start(e0, 1);
    assert(resolved_from(e0, 1) =~= right_tree(a, op1, b, op2, c).skip(1));
    lemma_resolve_start(e0, 0);
    assert(resolved_from(e0, 0) =~= right_tree(a, op1, b, op2, c).skip(0));
    assert(right_tree(a, op1, b, op2, c).skip(0) =~= right_tree(a, op1, b, op2, c));
}

/// The events of this grouping, put in the order of the tree.
#[verifier::rlimit(30)]
proof fn lemma_left_resolved(a: SyntaxKind, op1: SyntaxKind, b: SyntaxKind, op2: SyntaxKind, c: SyntaxKind)
    ensures
        resolved(left_events(a, op1, b, op2, c)) == left_tree(a, op1, b, op2, c),
{
    let e0 = left_events(a, op1, b, op2, c);
    let e1 = e0.update(5, Event::Tombstone).update(11, Event::Tombstone);
    assert(resolved_from(e1, 19) =~= Seq::<Event>::empty());
    lemma_resolve_plain(e1, 18);
    assert(resolved_from(e1, 18) =~= left_tree(a, op1, b, op2, c).skip(18));
    lemma_resolve_plain(e1, 17);
    assert(resolved_from(e1, 17) =~= left_tree(a, op1, b, op2, c).skip(17));
    lemma_resolve_plain(e1, 16);
    assert(resolved_from(e1, 16) =~= left_tree(a, op1, b, op2, c).skip(16));
    lemma_resolve_plain(e1, 15);
    assert(resolved_from(e1, 15) =~= left_tree(a, op1, b, op2, c).skip(15));
    lemma_resolve_plain(e1, 14);
    assert(resolved_from(e1, 14) =~= left_tree(a, op1, b, op2, c).skip(14));
    lemma_resolve_start(e1, 13);
    assert(resolved_from(e1, 13) =~= left_tree(a, op1, b, op2, c).skip(13));
    lemma_resolve_plain(e1, 12);
    assert(resolved_from(e1, 12) =~= left_tree(a, op1, b, op2, c).skip(12));
    lemma_resolve_plain(e1, 11);
    assert(resolved_from(e1, 11) =~= left_tree(a, op1, b, op2, c).skip(12));
    lemma_resolve_plain(e1, 10);
    assert(resolved_from(e1, 10) =~= left_tree(a, op1, b, op2, c).skip(11));
    lemma_resolve_plain(e1, 9);
    assert(resolved_from(e1, 9) =~= left_tree(a, op1, b, op2, c).skip(10));
    lemma_resolve_plain(e1, 8);
    assert(resolved_from(e1, 8) =~= left_tree(a, op1, b, op2, c).skip(9));
    lemma_resolve_start(e1, 7);
    assert(resolved_from(e1, 7) =~= left_tree(a, op1, b, op2, c).skip(8));
    lemma_resolve_plain(e1, 6);
    assert(resolved_from(e1, 6) =~= left_tree(a, op1, b, op2, c).skip(7));
    lemma_resolve_plain(e1, 5);
    assert(resolved_from(e1, 5) =~= left_tree(a, op1, b, op2, c).skip(7));
    lemma_resolve_plain(e1, 4);
    assert(resolved_from(e1, 4) =~= left_tree(a, op1, b, op2, c).skip(6));
    lemma_resolve_plain(e1, 3);
    assert(resolved_from(e1, 3) =~= left_tree(a, op1, b, op2, c).skip(5));
    lemma_resolve_linked_twice(e0, 2, 5, 11);
    assert(resolved_from(e0, 2) =~= left_tree(a, op1, b, op2, c).skip(2));
    lemma_resolve_start(e0, 1);
    assert(resolved_from(e0, 1) =~= left_tree(a, op1, b, op2, c).skip(1));
    lemma_resolve_start(e0, 0);
    assert(resolved_from(e0, 0) =~= left_tree(a, op1, b, op2, c).skip(0));
    assert(left_tree(a, op1, b, op2, c).skip(0) =~= left_tree(a, op1, b, op2, c));
}

/// The tokens are `a OP1 b OP2 c` and nothing else: three operands, each
/// a name or a number, with two infix operators between them.
pub open spec fn spells(
    tokens: Seq<SourceToken>,
    a: SyntaxKind,
    op1: SyntaxKind,
    b: SyntaxKind,
    op2: SyntaxKind,
    c: SyntaxKind,
) -> bool {
    let n1 = op1.parts().len() as int;
    let n2 = op2.parts().len() as int;
    &&& tokens.len() == 3 + n1 + n2
    &&& is_operand(a) && is_operand(b) && is_operand(c)
    &&& is_operator(op1) && is_operator(op2)
    &&& kind_at(tokens, 0) == a
    &&& matches_at(tokens, 1, op1)
    &&& kind_at(tokens, 1 + n1) == b
    &&& matches_at(tokens, 2 + n1, op2)
    &&& kind_at(tokens, 2 + n1 + n2) == c
}

/// A statement that is one expression, in a file by itself: the parser
/// wraps what the expression leaves in `STMT` and `ROOT`.
#[verifier::rlimit(30)]
proof fn lemma_statement(tokens: Seq<SourceToken>, g: ParserView)
    requires
        0 < tokens.len() <= usize::MAX,
        is_operand(kind_at(tokens, 0)),
        expr(start_state(tokens).start().start(), tokens.len()).state == g,
        g.source == (SourceView { tokens, pos: tokens.len() as int }),
    ensures
        root(start_state(tokens)) == g.complete(1, SyntaxKind::STMT).complete(
            0,
            SyntaxKind::ROOT,
        ),
{
    let s0 = start_state(tokens);
    let sr = s0.start();
    let s = sr.start();
    let d = s0.remaining();
    assert(sr.skip_newlines() == sr);
    assert(!sr.at(SyntaxKind::IMPORT_KW));
    assert(root_imports(sr) == sr);
    assert(form_of(s.current()) == StatementForm::Expr);
    assert(statement_body(s, d) == g);
    let s1 = g.complete(1, SyntaxKind::STMT);
    assert(statement(sr, d) == s1);
    assert(lang_item(sr, d) == s1);
    assert(s1.skip_newlines() == s1);
    assert(s1.at(SyntaxKind::EOF));
    assert(root_items(s1, d) == s1);
    assert(root_items(sr, d) == s1);
}

/// The events after an operand by itself.
pub open spec fn node_events(events: Seq<Event>, kind: SyntaxKind) -> Seq<Event> {
    events + seq![
        Event::Start { kind: SyntaxKind::PRIMARY_EXPR, forward_parent: None },
        Event::Token { kind, n_raw_tokens: 1 },
        Event::Finish,
    ]
}

/// The events after the node that starts at place `start` got a marker
/// before it and the operator `op` was taken.
pub open spec fn taken_events(events: Seq<Event>, start: int, op: SyntaxKind) -> Seq<Event> {
    events.update(
        start,
        Event::Start {
            kind: events[start]->Start_kind,
            forward_parent: Some(events.len() as usize),
        },
    ).push(Event::Tombstone).push(Event::Token { kind: op, n_raw_tokens: op.parts().len() as u8 })
}

/// The events after the marker at place `m` was completed.
pub open spec fn closed_events(events: Seq<Event>, m: int, kind: SyntaxKind) -> Seq<Event> {
    events.update(m, Event::Start { kind, forward_parent: None }).push(Event::Finish)
}

/// The events of `node`.
proof fn lemma_node_events(s: ParserView)
    requires
        operand_at(s),
    ensures
        node(s).events == node_events(s.events, kind_at(s.source.tokens, s.source.pos)),
{
    assert(node(s).events =~= node_events(s.events, kind_at(s.source.tokens, s.source.pos)));
}

/// The events after an operator was taken.
proof fn lemma_taken_events(s: ParserView, start: int, op: SyntaxKind)
    requires
        0 <= s.source.pos <= s.source.tokens.len() <= usize::MAX,
        followed_by(s.source.tokens, s.source.pos, Some(op)),
        0 <= start < s.events.len(),
    ensures
        s.precede(start).eat(op).events == taken_events(s.events, start, op),
{
}

/// The events of `right_grouped`, one step after the other.
proof fn lemma_right_events(s: ParserView, op1: SyntaxKind, op2: SyntaxKind)
    requires
        three_at(s, op1, op2),
    ensures
        right_grouped(s, op1, op2).events == closed_events(
            closed_events(
                node_events(
                    taken_events(
                        node_events(
                            taken_events(
                                node_events(s.events, kind_at(s.source.tokens, s.source.pos)),
                                s.events.len() as int,
                                op1,
                            ),
                            kind_at(s.source.tokens, s.source.pos + 1 + op1.parts().len()),
                        ),
                        s.events.len() as int + 5,
                        op2,
                    ),
                    kind_at(
                        s.source.tokens,
                        s.source.pos + 2 + op1.parts().len() + op2.parts().len(),
                    ),
                ),
                s.events.len() as int + 8,
                SyntaxKind::BIN_EXPR,
            ),
            s.events.len() as int + 3,
            SyntaxKind::BIN_EXPR,
        ),
{
    let m = s.events.len() as int;
    let x = node(s);
    lemma_node(s);
    lemma_node_events(s);
    let s1 = x.precede(m).eat(op1);
    lemma_taken(x, m, op1);
    lemma_taken_events(x, m, op1);
    let y = node(s1);
    lemma_node(s1);
    lemma_node_events(s1);
    let s3 = y.precede(s1.events.len() as int).eat(op2);
    lemma_taken(y, s1.events.len() as int, op2);
    lemma_taken_events(y, s1.events.len() as int, op2);
    lemma_node(s3);
    lemma_node_events(s3);
}

/// The events of `left_grouped`, one step after the other.
proof fn lemma_left_events(s: ParserView, op1: SyntaxKind, op2: SyntaxKind)
    requires
        three_at(s, op1, op2),
    ensures
        left_grouped(s, op1, op2).events == closed_events(
            node_events(
                taken_events(
                    closed_events(
                        node_events(
                            taken_events(
                                node_events(s.events, kind_at(s.source.tokens, s.source.pos)),
                                s.events.len() as int,
                                op1,
                            ),
                            kind_at(s.source.tokens, s.source.pos + 1 + op1.parts().len()),
                        ),
                        s.events.len() as int + 3,
                        SyntaxKind::BIN_EXPR,
                    ),
                    s.events.len() as int + 3,
                    op2,
                ),
                kind_at(s.source.tokens, s.source.pos + 2 + op1.parts().len() + op2.parts().len()),
            ),
            s.events.len() as int + 9,
            SyntaxKind::BIN_EXPR,
        ),
{
    let m = s.events.len() as int;
    let x = node(s);
    lemma_node(s);
    lemma_node_events(s);
    let s1 = x.precede(m).eat(op1);
    lemma_taken(x, m, op1);
    lemma_taken_events(x, m, op1);
    lemma_node(s1);
    lemma_node_events(s1);
    let first = bin(s, op1);
    lemma_bin(s, op1, Some(op2));
    let s3 = first.precede(m + 3).eat(op2);
    lemma_taken(first, m + 3, op2);
    lemma_taken_events(first, m + 3, op2);
    lemma_node(s3);
    lemma_node_events(s3);
}

/// The steps of `right_grouped` after two markers, with the markers
/// completed as `STMT` and `ROOT`, written out.
proof fn lemma_right_written(a: SyntaxKind, op1: SyntaxKind, b: SyntaxKind, op2: SyntaxKind, c: SyntaxKind)
    ensures
        closed_events(
            closed_events(
                closed_events(
                    closed_events(
                        node_events(
                            taken_events(
                                node_events(
                                    taken_events(
                                        node_events(seq![Event::Tombstone, Event::Tombstone], a),
                                        2,
                                        op1,
                                    ),
                                    b,
                                ),
                                7,
                                op2,
                            ),
                            c,
                        ),
                        10,
                        SyntaxKind::BIN_EXPR,
                    ),
                    5,
                    SyntaxKind::BIN_EXPR,
                ),
                1,
                SyntaxKind::STMT,
            ),
            0,
            SyntaxKind::ROOT,
        ) == right_events(a, op1, b, op2, c),
{
    let e0 = seq![Event::Tombstone, Event::Tombstone];
    let e1 = node_events(e0, a);
    assert(e1.len() == 5);
    let e2 = taken_events(e1, 2, op1);
    assert(e2.len() == 7);
    let e3 = node_events(e2, b);
    assert(e3.len() == 10);
    let e4 = taken_events(e3, 7, op2);
    assert(e4.len() == 12);
    let e5 = node_events(e4, c);
    assert(e5.len() == 15);
    let e6 = closed_events(e5, 10, SyntaxKind::BIN_EXPR);
    let e7 = closed_events(e6, 5, SyntaxKind::BIN_EXPR);
    let e8 = closed_events(e7, 1, SyntaxKind::STMT);
    let e9 = closed_events(e8, 0, SyntaxKind::ROOT);
    assert(e9.len() == 19);
    assert(e9 =~= right_events(a, op1, b, op2, c));
}

/// The steps of `left_grouped` after two markers, with the markers
/// completed as `STMT` and `ROOT`, written out.
proof fn lemma_left_written(a: SyntaxKind, op1: SyntaxKind, b: SyntaxKind, op2: SyntaxKind, c: SyntaxKind)
    ensures
        closed_events(
            closed_events(
                closed_events(
                    node_events(
                        taken_events(
                            closed_events(
                                node_events(
                                    taken_events(
                                        node_events(seq![Event::Tombstone, Event::Tombstone], a),
                                        2,
                                        op1,
                                    ),
                                    b,
                                ),
                                5,
                                SyntaxKind::BIN_EXPR,
                            ),
                            5,
                            op2,
                        ),
                        c,
                    ),
                    11,
                    SyntaxKind::BIN_EXPR,
                ),
                1,
                SyntaxKind::STMT,
            ),
            0,
            SyntaxKind::ROOT,
        ) == left_events(a, op1, b, op2, c),
{
    let e0 = seq![Event::Tombstone, Event::Tombstone];
    let e1 = node_events(e0, a);
    assert(e1.len() == 5);
    let e2 = taken_events(e1, 2, op1);
    assert(e2.len() == 7);
    let e3 = node_events(e2, b);
    assert(e3.len() == 10);
    let e4 = closed_events(e3, 5, SyntaxKind::BIN_EXPR);
    assert(e4.len() == 11);
    let e5 = taken_events(e4, 5, op2);
    assert(e5.len() == 13);
    let e6 = node_events(e5, c);
    assert(e6.len() == 16);
    let e7 = closed_events(e6, 11, SyntaxKind::BIN_EXPR);
    let e8 = closed_events(e7, 1, SyntaxKind::STMT);
    let e9 = closed_events(e8, 0, SyntaxKind::ROOT);
    assert(e9.len() == 19);
    assert(e9 =~= left_events(a, op1, b, op2, c));
}

/// How two infix operators group.
///
/// Where the tokens are `a OP1 b OP2 c` and nothing else, the tree is
/// `a OP1 (b OP2 c)` if `OP2` binds more than `OP1`, or if both are
/// assignments, which group to the right. In every other case, that is
/// where `OP1` binds more than `OP2` or as much, the tree is
/// `(a OP1 b) OP2 c`.
pub proof fn lemma_operators_group(
    tokens: Seq<SourceToken>,
    a: SyntaxKind,
    op1: SyntaxKind,
    b: SyntaxKind,
    op2: SyntaxKind,
    c: SyntaxKind,
)
    requires
        spells(tokens, a, op1, b, op2, c),
    ensures
        resolved(root(start_state(tokens)).events) == if groups_right(op1, op2) {
            right_tree(a, op1, b, op2, c)
        } else {
            left_tree(a, op1, b, op2, c)
        },
{
    let s = start_state(tokens).start().start();
    assert(s.events =~= seq![Event::Tombstone, Event::Tombstone]);
    assert(three_at(s, op1, op2));
    lemma_expr(s, tokens.len(), op1, op2);
    lemma_grouped(s, op1, op2);
    lemma_statement(tokens, grouped(s, op1, op2));
    if groups_right(op1, op2) {
        lemma_right_events(s, op1, op2);
        lemma_right_written(a, op1, b, op2, c);
        lemma_right_resolved(a, op1, b, op2, c);
    } else {
        lemma_left_events(s, op1, op2);
        lemma_left_written(a, op1, b, op2, c);
        lemma_left_resolved(a, op1, b, op2, c);
    }
}

/// Whether `n` line breaks stand from place `j` on.
pub open spec fn lines_at(tokens: Seq<SourceToken>, j: int, n: nat) -> bool {
    forall|k: int| j <= k < j + n ==> #[trigger] kind_at(tokens, k) == SyntaxKind::NEWLINE
}

/// The parser after `n` line breaks under the cursor became leaves.
proof fn lemma_lines_bumped(s: ParserView, n: nat)
    requires
        0 <= s.source.pos,
        s.source.pos + n <= s.source.tokens.len(),
        lines_at(s.source.tokens, s.source.pos, n),
    ensures
        s.bump_n(n).source == (SourceView { tokens: s.source.tokens, pos: s.source.pos + n }),
        s.bump_n(n).events.len() == s.events.len() + n,
        forall|i: int| 0 <= i < s.events.len() ==> #[trigger] s.bump_n(n).events[i] == s.events[i],
    decreases n,
{
    if n > 0 {
        assert(kind_at(s.source.tokens, s.source.pos) == SyntaxKind::NEWLINE);
        let t = s.bump_any();
        assert forall|k: int| t.source.pos <= k < t.source.pos + (n - 1) implies #[trigger] kind_at(
            t.source.tokens,
            k,
        ) == SyntaxKind::NEWLINE by {
            assert(kind_at(s.source.tokens, k) == SyntaxKind::NEWLINE);
        }
        lemma_lines_bumped(t, (n - 1) as nat);
    }
}

/// The first token that is no line break, after `n` line breaks.
proof fn lemma_first_after_lines(tokens: Seq<SourceToken>, j: int, n: nat)
    requires
        0 <= j,
        lines_at(tokens, j, n),
        j + n >= tokens.len() || kind_at(tokens, j + n) != SyntaxKind::NEWLINE,
        j + n <= tokens.len(),
    ensures
        first_holding(tokens, j, FindProperty::KindIsNot(SyntaxKind::NEWLINE)) == if j + n
            < tokens.len() {
            Some(j + n)
        } else {
            None
        },
    decreases n,
{
    let not_newline = FindProperty::KindIsNot(SyntaxKind::NEWLINE);
    if n > 0 {
        assert(kind_at(tokens, j) == SyntaxKind::NEWLINE);
        assert(!holds_at(tokens, j, not_newline));
        assert forall|k: int| j + 1 <= k < j + 1 + (n - 1) implies #[trigger] kind_at(tokens, k)
            == SyntaxKind::NEWLINE by {
        }
        lemma_first_after_lines(tokens, j + 1, (n - 1) as nat);
    } else if j < tokens.len() {
        assert(holds_at(tokens, j, not_newline));
    }
}

/// What the parser sees ahead where `n` line breaks stand under the cursor
/// and `next` follows them.
#[verifier::rlimit(30)]
proof fn lemma_ahead_lines(s: ParserView, n: nat, next: Option<SyntaxKind>)
    requires
        0 <= s.source.pos,
        s.source.pos + n <= s.source.tokens.len() <= usize::MAX,
        lines_at(s.source.tokens, s.source.pos, n),
        followed_by(s.source.tokens, s.source.pos + n, next),
    ensures
        s.next_non_newline_any(operators()) == next,
        next is Some ==> s.bump_to(s.next_not_newline()) == s.bump_n(n),
        forall|level: int|
            #[trigger] operator_ahead(s, level) == if next is Some && precedence(next.unwrap())
                == level {
                next
            } else {
                None
            },
        s.at_any(seq![SyntaxKind::L_PAREN, SyntaxKind::L_BRACK, SyntaxKind::DOT]) is None,
{
    let tokens = s.source.tokens;
    let j = s.source.pos;
    let after = ParserView {
        source: SourceView { tokens, pos: j + n },
        events: s.events,
    };
    lemma_ahead(after, next);
    lemma_first_after_lines(tokens, j, n);
    let postfix = seq![SyntaxKind::L_PAREN, SyntaxKind::L_BRACK, SyntaxKind::DOT];
    lemma_first_match(tokens, j, postfix, 0);
    assert(postfix[0] == SyntaxKind::L_PAREN && postfix[1] == SyntaxKind::L_BRACK && postfix[2]
        == SyntaxKind::DOT);
    if n > 0 {
        assert(kind_at(tokens, j) == SyntaxKind::NEWLINE);
    }
    match next {
        None => {},
        Some(op) => {
            assert(s.next_not_newline().offset == n);
            assert(s.next_not_newline().kind == kind_at(tokens, j + n));
            assert(s.source.distance_to(s.next_not_newline()) == n);
            assert(after.next_not_newline().offset == 0);
        },
    }
}

/// An operand by itself with line breaks after it, at the levels whose
/// operators do not follow the line breaks.
#[verifier::rlimit(30)]
proof fn lemma_alone_lines(s: ParserView, d: nat, level: int, n: nat, next: Option<SyntaxKind>)
    requires
        operand_at(s),
        s.source.pos + 1 + n <= s.source.tokens.len(),
        lines_at(s.source.tokens, s.source.pos + 1, n),
        followed_by(s.source.tokens, s.source.pos + 1 + n, next),
        2 <= level <= 8,
        next_level(next) > level,
    ensures
        level >= 3 ==> infix_binop(s, d, level) == (Parsed {
            state: node(s),
            start: s.events.len() as int,
        }),
        level < 8 ==> operand(s, d, level + 1) == (Parsed {
            state: node(s),
            start: s.events.len() as int,
        }),
    decreases level,
{
    let tokens = s.source.tokens;
    let pos = s.source.pos;
    assert(s.skip_newlines() == s);
    lemma_node(s);
    lemma_ahead_lines(node(s), n, next);
    if level == 2 {
        let prefix = seq![SyntaxKind::PLUS, SyntaxKind::MINUS, SyntaxKind::BANG];
        assert(prefix[0] == SyntaxKind::PLUS && prefix[1] == SyntaxKind::MINUS && prefix[2]
            == SyntaxKind::BANG);
        lemma_first_match(tokens, pos, prefix, 0);
        assert(s.at_any(prefix) is None);
        let plain = seq![SyntaxKind::INT_NUMBER, SyntaxKind::IDENT];
        assert(plain[0] == SyntaxKind::INT_NUMBER && plain[1] == SyntaxKind::IDENT);
        lemma_first_match(tokens, pos, plain, 0);
        assert(s.start().at_any(plain) is Some);
        assert(primary(s, d) == (Parsed { state: node(s), start: s.events.len() as int }));
        assert(postfix_loop(node(s), d, s.events.len() as int) == (Parsed {
            state: node(s),
            start: s.events.len() as int,
        }));
        assert(precedence_1_expr(s, d) == (Parsed {
            state: node(s),
            start: s.events.len() as int,
        }));
        assert(precedence_2_expr(s, d) == (Parsed {
            state: node(s),
            start: s.events.len() as int,
        }));
    } else {
        lemma_alone_lines(s, d, level - 1, n, next);
        assert(operator_ahead(node(s), level) is None);
        assert(infix_loop(node(s), d, level, s.events.len() as int) == (Parsed {
            state: node(s),
            start: s.events.len() as int,
        }));
    }
}

/// An infix operator may stand on a later line than its left operand.
///
/// Where an operand is followed by `n` line breaks, an operator `op` of a
/// level from 3 to 8 and another operand, and no operator of that level or
/// of one that binds more comes after, the level of `op` makes one
/// `BIN_EXPR` of them: the left operand, the line breaks as leaves, the
/// operator, the right operand. The line breaks end no expression.
#[verifier::rlimit(30)]
pub proof fn lemma_operator_on_later_line(
    s: ParserView,
    d: nat,
    op: SyntaxKind,
    n: nat,
    next: Option<SyntaxKind>,
)
    requires
        operand_at(s),
        s.events.len() > 0,
        s.source.pos + 1 + n <= s.source.tokens.len(),
        lines_at(s.source.tokens, s.source.pos + 1, n),
        followed_by(s.source.tokens, s.source.pos + 1 + n, Some(op)),
        3 <= precedence(op) <= 8,
        followed_by(s.source.tokens, s.source.pos + 2 + n + op.parts().len(), next),
        next_level(next) > precedence(op),
    ensures
        infix_binop(s, d, precedence(op)) == (Parsed {
            state: node(node(s).bump_n(n).precede(s.events.len() as int).eat(op)).complete(
                (node(s).events.len() + n) as int,
                SyntaxKind::BIN_EXPR,
            ),
            start: (node(s).events.len() + n) as int,
        }),
{
    let level = precedence(op);
    let m = s.events.len() as int;
    let x = node(s);
    assert(s.skip_newlines() == s);
    lemma_node(s);
    lemma_alone_lines(s, d, level - 1, n, Some(op));
    lemma_ahead_lines(x, n, Some(op));
    lemma_lines_bumped(x, n);
    let s1 = x.bump_n(n);
    let m1 = s1.events.len() as int;
    lemma_taken(s1, m, op);
    let s2 = s1.precede(m).eat(op);
    lemma_alone(s2, d, level - 1, next);
    lemma_node(s2);
    let done = node(s2).complete(m1, SyntaxKind::BIN_EXPR);
    lemma_ahead(done, next);
    assert(operator_ahead(x, level) == Some(op));
    assert(operator_ahead(done, level) is None);
    assert(infix_loop(done, d, level, m1) == (Parsed { state: done, start: m1 }));
    assert(done.remaining() < x.remaining());
    assert(infix_loop(x, d, level, m) == (Parsed { state: done, start: m1 }));
}

} // verus!
