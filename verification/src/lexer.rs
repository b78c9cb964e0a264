//! The lexer: it cuts a text into tokens that cover every byte of it.
//!
//! At each place the longest token that starts there is taken. Composite
//! operators such as `==` are not tokens of the lexer: it hands out their
//! parts, and the parser joins them where they stand side by side.

use crate::parser::text_token_source::total_len;
use crate::parser::token_source::Token;
use crate::parser::tree_sink::{boundary, cuts, start_of};
use crate::span::Span;
use crate::syntax_kind::SyntaxKind;
use vstd::prelude::*;
use vstd::std_specs::convert::FromSpecImpl;
use vstd::string::StringSliceAdditionalSpecFns;
use vstd::utf8::{is_continuation_byte, valid_utf8};

verus! {

/// The classes of tokens that the lexer tells apart.
#[derive(Clone, Copy, Debug, PartialEq, Eq, Structural, PartialOrd)]
pub enum Tk {
    /// A name.
    Ident,
    /// A whole number.
    IntNumber,
    /// A string in single quotes.
    Str,
    /// A string in triple quotes.
    MultilineStr,
    /// A comment to the end of the line.
    Comment,
    /// A comment between `/*` and `*/`.
    BlockComment,
    /// Blanks on one line.
    Whitespace,
    /// The character `+`.
    Plus,
    /// The character `-`.
    Minus,
    /// The character `*`.
    Asterisk,
    /// The character `/`.
    Slash,
    /// The character `%`.
    Percent,
    /// The character `>`.
    RAngle,
    /// The character `<`.
    LAngle,
    /// The character `=`.
    Eq,
    /// The character `!`.
    Bang,
    /// The character `(`.
    LParen,
    /// The character `)`.
    RParen,
    /// The character `[`.
    LBracket,
    /// The character `]`.
    RBracket,
    /// The character `{`.
    LBrace,
    /// The character `}`.
    RBrace,
    /// The character `.`.
    Dot,
    /// The character `:`.
    Colon,
    /// The character `?`.
    QMark,
    /// The character `;`.
    Semicolon,
    /// The character `,`.
    Comma,
    /// The keyword `fn`.
    FnKw,
    /// The keyword `let`.
    LetKw,
    /// The keyword `if`.
    IfKw,
    /// The keyword `else`.
    ElseKw,
    /// The keyword `foreach`.
    ForeachKw,
    /// The keyword `continue`.
    ContinueKw,
    /// The keyword `break`.
    BreakKw,
    /// The keyword `return`.
    ReturnKw,
    /// The keyword `true`.
    TrueKw,
    /// The keyword `false`.
    FalseKw,
    /// The keyword `import`.
    ImportKw,
    /// The keyword `as`.
    AsKw,
    /// The keyword `in`.
    InKw,
    /// The keyword `while`.
    WhileKw,
    /// A line break.
    Newline,
    /// Anything else: a character that starts no token, a string or a
    /// block comment that is not closed.
    Error,
}

impl Tk {
    /// The kind of the tokens of this class.
    pub open spec fn kind(self) -> SyntaxKind {
        match self {
            Tk::Ident => SyntaxKind::IDENT,
            Tk::IntNumber => SyntaxKind::INT_NUMBER,
            Tk::Str => SyntaxKind::STR,
            Tk::MultilineStr => SyntaxKind::MULTILINE_STR,
            Tk::Comment => SyntaxKind::COMMENT,
            Tk::BlockComment => SyntaxKind::BLOCK_COMMENT,
            Tk::Whitespace => SyntaxKind::WHITESPACE,
            Tk::Plus => SyntaxKind::PLUS,
            Tk::Minus => SyntaxKind::MINUS,
            Tk::Asterisk => SyntaxKind::ASTERISK,
            Tk::Slash => SyntaxKind::SLASH,
            Tk::Percent => SyntaxKind::PERCENT,
            Tk::RAngle => SyntaxKind::R_ANGLE,
            Tk::LAngle => SyntaxKind::L_ANGLE,
            Tk::Eq => SyntaxKind::EQ,
            Tk::Bang => SyntaxKind::BANG,
            Tk::LParen => SyntaxKind::L_PAREN,
            Tk::RParen => SyntaxKind::R_PAREN,
            Tk::LBracket => SyntaxKind::L_BRACK,
            Tk::RBracket => SyntaxKind::R_BRACK,
            Tk::LBrace => SyntaxKind::L_CURLY,
            Tk::RBrace => SyntaxKind::R_CURLY,
            Tk::Dot => SyntaxKind::DOT,
            Tk::Colon => SyntaxKind::COLON,
            Tk::QMark => SyntaxKind::QMARK,
            Tk::Semicolon => SyntaxKind::SEMICOLON,
            Tk::Comma => SyntaxKind::COMMA,
            Tk::FnKw => SyntaxKind::FN_KW,
            Tk::LetKw => SyntaxKind::LET_KW,
            Tk::IfKw => SyntaxKind::IF_KW,
            Tk::ElseKw => SyntaxKind::ELSE_KW,
            Tk::ForeachKw => SyntaxKind::FOR_KW,
            Tk::ContinueKw => SyntaxKind::CONTINUE_KW,
            Tk::BreakKw => SyntaxKind::BREAK_KW,
            Tk::ReturnKw => SyntaxKind::RETURN_KW,
            Tk::TrueKw => SyntaxKind::TRUE_KW,
            Tk::FalseKw => SyntaxKind::FALSE_KW,
            Tk::ImportKw => SyntaxKind::IMPORT_KW,
            Tk::AsKw => SyntaxKind::AS_KW,
            Tk::InKw => SyntaxKind::IN_KW,
            Tk::WhileKw => SyntaxKind::WHILE_KW,
            Tk::Newline => SyntaxKind::NEWLINE,
            Tk::Error => SyntaxKind::ERROR,
        }
    }
}

impl From<Tk> for SyntaxKind {
    fn from(tk: Tk) -> (kind: SyntaxKind) {
        match tk {
            Tk::Ident => SyntaxKind::IDENT,
            Tk::IntNumber => SyntaxKind::INT_NUMBER,
            Tk::Str => SyntaxKind::STR,
            Tk::MultilineStr => SyntaxKind::MULTILINE_STR,
            Tk::Comment => SyntaxKind::COMMENT,
            Tk::BlockComment => SyntaxKind::BLOCK_COMMENT,
            Tk::Whitespace => SyntaxKind::WHITESPACE,
            Tk::Plus => SyntaxKind::PLUS,
            Tk::Minus => SyntaxKind::MINUS,
            Tk::Asterisk => SyntaxKind::ASTERISK,
            Tk::Slash => SyntaxKind::SLASH,
            Tk::Percent => SyntaxKind::PERCENT,
            Tk::RAngle => SyntaxKind::R_ANGLE,
            Tk::LAngle => SyntaxKind::L_ANGLE,
            Tk::Eq => SyntaxKind::EQ,
            Tk::Bang => SyntaxKind::BANG,
            Tk::LParen => SyntaxKind::L_PAREN,
            Tk::RParen => SyntaxKind::R_PAREN,
            Tk::LBracket => SyntaxKind::L_BRACK,
            Tk::RBracket => SyntaxKind::R_BRACK,
            Tk::LBrace => SyntaxKind::L_CURLY,
            Tk::RBrace => SyntaxKind::R_CURLY,
            Tk::Dot => SyntaxKind::DOT,
            Tk::Colon => SyntaxKind::COLON,
            Tk::QMark => SyntaxKind::QMARK,
            Tk::Semicolon => SyntaxKind::SEMICOLON,
            Tk::Comma => SyntaxKind::COMMA,
            Tk::FnKw => SyntaxKind::FN_KW,
            Tk::LetKw => SyntaxKind::LET_KW,
            Tk::IfKw => SyntaxKind::IF_KW,
            Tk::ElseKw => SyntaxKind::ELSE_KW,
            Tk::ForeachKw => SyntaxKind::FOR_KW,
            Tk::ContinueKw => SyntaxKind::CONTINUE_KW,
            Tk::BreakKw => SyntaxKind::BREAK_KW,
            Tk::ReturnKw => SyntaxKind::RETURN_KW,
            Tk::TrueKw => SyntaxKind::TRUE_KW,
            Tk::FalseKw => SyntaxKind::FALSE_KW,
            Tk::ImportKw => SyntaxKind::IMPORT_KW,
            Tk::AsKw => SyntaxKind::AS_KW,
            Tk::InKw => SyntaxKind::IN_KW,
            Tk::WhileKw => SyntaxKind::WHILE_KW,
            Tk::Newline => SyntaxKind::NEWLINE,
            Tk::Error => SyntaxKind::ERROR,
        }
    }
}

impl FromSpecImpl<Tk> for SyntaxKind {
    open spec fn obeys_from_spec() -> bool {
        true
    }

    open spec fn from_spec(tk: Tk) -> SyntaxKind {
        tk.kind()
    }
}

/// Sets of bytes that a token may go on with.
#[derive(Clone, Copy, Debug, PartialEq, Eq, Structural)]
pub enum ByteClass {
    /// `[A-Za-z0-9_]`
    IdentContinue,
    /// `[0-9]`
    Digit,
    /// `[0-9a-fA-F]`
    Hex,
    /// `[01]`
    Bin,
    /// `[0-7]`
    Oct,
    /// `[ \t\r]`
    Blank,
    /// `[^\n]`
    NotNewline,
    /// `*`
    Star,
    /// A byte that goes on with a character of several bytes.
    Continuation,
}

/// `[A-Za-z_]`
pub open spec fn is_ident_start(b: u8) -> bool {
    (65 <= b <= 90) || (97 <= b <= 122) || b == 95
}

/// `[0-9]`
pub open spec fn is_digit(b: u8) -> bool {
    48 <= b <= 57
}

/// Whether the byte is in the class.
pub open spec fn in_class(class: ByteClass, b: u8) -> bool {
    match class {
        ByteClass::IdentContinue => is_ident_start(b) || is_digit(b),
        ByteClass::Digit => is_digit(b),
        ByteClass::Hex => is_digit(b) || (97 <= b <= 102) || (65 <= b <= 70),
        ByteClass::Bin => b == 48 || b == 49,
        ByteClass::Oct => 48 <= b <= 55,
        ByteClass::Blank => b == 32 || b == 9 || b == 13,
        ByteClass::NotNewline => b != 10,
        ByteClass::Star => b == 42,
        ByteClass::Continuation => is_continuation_byte(b),
    }
}

/// Whether the byte at place `i` is `b`.
pub open spec fn byte_is(bytes: Seq<u8>, i: int, b: u8) -> bool {
    0 <= i < bytes.len() && bytes[i] == b
}

/// The first place from `from` on whose byte is not in the class; the end
/// of the text if there is none.
pub open spec fn run_end(bytes: Seq<u8>, from: int, class: ByteClass) -> int
    decreases bytes.len() - from,
{
    if 0 <= from < bytes.len() && in_class(class, bytes[from]) {
        run_end(bytes, from + 1, class)
    } else {
        from
    }
}

/// The keyword that `word` spells, or `Ident`.
pub open spec fn word_class(word: Seq<u8>) -> Tk {
    if word == seq![102u8, 110u8] {
        Tk::FnKw
    } else if word == seq![108u8, 101u8, 116u8] {
        Tk::LetKw
    } else if word == seq![105u8, 102u8] {
        Tk::IfKw
    } else if word == seq![101u8, 108u8, 115u8, 101u8] {
        Tk::ElseKw
    } else if word == seq![102u8, 111u8, 114u8, 101u8, 97u8, 99u8, 104u8] {
        Tk::ForeachKw
    } else if word == seq![99u8, 111u8, 110u8, 116u8, 105u8, 110u8, 117u8, 101u8] {
        Tk::ContinueKw
    } else if word == seq![98u8, 114u8, 101u8, 97u8, 107u8] {
        Tk::BreakKw
    } else if word == seq![114u8, 101u8, 116u8, 117u8, 114u8, 110u8] {
        Tk::ReturnKw
    } else if word == seq![116u8, 114u8, 117u8, 101u8] {
        Tk::TrueKw
    } else if word == seq![102u8, 97u8, 108u8, 115u8, 101u8] {
        Tk::FalseKw
    } else if word == seq![105u8, 109u8, 112u8, 111u8, 114u8, 116u8] {
        Tk::ImportKw
    } else if word == seq![97u8, 115u8] {
        Tk::AsKw
    } else if word == seq![105u8, 110u8] {
        Tk::InKw
    } else if word == seq![119u8, 104u8, 105u8, 108u8, 101u8] {
        Tk::WhileKw
    } else {
        Tk::Ident
    }
}

/// Where a number that starts at place `p` ends, without its suffix:
/// `[1-9][0-9]*`, `0x[0-9a-fA-F]+`, `0b[01]+`, `0[0-7]+` or `0`.
pub open spec fn int_body_end(bytes: Seq<u8>, p: int) -> int {
    if byte_is(bytes, p, 48) {
        if byte_is(bytes, p + 1, 120) && run_end(bytes, p + 2, ByteClass::Hex) > p + 2 {
            run_end(bytes, p + 2, ByteClass::Hex)
        } else if byte_is(bytes, p + 1, 98) && run_end(bytes, p + 2, ByteClass::Bin) > p + 2 {
            run_end(bytes, p + 2, ByteClass::Bin)
        } else {
            run_end(bytes, p + 1, ByteClass::Oct)
        }
    } else {
        run_end(bytes, p + 1, ByteClass::Digit)
    }
}

/// Where the suffix `[uU]?[lL]?` that starts at place `e` ends.
pub open spec fn suffix_end(bytes: Seq<u8>, e: int) -> int {
    let e1 = if byte_is(bytes, e, 117) || byte_is(bytes, e, 85) {
        e + 1
    } else {
        e
    };
    if byte_is(bytes, e1, 108) || byte_is(bytes, e1, 76) {
        e1 + 1
    } else {
        e1
    }
}

/// Where the items of a string end that go on at place `i`: each item is a
/// backslash with one of `'`, `n`, `t`, `\`, or a byte that is neither a
/// quote nor a backslash.
pub open spec fn str_items_end(bytes: Seq<u8>, i: int) -> int
    decreases bytes.len() - i,
{
    if i < 0 || i >= bytes.len() {
        i
    } else if bytes[i] == 92 {
        if i + 1 < bytes.len() && (bytes[i + 1] == 39 || bytes[i + 1] == 110 || bytes[i + 1] == 116
            || bytes[i + 1] == 92) {
            str_items_end(bytes, i + 2)
        } else {
            i
        }
    } else if bytes[i] == 39 {
        i
    } else {
        str_items_end(bytes, i + 1)
    }
}

/// Where the string in single quotes ends that starts at place `p`, if one
/// does: a quote, at least one item, a quote.
pub open spec fn str_end(bytes: Seq<u8>, p: int) -> Option<int> {
    let e = str_items_end(bytes, p + 1);
    if e > p + 1 && byte_is(bytes, e, 39) {
        Some(e + 1)
    } else {
        None
    }
}

/// Whether three quotes stand at place `q`.
pub open spec fn triple_quote_at(bytes: Seq<u8>, q: int) -> bool {
    byte_is(bytes, q, 39) && byte_is(bytes, q + 1, 39) && byte_is(bytes, q + 2, 39)
}

/// The first place from `q` on at which three quotes stand.
pub open spec fn find_triple(bytes: Seq<u8>, q: int) -> Option<int>
    decreases bytes.len() - q,
{
    if q < 0 || q + 3 > bytes.len() {
        None
    } else if triple_quote_at(bytes, q) {
        Some(q)
    } else {
        find_triple(bytes, q + 1)
    }
}

/// Where the string in triple quotes ends that starts at place `p`, if
/// one does: it ends with the first three quotes after its opening.
pub open spec fn multiline_end(bytes: Seq<u8>, p: int) -> Option<int> {
    if triple_quote_at(bytes, p) {
        match find_triple(bytes, p + 3) {
            Some(q) => Some(q + 3),
            None => None,
        }
    } else {
        None
    }
}

/// The first place from `q` on at which `*/` stands.
pub open spec fn find_close(bytes: Seq<u8>, q: int) -> Option<int>
    decreases bytes.len() - q,
{
    if q < 0 || q + 2 > bytes.len() {
        None
    } else if bytes[q] == 42 && bytes[q + 1] == 47 {
        Some(q)
    } else {
        find_close(bytes, q + 1)
    }
}

/// How far a block comment that is not closed reaches, from place `i` in
/// it on: over every byte that is no `*`, over every run of `*` with the
/// byte after it, and over one last `*`.
pub open spec fn open_comment_end(bytes: Seq<u8>, i: int) -> int
    decreases bytes.len() - i,
{
    if i < 0 || i >= bytes.len() {
        i
    } else if bytes[i] != 42 {
        open_comment_end(bytes, i + 1)
    } else {
        let s = run_end(bytes, i, ByteClass::Star);
        if i < s < bytes.len() && bytes[s] != 47 {
            open_comment_end(bytes, s + 1)
        } else {
            i + 1
        }
    }
}

/// The class of the token that is one character of punctuation or a line
/// break.
pub open spec fn punct_class(b: u8) -> Option<Tk> {
    match b {
        43u8 => Some(Tk::Plus),
        45u8 => Some(Tk::Minus),
        42u8 => Some(Tk::Asterisk),
        47u8 => Some(Tk::Slash),
        37u8 => Some(Tk::Percent),
        62u8 => Some(Tk::RAngle),
        60u8 => Some(Tk::LAngle),
        61u8 => Some(Tk::Eq),
        33u8 => Some(Tk::Bang),
        40u8 => Some(Tk::LParen),
        41u8 => Some(Tk::RParen),
        91u8 => Some(Tk::LBracket),
        93u8 => Some(Tk::RBracket),
        123u8 => Some(Tk::LBrace),
        125u8 => Some(Tk::RBrace),
        46u8 => Some(Tk::Dot),
        58u8 => Some(Tk::Colon),
        63u8 => Some(Tk::QMark),
        59u8 => Some(Tk::Semicolon),
        44u8 => Some(Tk::Comma),
        10u8 => Some(Tk::Newline),
        _ => None,
    }
}

/// The class of the token that starts at place `p`, and the place where it
/// ends. Of the tokens that can start there the longest is taken.
pub open spec fn token_at(bytes: Seq<u8>, p: int) -> (Tk, int) {
    let b = bytes[p];
    if is_ident_start(b) {
        let e = run_end(bytes, p + 1, ByteClass::IdentContinue);
        (word_class(bytes.subrange(p, e)), e)
    } else if is_digit(b) {
        (Tk::IntNumber, suffix_end(bytes, int_body_end(bytes, p)))
    } else if b == 39 {
        match multiline_end(bytes, p) {
            Some(e) => (Tk::MultilineStr, e),
            None => match str_end(bytes, p) {
                Some(e) => (Tk::Str, e),
                None => (Tk::Error, p + 1),
            },
        }
    } else if b == 47 {
        if byte_is(bytes, p + 1, 47) {
            (Tk::Comment, run_end(bytes, p + 2, ByteClass::NotNewline))
        } else if byte_is(bytes, p + 1, 42) {
            match find_close(bytes, p + 2) {
                Some(q) => (Tk::BlockComment, q + 2),
                None => (Tk::Error, open_comment_end(bytes, p + 2)),
            }
        } else {
            (Tk::Slash, p + 1)
        }
    } else if in_class(ByteClass::Blank, b) {
        (Tk::Whitespace, run_end(bytes, p, ByteClass::Blank))
    } else {
        match punct_class(b) {
            Some(tk) => (tk, p + 1),
            None => (Tk::Error, run_end(bytes, p + 1, ByteClass::Continuation)),
        }
    }
}

/// The tokens of the text from place `p` on.
pub open spec fn lex_from(bytes: Seq<u8>, p: int) -> Seq<Token>
    decreases bytes.len() - p,
{
    if p < 0 || p >= bytes.len() {
        Seq::empty()
    } else {
        let tk = token_at(bytes, p).0;
        let end = token_at(bytes, p).1;
        if end <= p || end > bytes.len() {
            Seq::empty()
        } else {
            seq![Token { syntax_kind: tk.kind(), len: (end - p) as u32 }] + lex_from(bytes, end)
        }
    }
}

/// The tokens of the text.
pub open spec fn lex(bytes: Seq<u8>) -> Seq<Token> {
    lex_from(bytes, 0)
}

/// In valid UTF-8 no character goes on after a byte of ASCII.
pub proof fn lemma_after_ascii(bytes: Seq<u8>, i: int)
    requires
        valid_utf8(bytes),
        0 <= i,
        i + 1 < bytes.len(),
        bytes[i] <= 0x7f,
    ensures
        !is_continuation_byte(bytes[i + 1]),
{
    vstd::utf8::is_char_boundary_iff_not_is_continuation_byte(bytes, i);
    vstd::utf8::valid_utf8_split(bytes, i);
    let s = bytes.subrange(i, bytes.len() as int);
    assert(s[0] == bytes[i]);
    assert(valid_utf8(s));
    let r = vstd::utf8::pop_first_scalar(s);
    assert(valid_utf8(r));
    assert(r =~= bytes.subrange(i + 1, bytes.len() as int));
    assert(r[0] == bytes[i + 1]);
    assert(vstd::utf8::valid_first_scalar(r));
}

/// What `run_end` finds: the bytes before it are in the class, the byte at
/// it is not.
pub proof fn lemma_run_end(bytes: Seq<u8>, from: int, class: ByteClass)
    requires
        0 <= from <= bytes.len(),
    ensures
        from <= run_end(bytes, from, class) <= bytes.len(),
        forall|k: int| from <= k < run_end(bytes, from, class) ==> in_class(class, #[trigger] bytes[k]),
        run_end(bytes, from, class) < bytes.len() ==> !in_class(
            class,
            bytes[run_end(bytes, from, class)],
        ),
    decreases bytes.len() - from,
{
    if from < bytes.len() && in_class(class, bytes[from]) {
        lemma_run_end(bytes, from + 1, class);
    }
}

/// The items of a string end within the text.
pub proof fn lemma_str_items_end(bytes: Seq<u8>, i: int)
    requires
        0 <= i <= bytes.len(),
    ensures
        i <= str_items_end(bytes, i) <= bytes.len(),
    decreases bytes.len() - i,
{
    if i < bytes.len() {
        if bytes[i] == 92 {
            if i + 1 < bytes.len() && (bytes[i + 1] == 39 || bytes[i + 1] == 110 || bytes[i + 1]
                == 116 || bytes[i + 1] == 92) {
                lemma_str_items_end(bytes, i + 2);
            }
        } else if bytes[i] != 39 {
            lemma_str_items_end(bytes, i + 1);
        }
    }
}

/// What `find_triple` and `find_close` find lies within the text.
pub proof fn lemma_find(bytes: Seq<u8>, q: int)
    requires
        0 <= q,
    ensures
        find_triple(bytes, q) is Some ==> q <= find_triple(bytes, q).unwrap()
            && find_triple(bytes, q).unwrap() + 3 <= bytes.len() && triple_quote_at(
            bytes,
            find_triple(bytes, q).unwrap(),
        ),
        find_close(bytes, q) is Some ==> q <= find_close(bytes, q).unwrap() && find_close(
            bytes,
            q,
        ).unwrap() + 2 <= bytes.len() && bytes[find_close(bytes, q).unwrap() + 1] == 47,
    decreases bytes.len() - q,
{
    if q + 2 <= bytes.len() {
        lemma_find(bytes, q + 1);
    }
}

/// A block comment that is not closed ends at the end of the text or after
/// a `*`.
pub proof fn lemma_open_comment_end(bytes: Seq<u8>, i: int)
    requires
        0 <= i <= bytes.len(),
    ensures
        i <= open_comment_end(bytes, i) <= bytes.len(),
        open_comment_end(bytes, i) == bytes.len() || bytes[open_comment_end(bytes, i) - 1] == 42,
    decreases bytes.len() - i,
{
    if i < bytes.len() {
        if bytes[i] != 42 {
            lemma_open_comment_end(bytes, i + 1);
        } else {
            let s = run_end(bytes, i, ByteClass::Star);
            lemma_run_end(bytes, i, ByteClass::Star);
            if i < s < bytes.len() && bytes[s] != 47 {
                lemma_open_comment_end(bytes, s + 1);
            }
        }
    }
}

/// A token ends after the place where it starts, within the text, and
/// where a character ends.
pub proof fn lemma_token_at(bytes: Seq<u8>, p: int)
    requires
        valid_utf8(bytes),
        0 <= p < bytes.len(),
    ensures
        p < token_at(bytes, p).1 <= bytes.len(),
        boundary(bytes, token_at(bytes, p).1),
{
    let b = bytes[p];
    let end = token_at(bytes, p).1;
    lemma_run_end(bytes, p + 1, ByteClass::IdentContinue);
    lemma_run_end(bytes, p + 1, ByteClass::Digit);
    lemma_run_end(bytes, p + 1, ByteClass::Oct);
    lemma_run_end(bytes, p + 1, ByteClass::Continuation);
    lemma_run_end(bytes, p, ByteClass::Blank);
    lemma_str_items_end(bytes, p + 1);
    lemma_find(bytes, p + 3);
    lemma_find(bytes, p + 2);
    if p + 2 <= bytes.len() {
        lemma_run_end(bytes, p + 2, ByteClass::Hex);
        lemma_run_end(bytes, p + 2, ByteClass::Bin);
        lemma_run_end(bytes, p + 2, ByteClass::NotNewline);
        lemma_open_comment_end(bytes, p + 2);
    }
    assert(p < end <= bytes.len());
    if end < bytes.len() {
        if is_continuation_byte(bytes[end]) {
            assert(bytes[end - 1] <= 0x7f);
            lemma_after_ascii(bytes, end - 1);
        }
    }
}

/// The tokens of the text cover it from place `p` on, each ends where a
/// character ends, and none is empty.
pub proof fn lemma_lex_from(bytes: Seq<u8>, p: int)
    requires
        valid_utf8(bytes),
        0 <= p <= bytes.len() <= u32::MAX,
        boundary(bytes, p),
    ensures
        total_len(lex_from(bytes, p)) == bytes.len() - p,
        forall|k: int|
            0 <= k <= lex_from(bytes, p).len() ==> boundary(
                bytes,
                p + #[trigger] start_of(lex_from(bytes, p), k),
            ),
        forall|k: int| 0 <= k < lex_from(bytes, p).len() ==> (#[trigger] lex_from(bytes, p)[k]).len > 0,
    decreases bytes.len() - p,
{
    let tokens = lex_from(bytes, p);
    if p < bytes.len() {
        lemma_token_at(bytes, p);
        let end = token_at(bytes, p).1;
        let rest = lex_from(bytes, end);
        lemma_lex_from(bytes, end);
        let first = seq![tokens[0]];
        assert(tokens =~= first + rest);
        lemma_total_len_concat(first, rest);
        assert(first.drop_last() =~= Seq::<Token>::empty());
        assert(total_len(first.drop_last()) == 0);
        assert forall|k: int| 0 <= k <= tokens.len() implies boundary(
            bytes,
            p + #[trigger] start_of(tokens, k),
        ) by {
            if k == 0 {
                assert(tokens.take(0) =~= Seq::<Token>::empty());
            } else {
                assert(tokens.take(k) =~= first + rest.take(k - 1));
                lemma_total_len_concat(first, rest.take(k - 1));
                assert(boundary(bytes, end + start_of(rest, k - 1)));
            }
        }
    } else {
        assert forall|k: int| 0 <= k <= tokens.len() implies boundary(
            bytes,
            p + #[trigger] start_of(tokens, k),
        ) by {
            assert(tokens.take(0) =~= Seq::<Token>::empty());
        }
    }
}

/// No token of the lexer has the kind `EOF`.
pub proof fn lemma_lex_kinds(bytes: Seq<u8>, p: int)
    ensures
        forall|k: int|
            0 <= k < lex_from(bytes, p).len() ==> (#[trigger] lex_from(bytes, p)[k]).syntax_kind
                != SyntaxKind::EOF,
    decreases bytes.len() - p,
{
    if 0 <= p < bytes.len() {
        let end = token_at(bytes, p).1;
        if p < end <= bytes.len() {
            lemma_lex_kinds(bytes, end);
            let first = seq![lex_from(bytes, p)[0]];
            assert(lex_from(bytes, p) =~= first + lex_from(bytes, end));
            assert forall|k: int| 0 <= k < lex_from(bytes, p).len() implies (#[trigger] lex_from(
                bytes,
                p,
            )[k]).syntax_kind != SyntaxKind::EOF by {
                if k > 0 {
                    assert(lex_from(bytes, p)[k] == lex_from(bytes, end)[k - 1]);
                }
            }
        }
    }
}

/// The bytes of two lists of tokens add up.
pub proof fn lemma_total_len_concat(a: Seq<Token>, b: Seq<Token>)
    ensures
        total_len(a + b) == total_len(a) + total_len(b),
    decreases b.len(),
{
    if b.len() == 0 {
        assert(a + b =~= a);
    } else {
        assert((a + b).drop_last() =~= a + b.drop_last());
        lemma_total_len_concat(a, b.drop_last());
    }
}

/// A text starts where a character starts.
pub proof fn lemma_boundary_start(bytes: Seq<u8>)
    requires
        valid_utf8(bytes),
    ensures
        boundary(bytes, 0),
{
    if bytes.len() > 0 {
        vstd::utf8::is_char_boundary_start_end_of_seq(bytes);
        vstd::utf8::is_char_boundary_iff_not_is_continuation_byte(bytes, 0);
    }
}

/// The tokens of a text cover it, and each ends where a character ends.
pub proof fn lemma_lex(bytes: Seq<u8>)
    requires
        valid_utf8(bytes),
        bytes.len() <= u32::MAX,
    ensures
        cuts(bytes, lex(bytes)),
        forall|k: int| 0 <= k < lex(bytes).len() ==> (#[trigger] lex(bytes)[k]).len > 0,
{
    lemma_boundary_start(bytes);
    lemma_lex_from(bytes, 0);
    assert(lex(bytes).take(lex(bytes).len() as int) =~= lex(bytes));
    assert forall|k: int| 0 <= k <= lex(bytes).len() implies boundary(
        bytes,
        #[trigger] start_of(lex(bytes), k),
    ) by {
        assert(boundary(bytes, 0 + start_of(lex(bytes), k)));
    }
}

/// Whether the byte is in the class.
pub fn class_has(class: ByteClass, b: u8) -> (has: bool)
    ensures
        has == in_class(class, b),
{
    match class {
        ByteClass::IdentContinue => (65 <= b && b <= 90) || (97 <= b && b <= 122) || b == 95 || (48
            <= b && b <= 57),
        ByteClass::Digit => 48 <= b && b <= 57,
        ByteClass::Hex => (48 <= b && b <= 57) || (97 <= b && b <= 102) || (65 <= b && b <= 70),
        ByteClass::Bin => b == 48 || b == 49,
        ByteClass::Oct => 48 <= b && b <= 55,
        ByteClass::Blank => b == 32 || b == 9 || b == 13,
        ByteClass::NotNewline => b != 10,
        ByteClass::Star => b == 42,
        ByteClass::Continuation => 0x80 <= b && b <= 0xbf,
    }
}

/// The first place from `from` on whose byte is not in the class.
fn scan(bytes: &[u8], from: usize, class: ByteClass) -> (end: usize)
    requires
        from <= bytes@.len(),
    ensures
        end == run_end(bytes@, from as int, class),
        from <= end <= bytes@.len(),
{
    let mut i = from;
    while i < bytes.len() && class_has(class, bytes[i])
        invariant
            from <= i <= bytes@.len(),
            run_end(bytes@, i as int, class) == run_end(bytes@, from as int, class),
        decreases bytes@.len() - i,
    {
        i = i + 1;
    }
    i
}

/// Whether the byte at place `i` is `b`.
fn has_byte(bytes: &[u8], i: usize, b: u8) -> (has: bool)
    ensures
        has == byte_is(bytes@, i as int, b),
{
    i < bytes.len() && bytes[i] == b
}

/// Whether the bytes from `from` up to `to` spell `word`.
fn word_is(bytes: &[u8], from: usize, to: usize, word: &[u8]) -> (same: bool)
    requires
        from <= to <= bytes@.len(),
    ensures
        same == (bytes@.subrange(from as int, to as int) == word@),
{
    if to - from != word.len() {
        return false;
    }
    let mut k: usize = 0;
    while k < word.len()
        invariant
            from <= to <= bytes@.len(),
            to - from == word@.len(),
            0 <= k <= word@.len(),
            forall|j: int| 0 <= j < k ==> bytes@[from + j] == word@[j],
        decreases word@.len() - k,
    {
        if bytes[from + k] != word[k] {
            proof {
                assert(bytes@.subrange(from as int, to as int)[k as int] != word@[k as int]);
            }
            return false;
        }
        k = k + 1;
    }
    proof {
        assert(bytes@.subrange(from as int, to as int) =~= word@);
    }
    true
}

/// The keyword that the bytes from `from` up to `to` spell, or `Ident`.
fn classify_word(bytes: &[u8], from: usize, to: usize) -> (tk: Tk)
    requires
        from <= to <= bytes@.len(),
    ensures
        tk == word_class(bytes@.subrange(from as int, to as int)),
{
    let kw_fn = [102u8, 110u8];
    assert(kw_fn@ =~= seq![102u8, 110u8]);
    if word_is(bytes, from, to, &kw_fn) {
        return Tk::FnKw;
    }
    let kw_let = [108u8, 101u8, 116u8];
    assert(kw_let@ =~= seq![108u8, 101u8, 116u8]);
    if word_is(bytes, from, to, &kw_let) {
        return Tk::LetKw;
    }
    let kw_if = [105u8, 102u8];
    assert(kw_if@ =~= seq![105u8, 102u8]);
    if word_is(bytes, from, to, &kw_if) {
        return Tk::IfKw;
    }
    let kw_else = [101u8, 108u8, 115u8, 101u8];
    assert(kw_else@ =~= seq![101u8, 108u8, 115u8, 101u8]);
    if word_is(bytes, from, to, &kw_else) {
        return Tk::ElseKw;
    }
    let kw_foreach = [102u8, 111u8, 114u8, 101u8, 97u8, 99u8, 104u8];
    assert(kw_foreach@ =~= seq![102u8, 111u8, 114u8, 101u8, 97u8, 99u8, 104u8]);
    if word_is(bytes, from, to, &kw_foreach) {
        return Tk::ForeachKw;
    }
    let kw_continue = [99u8, 111u8, 110u8, 116u8, 105u8, 110u8, 117u8, 101u8];
    assert(kw_continue@ =~= seq![99u8, 111u8, 110u8, 116u8, 105u8, 110u8, 117u8, 101u8]);
    if word_is(bytes, from, to, &kw_continue) {
        return Tk::ContinueKw;
    }
    let kw_break = [98u8, 114u8, 101u8, 97u8, 107u8];
    assert(kw_break@ =~= seq![98u8, 114u8, 101u8, 97u8, 107u8]);
    if word_is(bytes, from, to, &kw_break) {
        return Tk::BreakKw;
    }
    let kw_return = [114u8, 101u8, 116u8, 117u8, 114u8, 110u8];
    assert(kw_return@ =~= seq![114u8, 101u8, 116u8, 117u8, 114u8, 110u8]);
    if word_is(bytes, from, to, &kw_return) {
        return Tk::ReturnKw;
    }
    let kw_true = [116u8, 114u8, 117u8, 101u8];
    assert(kw_true@ =~= seq![116u8, 114u8, 117u8, 101u8]);
    if word_is(bytes, from, to, &kw_true) {
        return Tk::TrueKw;
    }
    let kw_false = [102u8, 97u8, 108u8, 115u8, 101u8];
    assert(kw_false@ =~= seq![102u8, 97u8, 108u8, 115u8, 101u8]);
    if word_is(bytes, from, to, &kw_false) {
        return Tk::FalseKw;
    }
    let kw_import = [105u8, 109u8, 112u8, 111u8, 114u8, 116u8];
    assert(kw_import@ =~= seq![105u8, 109u8, 112u8, 111u8, 114u8, 116u8]);
    if word_is(bytes, from, to, &kw_import) {
        return Tk::ImportKw;
    }
    let kw_as = [97u8, 115u8];
    assert(kw_as@ =~= seq![97u8, 115u8]);
    if word_is(bytes, from, to, &kw_as) {
        return Tk::AsKw;
    }
    let kw_in = [105u8, 110u8];
    assert(kw_in@ =~= seq![105u8, 110u8]);
    if word_is(bytes, from, to, &kw_in) {
        return Tk::InKw;
    }
    let kw_while = [119u8, 104u8, 105u8, 108u8, 101u8];
    assert(kw_while@ =~= seq![119u8, 104u8, 105u8, 108u8, 101u8]);
    if word_is(bytes, from, to, &kw_while) {
        return Tk::WhileKw;
    }
    Tk::Ident
}

/// Where the number that starts at place `p` ends.
fn number_end(bytes: &[u8], p: usize) -> (end: usize)
    requires
        p < bytes@.len(),
    ensures
        end == suffix_end(bytes@, int_body_end(bytes@, p as int)),
        p < end <= bytes@.len(),
{
    let mut e = if bytes[p] == 48 {
        if has_byte(bytes, p + 1, 120) && scan(bytes, p + 2, ByteClass::Hex) > p + 2 {
            scan(bytes, p + 2, ByteClass::Hex)
        } else if has_byte(bytes, p + 1, 98) && scan(bytes, p + 2, ByteClass::Bin) > p + 2 {
            scan(bytes, p + 2, ByteClass::Bin)
        } else {
            scan(bytes, p + 1, ByteClass::Oct)
        }
    } else {
        scan(bytes, p + 1, ByteClass::Digit)
    };
    if has_byte(bytes, e, 117) || has_byte(bytes, e, 85) {
        e = e + 1;
    }
    if has_byte(bytes, e, 108) || has_byte(bytes, e, 76) {
        e = e + 1;
    }
    e
}

/// Where the string in single quotes that starts at place `p` ends, if one
/// does.
fn string_end(bytes: &[u8], p: usize) -> (end: Option<usize>)
    requires
        p < bytes@.len(),
    ensures
        match str_end(bytes@, p as int) {
            Some(e) => end == Some(e as usize) && p < e <= bytes@.len(),
            None => end is None,
        },
{
    let n = bytes.len();
    let mut i = p + 1;
    loop
        invariant_except_break
            p < i <= bytes@.len(),
            str_items_end(bytes@, i as int) == str_items_end(bytes@, p + 1),
        ensures
            p < i <= bytes@.len(),
            i == str_items_end(bytes@, p + 1),
        decreases bytes@.len() - i,
    {
        if i >= bytes.len() {
            break ;
        }
        let b = bytes[i];
        if b == 92 {
            if i + 1 < bytes.len() && (bytes[i + 1] == 39 || bytes[i + 1] == 110 || bytes[i + 1]
                == 116 || bytes[i + 1] == 92) {
                i = i + 2;
            } else {
                break ;
            }
        } else if b == 39 {
            break ;
        } else {
            i = i + 1;
        }
    }
    if i > p + 1 && has_byte(bytes, i, 39) {
        Some(i + 1)
    } else {
        None
    }
}

/// Whether three quotes stand at place `q`.
fn at_triple_quote(bytes: &[u8], q: usize) -> (at: bool)
    ensures
        at == triple_quote_at(bytes@, q as int),
{
    q < bytes.len() && bytes.len() - q >= 3 && bytes[q] == 39 && bytes[q + 1] == 39 && bytes[q
        + 2] == 39
}

/// Where the string in triple quotes that starts at place `p` ends, if one
/// does.
fn multiline_string_end(bytes: &[u8], p: usize) -> (end: Option<usize>)
    requires
        p < bytes@.len(),
    ensures
        match multiline_end(bytes@, p as int) {
            Some(e) => end == Some(e as usize) && p < e <= bytes@.len(),
            None => end is None,
        },
{
    let n = bytes.len();
    if !at_triple_quote(bytes, p) {
        return None;
    }
    let mut q = p + 3;
    proof {
        lemma_find(bytes@, p + 3);
    }
    while bytes.len() - q >= 3
        invariant
            p + 3 <= q <= bytes@.len(),
            triple_quote_at(bytes@, p as int),
            find_triple(bytes@, q as int) == find_triple(bytes@, p + 3),
        decreases bytes@.len() - q,
    {
        if at_triple_quote(bytes, q) {
            return Some(q + 3);
        }
        q = q + 1;
    }
    None
}

/// The first place from `from` on at which `*/` stands.
fn comment_close(bytes: &[u8], from: usize) -> (close: Option<usize>)
    requires
        from <= bytes@.len(),
    ensures
        match find_close(bytes@, from as int) {
            Some(q) => close == Some(q as usize) && from <= q && q + 2 <= bytes@.len(),
            None => close is None,
        },
{
    let mut q = from;
    while bytes.len() - q >= 2
        invariant
            from <= q <= bytes@.len(),
            find_close(bytes@, q as int) == find_close(bytes@, from as int),
        decreases bytes@.len() - q,
    {
        if bytes[q] == 42 && bytes[q + 1] == 47 {
            return Some(q);
        }
        q = q + 1;
    }
    None
}

/// How far a block comment that is not closed reaches, from place `from`
/// in it on.
fn open_comment_reach(bytes: &[u8], from: usize) -> (end: usize)
    requires
        from <= bytes@.len(),
    ensures
        end == open_comment_end(bytes@, from as int),
        from <= end <= bytes@.len(),
{
    let mut i = from;
    loop
        invariant_except_break
            from <= i <= bytes@.len(),
            open_comment_end(bytes@, i as int) == open_comment_end(bytes@, from as int),
        ensures
            from <= i <= bytes@.len(),
            i == open_comment_end(bytes@, from as int),
        decreases bytes@.len() - i,
    {
        if i >= bytes.len() {
            break ;
        }
        if bytes[i] != 42 {
            i = i + 1;
        } else {
            let s = scan(bytes, i, ByteClass::Star);
            proof {
                lemma_run_end(bytes@, i as int, ByteClass::Star);
            }
            if i < s && s < bytes.len() && bytes[s] != 47 {
                i = s + 1;
            } else {
                i = i + 1;
                break ;
            }
        }
    }
    i
}

/// The class of the token that is one character of punctuation or a line
/// break.
fn punct_of(b: u8) -> (tk: Option<Tk>)
    ensures
        tk == punct_class(b),
{
    match b {
        43u8 => Some(Tk::Plus),
        45u8 => Some(Tk::Minus),
        42u8 => Some(Tk::Asterisk),
        47u8 => Some(Tk::Slash),
        37u8 => Some(Tk::Percent),
        62u8 => Some(Tk::RAngle),
        60u8 => Some(Tk::LAngle),
        61u8 => Some(Tk::Eq),
        33u8 => Some(Tk::Bang),
        40u8 => Some(Tk::LParen),
        41u8 => Some(Tk::RParen),
        91u8 => Some(Tk::LBracket),
        93u8 => Some(Tk::RBracket),
        123u8 => Some(Tk::LBrace),
        125u8 => Some(Tk::RBrace),
        46u8 => Some(Tk::Dot),
        58u8 => Some(Tk::Colon),
        63u8 => Some(Tk::QMark),
        59u8 => Some(Tk::Semicolon),
        44u8 => Some(Tk::Comma),
        10u8 => Some(Tk::Newline),
        _ => None,
    }
}

/// The class of the token that starts at place `p`, and the place where it
/// ends.
fn next_token(bytes: &[u8], p: usize) -> (found: (Tk, usize))
    requires
        p < bytes@.len(),
        valid_utf8(bytes@),
    ensures
        found.0 == token_at(bytes@, p as int).0,
        found.1 == token_at(bytes@, p as int).1,
        p < found.1 <= bytes@.len(),
        boundary(bytes@, found.1 as int),
{
    proof {
        lemma_token_at(bytes@, p as int);
    }
    let b = bytes[p];
    if (65 <= b && b <= 90) || (97 <= b && b <= 122) || b == 95 {
        let e = scan(bytes, p + 1, ByteClass::IdentContinue);
        (classify_word(bytes, p, e), e)
    } else if 48 <= b && b <= 57 {
        (Tk::IntNumber, number_end(bytes, p))
    } else if b == 39 {
        match multiline_string_end(bytes, p) {
            Some(e) => (Tk::MultilineStr, e),
            None => match string_end(bytes, p) {
                Some(e) => (Tk::Str, e),
                None => (Tk::Error, p + 1),
            },
        }
    } else if b == 47 {
        if has_byte(bytes, p + 1, 47) {
            (Tk::Comment, scan(bytes, p + 2, ByteClass::NotNewline))
        } else if has_byte(bytes, p + 1, 42) {
            match comment_close(bytes, p + 2) {
                Some(q) => (Tk::BlockComment, q + 2),
                None => (Tk::Error, open_comment_reach(bytes, p + 2)),
            }
        } else {
            (Tk::Slash, p + 1)
        }
    } else if class_has(ByteClass::Blank, b) {
        (Tk::Whitespace, scan(bytes, p, ByteClass::Blank))
    } else {
        match punct_of(b) {
            Some(tk) => (tk, p + 1),
            None => (Tk::Error, scan(bytes, p + 1, ByteClass::Continuation)),
        }
    }
}

/// What a lexer holds: the bytes of its text and the place it has reached.
pub struct LexerView {
    /// The bytes of the text.
    pub bytes: Seq<u8>,
    /// The place of the next token.
    pub pos: int,
}

/// A lexer over a text: it hands out the tokens one after the other.
pub struct Lexer<'a> {
    bytes: &'a [u8],
    pos: usize,
}

impl<'a> View for Lexer<'a> {
    type V = LexerView;

    closed spec fn view(&self) -> LexerView {
        LexerView { bytes: self.bytes@, pos: self.pos as int }
    }
}

impl<'a> Lexer<'a> {
    #[verifier::type_invariant]
    spec fn in_text(self) -> bool {
        &&& self.pos <= self.bytes@.len() <= u32::MAX
        &&& valid_utf8(self.bytes@)
        &&& boundary(self.bytes@, self.pos as int)
    }

    /// A lexer at the start of `s`. The text must not be longer than a
    /// span can say.
    pub fn new(s: &'a str) -> (lexer: Self)
        requires
            s.spec_bytes().len() <= u32::MAX,
        ensures
            lexer@ == (LexerView { bytes: s.spec_bytes(), pos: 0 }),
    {
        let bytes = s.as_bytes();
        proof {
            vstd::utf8::encode_utf8_valid_utf8(s@);
            lemma_boundary_start(bytes@);
        }
        Lexer { bytes, pos: 0 }
    }

    /// The next token with its span, or `None` at the end of the text.
    pub fn next(&mut self) -> (item: Option<(SyntaxKind, Span)>)
        ensures
            final(self)@.bytes == old(self)@.bytes,
            0 <= old(self)@.pos <= old(self)@.bytes.len() <= u32::MAX,
            valid_utf8(old(self)@.bytes),
            match item {
                None => old(self)@.pos == old(self)@.bytes.len() && final(self)@ == old(self)@,
                Some((kind, span)) => {
                    &&& old(self)@.pos < old(self)@.bytes.len()
                    &&& kind == token_at(old(self)@.bytes, old(self)@.pos).0.kind()
                    &&& span.start == old(self)@.pos
                    &&& span.end == token_at(old(self)@.bytes, old(self)@.pos).1
                    &&& span.start < span.end <= old(self)@.bytes.len()
                    &&& final(self)@.pos == span.end
                    &&& boundary(old(self)@.bytes, span.end as int)
                },
            },
    {
        proof {
            use_type_invariant(&*self);
        }
        if self.pos >= self.bytes.len() {
            return None;
        }
        let start = self.pos;
        let (tk, end) = next_token(self.bytes, start);
        self.pos = end;
        Some((SyntaxKind::from(tk), Span { start: start as u32, end: end as u32 }))
    }
}

/// Cuts the text into tokens. The tokens cover the text, none is empty,
/// and each ends where a character ends.
pub fn tokenize(text: &str) -> (tokens: Vec<Token>)
    requires
        text.spec_bytes().len() <= u32::MAX,
    ensures
        tokens@ == lex(text.spec_bytes()),
        cuts(text.spec_bytes(), tokens@),
        total_len(tokens@) == text.spec_bytes().len(),
        forall|k: int| 0 <= k < tokens@.len() ==> (#[trigger] tokens@[k]).len > 0,
{
    let ghost bytes = text.spec_bytes();
    let mut lexer = Lexer::new(text);
    let mut tokens: Vec<Token> = Vec::new();
    proof {
        vstd::utf8::encode_utf8_valid_utf8(text@);
        lemma_lex(bytes);
        assert(tokens@ + lex_from(bytes, 0) =~= lex(bytes));
    }
    loop
        invariant_except_break
            lexer@.bytes == bytes,
            0 <= lexer@.pos <= bytes.len(),
            tokens@ + lex_from(bytes, lexer@.pos) == lex(bytes),
        ensures
            tokens@ == lex(bytes),
        decreases bytes.len() - lexer@.pos,
    {
        let ghost before = tokens@;
        let ghost p = lexer@.pos;
        match lexer.next() {
            Some((kind, span)) => {
                tokens.push(Token { syntax_kind: kind, len: span.len() });
                proof {
                    assert(tokens@ + lex_from(bytes, span.end as int) =~= before + lex_from(
                        bytes,
                        p,
                    ));
                }
            },
            None => {
                proof {
                    assert(before + lex_from(bytes, p) =~= before);
                }
                break ;
            },
        }
    }
    tokens
}

} // verus!
