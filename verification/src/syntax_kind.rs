//! The kinds of tokens and tree nodes.

use vstd::prelude::*;

verus! {

/// Every kind of token and of node that a syntax tree can hold.
///
/// The order of the variants is the order of their raw values: a new kind is
/// added just before `__LAST`, never in the middle.
#[allow(non_camel_case_types)]
#[allow(clippy::upper_case_acronyms)]
#[derive(Clone, Copy, Debug, PartialEq, Eq, Structural, PartialOrd, Ord, Hash)]
pub enum SyntaxKind {
    /// The kind of a node whose real kind is not decided yet.
    TOMBSTONE,
    /// What the token source reports past its last token.
    EOF,
    /// The token `;`.
    SEMICOLON,
    /// The token `,`.
    COMMA,
    /// The token `(`.
    L_PAREN,
    /// The token `)`.
    R_PAREN,
    /// The token `{`.
    L_CURLY,
    /// The token `}`.
    R_CURLY,
    /// The token `[`.
    L_BRACK,
    /// The token `]`.
    R_BRACK,
    /// The token `<`.
    L_ANGLE,
    /// The token `>`.
    R_ANGLE,
    /// The token `.`.
    DOT,
    /// The token `:`.
    COLON,
    /// The token `?`.
    QMARK,
    /// The token `=`.
    EQ,
    /// The token `+`.
    PLUS,
    /// The token `-`.
    MINUS,
    /// The token `*`.
    ASTERISK,
    /// The token `/`.
    SLASH,
    /// The token `%`.
    PERCENT,
    /// The token `&`.
    AMP,
    /// The token `&&`.
    AMP2,
    /// The token `|`.
    PIPE,
    /// The token `||`.
    PIPE2,
    /// The token `^`.
    CARET,
    /// The token `!`.
    BANG,
    /// The token `+=`.
    PLUS_EQ,
    /// The token `-=`.
    MINUS_EQ,
    /// The token `*=`.
    ASTERISK_EQ,
    /// The token `/=`.
    SLASH_EQ,
    /// The token `%=`.
    MODULUS_EQ,
    /// The token `&=`.
    AMP_EQ,
    /// The token `|=`.
    PIPE_EQ,
    /// The token `&&=`.
    AMP2_EQ,
    /// The token `||=`.
    PIPE2_EQ,
    /// The token `^=`.
    CARET_EQ,
    /// The token `==`.
    EQ_EQ,
    /// The token `!=`.
    BANG_EQ,
    /// The token `<=`.
    L_ANGLE_EQ,
    /// The token `>=`.
    R_ANGLE_EQ,
    /// The token `::`.
    COLON2,
    /// The keyword `fn`.
    FN_KW,
    /// The keyword `self`.
    SELF_KW,
    /// The keyword `while`.
    WHILE_KW,
    /// The keyword `for`.
    FOR_KW,
    /// The keyword `in`.
    IN_KW,
    /// The keyword `continue`.
    CONTINUE_KW,
    /// The keyword `break`.
    BREAK_KW,
    /// The keyword `return`.
    RETURN_KW,
    /// The keyword `if`.
    IF_KW,
    /// The keyword `else`.
    ELSE_KW,
    /// The keyword `let`.
    LET_KW,
    /// The keyword `true`.
    TRUE_KW,
    /// The keyword `false`.
    FALSE_KW,
    /// The keyword `import`.
    IMPORT_KW,
    /// The keyword `as`.
    AS_KW,
    INT_NUMBER,
    FLOAT_NUMBER,
    CHAR,
    STR,
    MULTILINE_STR,
    ERROR,
    IDENT,
    WHITESPACE,
    LIFETIME,
    COMMENT,
    BLOCK_COMMENT,
    SHEBANG,
    NEWLINE,
    ROOT,
    IMPORT_STMT,
    IMPORT_TARGET,
    NAME,
    NAME_IDENT,
    LIT_VAL,
    FN_DEF,
    BLOCK,
    STMT,
    EXPR_STMT,
    BIN_EXPR,
    TUPLE_EXPR,
    ARR_EXPR,
    PRIMARY_EXPR,
    FN_CALL_EXPR,
    METHOD_CALL_EXPR,
    FN_CALL_ARGS,
    PREFIX_UNARY_EXPR,
    INDEX_EXPR,
    INDEX_EXPR_BRACKETS,
    MEMBER_ACCESS_EXPR,
    IF_BRANCH,
    ELSE_IF_BRANCH,
    ELSE_BRANCH,
    IF_EXPR,
    WHILE_STMT,
    FOR_STMT,
    FOR_IN_EXPR,
    BREAK_STMT,
    CONTINUE_STMT,
    RETURN_STMT,
    DECLARATION_STMT,
    /// Bounds the raw values from above; never the kind of anything.
    __LAST,
}

impl SyntaxKind {
    /// The raw value of a kind: its place in the enumeration.
    pub open spec fn raw(self) -> u16 {
        match self {
            SyntaxKind::TOMBSTONE => 0u16,
            SyntaxKind::EOF => 1u16,
            SyntaxKind::SEMICOLON => 2u16,
            SyntaxKind::COMMA => 3u16,
            SyntaxKind::L_PAREN => 4u16,
            SyntaxKind::R_PAREN => 5u16,
            SyntaxKind::L_CURLY => 6u16,
            SyntaxKind::R_CURLY => 7u16,
            SyntaxKind::L_BRACK => 8u16,
            SyntaxKind::R_BRACK => 9u16,
            SyntaxKind::L_ANGLE => 10u16,
            SyntaxKind::R_ANGLE => 11u16,
            SyntaxKind::DOT => 12u16,
            SyntaxKind::COLON => 13u16,
            SyntaxKind::QMARK => 14u16,
            SyntaxKind::EQ => 15u16,
            SyntaxKind::PLUS => 16u16,
            SyntaxKind::MINUS => 17u16,
            SyntaxKind::ASTERISK => 18u16,
            SyntaxKind::SLASH => 19u16,
            SyntaxKind::PERCENT => 20u16,
            SyntaxKind::AMP => 21u16,
            SyntaxKind::AMP2 => 22u16,
            SyntaxKind::PIPE => 23u16,
            SyntaxKind::PIPE2 => 24u16,
            SyntaxKind::CARET => 25u16,
            SyntaxKind::BANG => 26u16,
            SyntaxKind::PLUS_EQ => 27u16,
            SyntaxKind::MINUS_EQ => 28u16,
            SyntaxKind::ASTERISK_EQ => 29u16,
            SyntaxKind::SLASH_EQ => 30u16,
            SyntaxKind::MODULUS_EQ => 31u16,
            SyntaxKind::AMP_EQ => 32u16,
            SyntaxKind::PIPE_EQ => 33u16,
            SyntaxKind::AMP2_EQ => 34u16,
            SyntaxKind::PIPE2_EQ => 35u16,
            SyntaxKind::CARET_EQ => 36u16,
            SyntaxKind::EQ_EQ => 37u16,
            SyntaxKind::BANG_EQ => 38u16,
            SyntaxKind::L_ANGLE_EQ => 39u16,
            SyntaxKind::R_ANGLE_EQ => 40u16,
            SyntaxKind::COLON2 => 41u16,
            SyntaxKind::FN_KW => 42u16,
            SyntaxKind::SELF_KW => 43u16,
            SyntaxKind::WHILE_KW => 44u16,
            SyntaxKind::FOR_KW => 45u16,
            SyntaxKind::IN_KW => 46u16,
            SyntaxKind::CONTINUE_KW => 47u16,
            SyntaxKind::BREAK_KW => 48u16,
            SyntaxKind::RETURN_KW => 49u16,
            SyntaxKind::IF_KW => 50u16,
            SyntaxKind::ELSE_KW => 51u16,
            SyntaxKind::LET_KW => 52u16,
            SyntaxKind::TRUE_KW => 53u16,
            SyntaxKind::FALSE_KW => 54u16,
            SyntaxKind::IMPORT_KW => 55u16,
            SyntaxKind::AS_KW => 56u16,
            SyntaxKind::INT_NUMBER => 57u16,
            SyntaxKind::FLOAT_NUMBER => 58u16,
            SyntaxKind::CHAR => 59u16,
            SyntaxKind::STR => 60u16,
            SyntaxKind::MULTILINE_STR => 61u16,
            SyntaxKind::ERROR => 62u16,
            SyntaxKind::IDENT => 63u16,
            SyntaxKind::WHITESPACE => 64u16,
            SyntaxKind::LIFETIME => 65u16,
            SyntaxKind::COMMENT => 66u16,
            SyntaxKind::BLOCK_COMMENT => 67u16,
            SyntaxKind::SHEBANG => 68u16,
            SyntaxKind::NEWLINE => 69u16,
            SyntaxKind::ROOT => 70u16,
            SyntaxKind::IMPORT_STMT => 71u16,
            SyntaxKind::IMPORT_TARGET => 72u16,
            SyntaxKind::NAME => 73u16,
            SyntaxKind::NAME_IDENT => 74u16,
            SyntaxKind::LIT_VAL => 75u16,
            SyntaxKind::FN_DEF => 76u16,
            SyntaxKind::BLOCK => 77u16,
            SyntaxKind::STMT => 78u16,
            SyntaxKind::EXPR_STMT => 79u16,
            SyntaxKind::BIN_EXPR => 80u16,
            SyntaxKind::TUPLE_EXPR => 81u16,
            SyntaxKind::ARR_EXPR => 82u16,
            SyntaxKind::PRIMARY_EXPR => 83u16,
            SyntaxKind::FN_CALL_EXPR => 84u16,
            SyntaxKind::METHOD_CALL_EXPR => 85u16,
            SyntaxKind::FN_CALL_ARGS => 86u16,
            SyntaxKind::PREFIX_UNARY_EXPR => 87u16,
            SyntaxKind::INDEX_EXPR => 88u16,
            SyntaxKind::INDEX_EXPR_BRACKETS => 89u16,
            SyntaxKind::MEMBER_ACCESS_EXPR => 90u16,
            SyntaxKind::IF_BRANCH => 91u16,
            SyntaxKind::ELSE_IF_BRANCH => 92u16,
            SyntaxKind::ELSE_BRANCH => 93u16,
            SyntaxKind::IF_EXPR => 94u16,
            SyntaxKind::WHILE_STMT => 95u16,
            SyntaxKind::FOR_STMT => 96u16,
            SyntaxKind::FOR_IN_EXPR => 97u16,
            SyntaxKind::BREAK_STMT => 98u16,
            SyntaxKind::CONTINUE_STMT => 99u16,
            SyntaxKind::RETURN_STMT => 100u16,
            SyntaxKind::DECLARATION_STMT => 101u16,
            SyntaxKind::__LAST => 102u16,
        }
    }

    /// The raw value of `self`.
    pub fn to_raw(self) -> (r: u16)
        ensures
            r == self.raw(),
    {
        match self {
            SyntaxKind::TOMBSTONE => 0u16,
            SyntaxKind::EOF => 1u16,
            SyntaxKind::SEMICOLON => 2u16,
            SyntaxKind::COMMA => 3u16,
            SyntaxKind::L_PAREN => 4u16,
            SyntaxKind::R_PAREN => 5u16,
            SyntaxKind::L_CURLY => 6u16,
            SyntaxKind::R_CURLY => 7u16,
            SyntaxKind::L_BRACK => 8u16,
            SyntaxKind::R_BRACK => 9u16,
            SyntaxKind::L_ANGLE => 10u16,
            SyntaxKind::R_ANGLE => 11u16,
            SyntaxKind::DOT => 12u16,
            SyntaxKind::COLON => 13u16,
            SyntaxKind::QMARK => 14u16,
            SyntaxKind::EQ => 15u16,
            SyntaxKind::PLUS => 16u16,
            SyntaxKind::MINUS => 17u16,
            SyntaxKind::ASTERISK => 18u16,
            SyntaxKind::SLASH => 19u16,
            SyntaxKind::PERCENT => 20u16,
            SyntaxKind::AMP => 21u16,
            SyntaxKind::AMP2 => 22u16,
            SyntaxKind::PIPE => 23u16,
            SyntaxKind::PIPE2 => 24u16,
            SyntaxKind::CARET => 25u16,
            SyntaxKind::BANG => 26u16,
            SyntaxKind::PLUS_EQ => 27u16,
            SyntaxKind::MINUS_EQ => 28u16,
            SyntaxKind::ASTERISK_EQ => 29u16,
            SyntaxKind::SLASH_EQ => 30u16,
            SyntaxKind::MODULUS_EQ => 31u16,
            SyntaxKind::AMP_EQ => 32u16,
            SyntaxKind::PIPE_EQ => 33u16,
            SyntaxKind::AMP2_EQ => 34u16,
            SyntaxKind::PIPE2_EQ => 35u16,
            SyntaxKind::CARET_EQ => 36u16,
            SyntaxKind::EQ_EQ => 37u16,
            SyntaxKind::BANG_EQ => 38u16,
            SyntaxKind::L_ANGLE_EQ => 39u16,
            SyntaxKind::R_ANGLE_EQ => 40u16,
            SyntaxKind::COLON2 => 41u16,
            SyntaxKind::FN_KW => 42u16,
            SyntaxKind::SELF_KW => 43u16,
            SyntaxKind::WHILE_KW => 44u16,
            SyntaxKind::FOR_KW => 45u16,
            SyntaxKind::IN_KW => 46u16,
            SyntaxKind::CONTINUE_KW => 47u16,
            SyntaxKind::BREAK_KW => 48u16,
            SyntaxKind::RETURN_KW => 49u16,
            SyntaxKind::IF_KW => 50u16,
            SyntaxKind::ELSE_KW => 51u16,
            SyntaxKind::LET_KW => 52u16,
            SyntaxKind::TRUE_KW => 53u16,
            SyntaxKind::FALSE_KW => 54u16,
            SyntaxKind::IMPORT_KW => 55u16,
            SyntaxKind::AS_KW => 56u16,
            SyntaxKind::INT_NUMBER => 57u16,
            SyntaxKind::FLOAT_NUMBER => 58u16,
            SyntaxKind::CHAR => 59u16,
            SyntaxKind::STR => 60u16,
            SyntaxKind::MULTILINE_STR => 61u16,
            SyntaxKind::ERROR => 62u16,
            SyntaxKind::IDENT => 63u16,
            SyntaxKind::WHITESPACE => 64u16,
            SyntaxKind::LIFETIME => 65u16,
            SyntaxKind::COMMENT => 66u16,
            SyntaxKind::BLOCK_COMMENT => 67u16,
            SyntaxKind::SHEBANG => 68u16,
            SyntaxKind::NEWLINE => 69u16,
            SyntaxKind::ROOT => 70u16,
            SyntaxKind::IMPORT_STMT => 71u16,
            SyntaxKind::IMPORT_TARGET => 72u16,
            SyntaxKind::NAME => 73u16,
            SyntaxKind::NAME_IDENT => 74u16,
            SyntaxKind::LIT_VAL => 75u16,
            SyntaxKind::FN_DEF => 76u16,
            SyntaxKind::BLOCK => 77u16,
            SyntaxKind::STMT => 78u16,
            SyntaxKind::EXPR_STMT => 79u16,
            SyntaxKind::BIN_EXPR => 80u16,
            SyntaxKind::TUPLE_EXPR => 81u16,
            SyntaxKind::ARR_EXPR => 82u16,
            SyntaxKind::PRIMARY_EXPR => 83u16,
            SyntaxKind::FN_CALL_EXPR => 84u16,
            SyntaxKind::METHOD_CALL_EXPR => 85u16,
            SyntaxKind::FN_CALL_ARGS => 86u16,
            SyntaxKind::PREFIX_UNARY_EXPR => 87u16,
            SyntaxKind::INDEX_EXPR => 88u16,
            SyntaxKind::INDEX_EXPR_BRACKETS => 89u16,
            SyntaxKind::MEMBER_ACCESS_EXPR => 90u16,
            SyntaxKind::IF_BRANCH => 91u16,
            SyntaxKind::ELSE_IF_BRANCH => 92u16,
            SyntaxKind::ELSE_BRANCH => 93u16,
            SyntaxKind::IF_EXPR => 94u16,
            SyntaxKind::WHILE_STMT => 95u16,
            SyntaxKind::FOR_STMT => 96u16,
            SyntaxKind::FOR_IN_EXPR => 97u16,
            SyntaxKind::BREAK_STMT => 98u16,
            SyntaxKind::CONTINUE_STMT => 99u16,
            SyntaxKind::RETURN_STMT => 100u16,
            SyntaxKind::DECLARATION_STMT => 101u16,
            SyntaxKind::__LAST => 102u16,
        }
    }

    /// The kind with the raw value `raw`, if there is one.
    pub fn from_raw(raw: u16) -> (r: Option<SyntaxKind>)
        ensures
            raw < LAST_RAW ==> r.is_some() && r.unwrap().raw() == raw && r.unwrap() != SyntaxKind::__LAST,
            raw >= LAST_RAW ==> r.is_none(),
    {
        match raw {
            0u16 => Some(SyntaxKind::TOMBSTONE),
            1u16 => Some(SyntaxKind::EOF),
            2u16 => Some(SyntaxKind::SEMICOLON),
            3u16 => Some(SyntaxKind::COMMA),
            4u16 => Some(SyntaxKind::L_PAREN),
            5u16 => Some(SyntaxKind::R_PAREN),
            6u16 => Some(SyntaxKind::L_CURLY),
            7u16 => Some(SyntaxKind::R_CURLY),
            8u16 => Some(SyntaxKind::L_BRACK),
            9u16 => Some(SyntaxKind::R_BRACK),
            10u16 => Some(SyntaxKind::L_ANGLE),
            11u16 => Some(SyntaxKind::R_ANGLE),
            12u16 => Some(SyntaxKind::DOT),
            13u16 => Some(SyntaxKind::COLON),
            14u16 => Some(SyntaxKind::QMARK),
            15u16 => Some(SyntaxKind::EQ),
            16u16 => Some(SyntaxKind::PLUS),
            17u16 => Some(SyntaxKind::MINUS),
            18u16 => Some(SyntaxKind::ASTERISK),
            19u16 => Some(SyntaxKind::SLASH),
            20u16 => Some(SyntaxKind::PERCENT),
            21u16 => Some(SyntaxKind::AMP),
            22u16 => Some(SyntaxKind::AMP2),
            23u16 => Some(SyntaxKind::PIPE),
            24u16 => Some(SyntaxKind::PIPE2),
            25u16 => Some(SyntaxKind::CARET),
            26u16 => Some(SyntaxKind::BANG),
            27u16 => Some(SyntaxKind::PLUS_EQ),
            28u16 => Some(SyntaxKind::MINUS_EQ),
            29u16 => Some(SyntaxKind::ASTERISK_EQ),
            30u16 => Some(SyntaxKind::SLASH_EQ),
            31u16 => Some(SyntaxKind::MODULUS_EQ),
            32u16 => Some(SyntaxKind::AMP_EQ),
            33u16 => Some(SyntaxKind::PIPE_EQ),
            34u16 => Some(SyntaxKind::AMP2_EQ),
            35u16 => Some(SyntaxKind::PIPE2_EQ),
            36u16 => Some(SyntaxKind::CARET_EQ),
            37u16 => Some(SyntaxKind::EQ_EQ),
            38u16 => Some(SyntaxKind::BANG_EQ),
            39u16 => Some(SyntaxKind::L_ANGLE_EQ),
            40u16 => Some(SyntaxKind::R_ANGLE_EQ),
            41u16 => Some(SyntaxKind::COLON2),
            42u16 => Some(SyntaxKind::FN_KW),
            43u16 => Some(SyntaxKind::SELF_KW),
            44u16 => Some(SyntaxKind::WHILE_KW),
            45u16 => Some(SyntaxKind::FOR_KW),
            46u16 => Some(SyntaxKind::IN_KW),
            47u16 => Some(SyntaxKind::CONTINUE_KW),
            48u16 => Some(SyntaxKind::BREAK_KW),
            49u16 => Some(SyntaxKind::RETURN_KW),
            50u16 => Some(SyntaxKind::IF_KW),
            51u16 => Some(SyntaxKind::ELSE_KW),
            52u16 => Some(SyntaxKind::LET_KW),
            53u16 => Some(SyntaxKind::TRUE_KW),
            54u16 => Some(SyntaxKind::FALSE_KW),
            55u16 => Some(SyntaxKind::IMPORT_KW),
            56u16 => Some(SyntaxKind::AS_KW),
            57u16 => Some(SyntaxKind::INT_NUMBER),
            58u16 => Some(SyntaxKind::FLOAT_NUMBER),
            59u16 => Some(SyntaxKind::CHAR),
            60u16 => Some(SyntaxKind::STR),
            61u16 => Some(SyntaxKind::MULTILINE_STR),
            62u16 => Some(SyntaxKind::ERROR),
            63u16 => Some(SyntaxKind::IDENT),
            64u16 => Some(SyntaxKind::WHITESPACE),
            65u16 => Some(SyntaxKind::LIFETIME),
            66u16 => Some(SyntaxKind::COMMENT),
            67u16 => Some(SyntaxKind::BLOCK_COMMENT),
            68u16 => Some(SyntaxKind::SHEBANG),
            69u16 => Some(SyntaxKind::NEWLINE),
            70u16 => Some(SyntaxKind::ROOT),
            71u16 => Some(SyntaxKind::IMPORT_STMT),
            72u16 => Some(SyntaxKind::IMPORT_TARGET),
            73u16 => Some(SyntaxKind::NAME),
            74u16 => Some(SyntaxKind::NAME_IDENT),
            75u16 => Some(SyntaxKind::LIT_VAL),
            76u16 => Some(SyntaxKind::FN_DEF),
            77u16 => Some(SyntaxKind::BLOCK),
            78u16 => Some(SyntaxKind::STMT),
            79u16 => Some(SyntaxKind::EXPR_STMT),
            80u16 => Some(SyntaxKind::BIN_EXPR),
            81u16 => Some(SyntaxKind::TUPLE_EXPR),
            82u16 => Some(SyntaxKind::ARR_EXPR),
            83u16 => Some(SyntaxKind::PRIMARY_EXPR),
            84u16 => Some(SyntaxKind::FN_CALL_EXPR),
            85u16 => Some(SyntaxKind::METHOD_CALL_EXPR),
            86u16 => Some(SyntaxKind::FN_CALL_ARGS),
            87u16 => Some(SyntaxKind::PREFIX_UNARY_EXPR),
            88u16 => Some(SyntaxKind::INDEX_EXPR),
            89u16 => Some(SyntaxKind::INDEX_EXPR_BRACKETS),
            90u16 => Some(SyntaxKind::MEMBER_ACCESS_EXPR),
            91u16 => Some(SyntaxKind::IF_BRANCH),
            92u16 => Some(SyntaxKind::ELSE_IF_BRANCH),
            93u16 => Some(SyntaxKind::ELSE_BRANCH),
            94u16 => Some(SyntaxKind::IF_EXPR),
            95u16 => Some(SyntaxKind::WHILE_STMT),
            96u16 => Some(SyntaxKind::FOR_STMT),
            97u16 => Some(SyntaxKind::FOR_IN_EXPR),
            98u16 => Some(SyntaxKind::BREAK_STMT),
            99u16 => Some(SyntaxKind::CONTINUE_STMT),
            100u16 => Some(SyntaxKind::RETURN_STMT),
            101u16 => Some(SyntaxKind::DECLARATION_STMT),
            _ => None,
        }
    }

    /// Whether a token of this kind carries no meaning for the grammar:
    /// blanks and both forms of comment. A line break is not trivia.
    pub open spec fn is_trivia_spec(self) -> bool {
        self == SyntaxKind::WHITESPACE || self == SyntaxKind::COMMENT || self
            == SyntaxKind::BLOCK_COMMENT
    }

    /// Whether a token of this kind is trivia.
    #[verifier::when_used_as_spec(is_trivia_spec)]
    pub fn is_trivia(self) -> (b: bool)
        ensures
            b == self.is_trivia_spec(),
    {
        self == SyntaxKind::WHITESPACE || self == SyntaxKind::COMMENT || self
            == SyntaxKind::BLOCK_COMMENT
    }

    /// The kinds of the lexer tokens that make up one token of this kind:
    /// two or three punctuation kinds for a composite such as `==` or `&&=`,
    /// the kind itself for every other kind.
    pub open spec fn parts(self) -> Seq<SyntaxKind> {
        match self {
            SyntaxKind::AMP2 => seq![SyntaxKind::AMP, SyntaxKind::AMP],
            SyntaxKind::PIPE2 => seq![SyntaxKind::PIPE, SyntaxKind::PIPE],
            SyntaxKind::PLUS_EQ => seq![SyntaxKind::PLUS, SyntaxKind::EQ],
            SyntaxKind::MINUS_EQ => seq![SyntaxKind::MINUS, SyntaxKind::EQ],
            SyntaxKind::ASTERISK_EQ => seq![SyntaxKind::ASTERISK, SyntaxKind::EQ],
            SyntaxKind::SLASH_EQ => seq![SyntaxKind::SLASH, SyntaxKind::EQ],
            SyntaxKind::MODULUS_EQ => seq![SyntaxKind::PERCENT, SyntaxKind::EQ],
            SyntaxKind::AMP_EQ => seq![SyntaxKind::AMP, SyntaxKind::EQ],
            SyntaxKind::PIPE_EQ => seq![SyntaxKind::PIPE, SyntaxKind::EQ],
            SyntaxKind::CARET_EQ => seq![SyntaxKind::CARET, SyntaxKind::EQ],
            SyntaxKind::AMP2_EQ => seq![SyntaxKind::AMP, SyntaxKind::AMP, SyntaxKind::EQ],
            SyntaxKind::PIPE2_EQ => seq![SyntaxKind::PIPE, SyntaxKind::PIPE, SyntaxKind::EQ],
            SyntaxKind::EQ_EQ => seq![SyntaxKind::EQ, SyntaxKind::EQ],
            SyntaxKind::BANG_EQ => seq![SyntaxKind::BANG, SyntaxKind::EQ],
            SyntaxKind::L_ANGLE_EQ => seq![SyntaxKind::L_ANGLE, SyntaxKind::EQ],
            SyntaxKind::R_ANGLE_EQ => seq![SyntaxKind::R_ANGLE, SyntaxKind::EQ],
            SyntaxKind::COLON2 => seq![SyntaxKind::COLON, SyntaxKind::COLON],
            _ => seq![self],
        }
    }

    /// The name of the kind, as it is written in this list.
    pub open spec fn name_spec(self) -> Seq<char> {
        match self {
            SyntaxKind::TOMBSTONE => "TOMBSTONE"@,
            SyntaxKind::EOF => "EOF"@,
            SyntaxKind::SEMICOLON => "SEMICOLON"@,
            SyntaxKind::COMMA => "COMMA"@,
            SyntaxKind::L_PAREN => "L_PAREN"@,
            SyntaxKind::R_PAREN => "R_PAREN"@,
            SyntaxKind::L_CURLY => "L_CURLY"@,
            SyntaxKind::R_CURLY => "R_CURLY"@,
            SyntaxKind::L_BRACK => "L_BRACK"@,
            SyntaxKind::R_BRACK => "R_BRACK"@,
            SyntaxKind::L_ANGLE => "L_ANGLE"@,
            SyntaxKind::R_ANGLE => "R_ANGLE"@,
            SyntaxKind::DOT => "DOT"@,
            SyntaxKind::COLON => "COLON"@,
            SyntaxKind::QMARK => "QMARK"@,
            SyntaxKind::EQ => "EQ"@,
            SyntaxKind::PLUS => "PLUS"@,
            SyntaxKind::MINUS => "MINUS"@,
            SyntaxKind::ASTERISK => "ASTERISK"@,
            SyntaxKind::SLASH => "SLASH"@,
            SyntaxKind::PERCENT => "PERCENT"@,
            SyntaxKind::AMP => "AMP"@,
            SyntaxKind::AMP2 => "AMP2"@,
            SyntaxKind::PIPE => "PIPE"@,
            SyntaxKind::PIPE2 => "PIPE2"@,
            SyntaxKind::CARET => "CARET"@,
            SyntaxKind::BANG => "BANG"@,
            SyntaxKind::PLUS_EQ => "PLUS_EQ"@,
            SyntaxKind::MINUS_EQ => "MINUS_EQ"@,
            SyntaxKind::ASTERISK_EQ => "ASTERISK_EQ"@,
            SyntaxKind::SLASH_EQ => "SLASH_EQ"@,
            SyntaxKind::MODULUS_EQ => "MODULUS_EQ"@,
            SyntaxKind::AMP_EQ => "AMP_EQ"@,
            SyntaxKind::PIPE_EQ => "PIPE_EQ"@,
            SyntaxKind::AMP2_EQ => "AMP2_EQ"@,
            SyntaxKind::PIPE2_EQ => "PIPE2_EQ"@,
            SyntaxKind::CARET_EQ => "CARET_EQ"@,
            SyntaxKind::EQ_EQ => "EQ_EQ"@,
            SyntaxKind::BANG_EQ => "BANG_EQ"@,
            SyntaxKind::L_ANGLE_EQ => "L_ANGLE_EQ"@,
            SyntaxKind::R_ANGLE_EQ => "R_ANGLE_EQ"@,
            SyntaxKind::COLON2 => "COLON2"@,
            SyntaxKind::FN_KW => "FN_KW"@,
            SyntaxKind::SELF_KW => "SELF_KW"@,
            SyntaxKind::WHILE_KW => "WHILE_KW"@,
            SyntaxKind::FOR_KW => "FOR_KW"@,
            SyntaxKind::IN_KW => "IN_KW"@,
            SyntaxKind::CONTINUE_KW => "CONTINUE_KW"@,
            SyntaxKind::BREAK_KW => "BREAK_KW"@,
            SyntaxKind::RETURN_KW => "RETURN_KW"@,
            SyntaxKind::IF_KW => "IF_KW"@,
            SyntaxKind::ELSE_KW => "ELSE_KW"@,
            SyntaxKind::LET_KW => "LET_KW"@,
            SyntaxKind::TRUE_KW => "TRUE_KW"@,
            SyntaxKind::FALSE_KW => "FALSE_KW"@,
            SyntaxKind::IMPORT_KW => "IMPORT_KW"@,
            SyntaxKind::AS_KW => "AS_KW"@,
            SyntaxKind::INT_NUMBER => "INT_NUMBER"@,
            SyntaxKind::FLOAT_NUMBER => "FLOAT_NUMBER"@,
            SyntaxKind::CHAR => "CHAR"@,
            SyntaxKind::STR => "STR"@,
            SyntaxKind::MULTILINE_STR => "MULTILINE_STR"@,
            SyntaxKind::ERROR => "ERROR"@,
            SyntaxKind::IDENT => "IDENT"@,
            SyntaxKind::WHITESPACE => "WHITESPACE"@,
            SyntaxKind::LIFETIME => "LIFETIME"@,
            SyntaxKind::COMMENT => "COMMENT"@,
            SyntaxKind::BLOCK_COMMENT => "BLOCK_COMMENT"@,
            SyntaxKind::SHEBANG => "SHEBANG"@,
            SyntaxKind::NEWLINE => "NEWLINE"@,
            SyntaxKind::ROOT => "ROOT"@,
            SyntaxKind::IMPORT_STMT => "IMPORT_STMT"@,
            SyntaxKind::IMPORT_TARGET => "IMPORT_TARGET"@,
            SyntaxKind::NAME => "NAME"@,
            SyntaxKind::NAME_IDENT => "NAME_IDENT"@,
            SyntaxKind::LIT_VAL => "LIT_VAL"@,
            SyntaxKind::FN_DEF => "FN_DEF"@,
            SyntaxKind::BLOCK => "BLOCK"@,
            SyntaxKind::STMT => "STMT"@,
            SyntaxKind::EXPR_STMT => "EXPR_STMT"@,
            SyntaxKind::BIN_EXPR => "BIN_EXPR"@,
            SyntaxKind::TUPLE_EXPR => "TUPLE_EXPR"@,
            SyntaxKind::ARR_EXPR => "ARR_EXPR"@,
            SyntaxKind::PRIMARY_EXPR => "PRIMARY_EXPR"@,
            SyntaxKind::FN_CALL_EXPR => "FN_CALL_EXPR"@,
            SyntaxKind::METHOD_CALL_EXPR => "METHOD_CALL_EXPR"@,
            SyntaxKind::FN_CALL_ARGS => "FN_CALL_ARGS"@,
            SyntaxKind::PREFIX_UNARY_EXPR => "PREFIX_UNARY_EXPR"@,
            SyntaxKind::INDEX_EXPR => "INDEX_EXPR"@,
            SyntaxKind::INDEX_EXPR_BRACKETS => "INDEX_EXPR_BRACKETS"@,
            SyntaxKind::MEMBER_ACCESS_EXPR => "MEMBER_ACCESS_EXPR"@,
            SyntaxKind::IF_BRANCH => "IF_BRANCH"@,
            SyntaxKind::ELSE_IF_BRANCH => "ELSE_IF_BRANCH"@,
            SyntaxKind::ELSE_BRANCH => "ELSE_BRANCH"@,
            SyntaxKind::IF_EXPR => "IF_EXPR"@,
            SyntaxKind::WHILE_STMT => "WHILE_STMT"@,
            SyntaxKind::FOR_STMT => "FOR_STMT"@,
            SyntaxKind::FOR_IN_EXPR => "FOR_IN_EXPR"@,
            SyntaxKind::BREAK_STMT => "BREAK_STMT"@,
            SyntaxKind::CONTINUE_STMT => "CONTINUE_STMT"@,
            SyntaxKind::RETURN_STMT => "RETURN_STMT"@,
            SyntaxKind::DECLARATION_STMT => "DECLARATION_STMT"@,
            SyntaxKind::__LAST => "__LAST"@,
        }
    }

    /// The name of the kind.
    pub fn name(self) -> (name: &'static str)
        ensures
            name@ == self.name_spec(),
    {
        match self {
            SyntaxKind::TOMBSTONE => "TOMBSTONE",
            SyntaxKind::EOF => "EOF",
            SyntaxKind::SEMICOLON => "SEMICOLON",
            SyntaxKind::COMMA => "COMMA",
            SyntaxKind::L_PAREN => "L_PAREN",
            SyntaxKind::R_PAREN => "R_PAREN",
            SyntaxKind::L_CURLY => "L_CURLY",
            SyntaxKind::R_CURLY => "R_CURLY",
            SyntaxKind::L_BRACK => "L_BRACK",
            SyntaxKind::R_BRACK => "R_BRACK",
            SyntaxKind::L_ANGLE => "L_ANGLE",
            SyntaxKind::R_ANGLE => "R_ANGLE",
            SyntaxKind::DOT => "DOT",
            SyntaxKind::COLON => "COLON",
            SyntaxKind::QMARK => "QMARK",
            SyntaxKind::EQ => "EQ",
            SyntaxKind::PLUS => "PLUS",
            SyntaxKind::MINUS => "MINUS",
            SyntaxKind::ASTERISK => "ASTERISK",
            SyntaxKind::SLASH => "SLASH",
            SyntaxKind::PERCENT => "PERCENT",
            SyntaxKind::AMP => "AMP",
            SyntaxKind::AMP2 => "AMP2",
            SyntaxKind::PIPE => "PIPE",
            SyntaxKind::PIPE2 => "PIPE2",
            SyntaxKind::CARET => "CARET",
            SyntaxKind::BANG => "BANG",
            SyntaxKind::PLUS_EQ => "PLUS_EQ",
            SyntaxKind::MINUS_EQ => "MINUS_EQ",
            SyntaxKind::ASTERISK_EQ => "ASTERISK_EQ",
            SyntaxKind::SLASH_EQ => "SLASH_EQ",
            SyntaxKind::MODULUS_EQ => "MODULUS_EQ",
            SyntaxKind::AMP_EQ => "AMP_EQ",
            SyntaxKind::PIPE_EQ => "PIPE_EQ",
            SyntaxKind::AMP2_EQ => "AMP2_EQ",
            SyntaxKind::PIPE2_EQ => "PIPE2_EQ",
            SyntaxKind::CARET_EQ => "CARET_EQ",
            SyntaxKind::EQ_EQ => "EQ_EQ",
            SyntaxKind::BANG_EQ => "BANG_EQ",
            SyntaxKind::L_ANGLE_EQ => "L_ANGLE_EQ",
            SyntaxKind::R_ANGLE_EQ => "R_ANGLE_EQ",
            SyntaxKind::COLON2 => "COLON2",
            SyntaxKind::FN_KW => "FN_KW",
            SyntaxKind::SELF_KW => "SELF_KW",
            SyntaxKind::WHILE_KW => "WHILE_KW",
            SyntaxKind::FOR_KW => "FOR_KW",
            SyntaxKind::IN_KW => "IN_KW",
            SyntaxKind::CONTINUE_KW => "CONTINUE_KW",
            SyntaxKind::BREAK_KW => "BREAK_KW",
            SyntaxKind::RETURN_KW => "RETURN_KW",
            SyntaxKind::IF_KW => "IF_KW",
            SyntaxKind::ELSE_KW => "ELSE_KW",
            SyntaxKind::LET_KW => "LET_KW",
            SyntaxKind::TRUE_KW => "TRUE_KW",
            SyntaxKind::FALSE_KW => "FALSE_KW",
            SyntaxKind::IMPORT_KW => "IMPORT_KW",
            SyntaxKind::AS_KW => "AS_KW",
            SyntaxKind::INT_NUMBER => "INT_NUMBER",
            SyntaxKind::FLOAT_NUMBER => "FLOAT_NUMBER",
            SyntaxKind::CHAR => "CHAR",
            SyntaxKind::STR => "STR",
            SyntaxKind::MULTILINE_STR => "MULTILINE_STR",
            SyntaxKind::ERROR => "ERROR",
            SyntaxKind::IDENT => "IDENT",
            SyntaxKind::WHITESPACE => "WHITESPACE",
            SyntaxKind::LIFETIME => "LIFETIME",
            SyntaxKind::COMMENT => "COMMENT",
            SyntaxKind::BLOCK_COMMENT => "BLOCK_COMMENT",
            SyntaxKind::SHEBANG => "SHEBANG",
            SyntaxKind::NEWLINE => "NEWLINE",
            SyntaxKind::ROOT => "ROOT",
            SyntaxKind::IMPORT_STMT => "IMPORT_STMT",
            SyntaxKind::IMPORT_TARGET => "IMPORT_TARGET",
            SyntaxKind::NAME => "NAME",
            SyntaxKind::NAME_IDENT => "NAME_IDENT",
            SyntaxKind::LIT_VAL => "LIT_VAL",
            SyntaxKind::FN_DEF => "FN_DEF",
            SyntaxKind::BLOCK => "BLOCK",
            SyntaxKind::STMT => "STMT",
            SyntaxKind::EXPR_STMT => "EXPR_STMT",
            SyntaxKind::BIN_EXPR => "BIN_EXPR",
            SyntaxKind::TUPLE_EXPR => "TUPLE_EXPR",
            SyntaxKind::ARR_EXPR => "ARR_EXPR",
            SyntaxKind::PRIMARY_EXPR => "PRIMARY_EXPR",
            SyntaxKind::FN_CALL_EXPR => "FN_CALL_EXPR",
            SyntaxKind::METHOD_CALL_EXPR => "METHOD_CALL_EXPR",
            SyntaxKind::FN_CALL_ARGS => "FN_CALL_ARGS",
            SyntaxKind::PREFIX_UNARY_EXPR => "PREFIX_UNARY_EXPR",
            SyntaxKind::INDEX_EXPR => "INDEX_EXPR",
            SyntaxKind::INDEX_EXPR_BRACKETS => "INDEX_EXPR_BRACKETS",
            SyntaxKind::MEMBER_ACCESS_EXPR => "MEMBER_ACCESS_EXPR",
            SyntaxKind::IF_BRANCH => "IF_BRANCH",
            SyntaxKind::ELSE_IF_BRANCH => "ELSE_IF_BRANCH",
            SyntaxKind::ELSE_BRANCH => "ELSE_BRANCH",
            SyntaxKind::IF_EXPR => "IF_EXPR",
            SyntaxKind::WHILE_STMT => "WHILE_STMT",
            SyntaxKind::FOR_STMT => "FOR_STMT",
            SyntaxKind::FOR_IN_EXPR => "FOR_IN_EXPR",
            SyntaxKind::BREAK_STMT => "BREAK_STMT",
            SyntaxKind::CONTINUE_STMT => "CONTINUE_STMT",
            SyntaxKind::RETURN_STMT => "RETURN_STMT",
            SyntaxKind::DECLARATION_STMT => "DECLARATION_STMT",
            SyntaxKind::__LAST => "__LAST",
        }
    }
}

/// The raw value of `__LAST`: every kind proper has a smaller one.
pub const LAST_RAW: u16 = 102;

/// The tag under which the tree builder files kinds. It does nothing but
/// name the two directions between a kind and its raw value.
#[derive(Clone, Copy, Debug, PartialEq, Eq, Structural, PartialOrd, Ord, Hash)]
pub struct LfrLanguage;

impl LfrLanguage {
    /// The kind that a raw value stands for.
    pub fn kind_from_raw(raw: u16) -> (kind: SyntaxKind)
        requires
            raw < LAST_RAW,
        ensures
            kind.raw() == raw,
            kind != SyntaxKind::__LAST,
    {
        match SyntaxKind::from_raw(raw) {
            Some(kind) => kind,
            None => SyntaxKind::TOMBSTONE,
        }
    }

    /// The raw value that stands for a kind.
    pub fn kind_to_raw(kind: SyntaxKind) -> (raw: u16)
        ensures
            raw == kind.raw(),
    {
        kind.to_raw()
    }
}

/// Two kinds with the same raw value are the same kind, and every kind but
/// `__LAST` has a raw value below `LAST_RAW`.
pub proof fn lemma_raw_is_injective(a: SyntaxKind, b: SyntaxKind)
    ensures
        a.raw() == b.raw() ==> a == b,
        a != SyntaxKind::__LAST ==> a.raw() < LAST_RAW,
{
}

} // verus!
