//! The token vocabulary: the classified units the scanner emits, and the
//! closed keyword, operator and delimiter enumerations a downstream parser
//! classifies them against. The scanner itself emits raw identifiers,
//! numeric-literal spans and single-character symbols only.

use vstd::prelude::*;

verus! {

/// The atomic classified lexical unit the scanner produces. Identifier and
/// numeric-literal tokens carry their lexeme as an owned copy of the source
/// span; a symbol carries its one character.
pub enum Token {
    Ident(String),
    NumLit(String),
    Symbol(char),
}

/// The mathematical value of a token: the same three kinds, with the
/// lexeme as a character sequence.
pub enum TokenModel {
    Ident(Seq<char>),
    NumLit(Seq<char>),
    Symbol(char),
}

impl View for Token {
    type V = TokenModel;

    open spec fn view(&self) -> TokenModel {
        match self {
            Token::Ident(s) => TokenModel::Ident(s@),
            Token::NumLit(s) => TokenModel::NumLit(s@),
            Token::Symbol(c) => TokenModel::Symbol(*c),
        }
    }
}

impl TokenModel {
    /// The literal text the token covers: its lexeme, a symbol reading as a
    /// one-character span.
    pub open spec fn lexeme(self) -> Seq<char> {
        match self {
            TokenModel::Ident(s) => s,
            TokenModel::NumLit(s) => s,
            TokenModel::Symbol(c) => seq![c],
        }
    }
}

/// Relies on `String::push`: appends the given character at the end of the
/// string and changes nothing else.
pub assume_specification[ String::push ](s: &mut String, c: char)
    ensures
        final(s)@ == old(s)@.push(c),
;

impl Token {
    /// The token's lexeme as an owned string.
    pub fn to_string(&self) -> (r: String)
        ensures
            r@ == self@.lexeme(),
    {
        match self {
            Token::Ident(s) => s.clone(),
            Token::NumLit(s) => s.clone(),
            Token::Symbol(c) => {
                let mut r = String::new();
                r.push(*c);
                proof {
                    assert(r@ =~= seq![*c]);
                }
                r
            },
        }
    }
}

/// The closed keyword vocabulary a downstream parser classifies raw
/// identifiers against; the scanner never interprets it.
pub enum Keyword {
    Fn,
    Let,
    If,
    For,
    Return,
    Break,
    Const,
    Continue,
    Else,
    Global,
    Local,
    Mut,
    True,
    False,
    While,
    Match,
    Loop,
    In,
}

/// The closed operator vocabulary a downstream parser reconstructs from
/// runs of adjacent single-character symbol tokens.
pub enum Operator {
    BitAnd,
    BitAndEq,
    BitOr,
    BitOrEq,
    BitXor,
    BitXorEq,
    LeftShift,
    LeftShiftEq,
    RightShift,
    RightShiftEq,
    Constraint,
    Terminator,
    GreaterThan,
    LessThen,
    EqualTo,
    GreaterThanEq,
    LessThanEq,
    Assignment,
    Not,
    NotEq,
    Rem,
    RemEq,
    Borrow,
    Mul,
    MulEq,
    Deref,
    Add,
    AddEq,
    Sub,
    SubEq,
    Div,
    DivEq,
    RangeExclusive,
    RangeInclusive,
    ReturnType,
    Access,
    Neg,
    Separator,
}

/// The closed delimiter vocabulary, matched downstream.
pub enum Delimiter {
    RCurly,
    LCurly,
    RBracket,
    LBracket,
    RParen,
    LParen,
}

} // verus!
