//! The mathematical model of the scanner: byte classification, and the
//! token stream that a source text denotes.
//!
//! `lex` gives, for a sequence of source bytes, the full sequence of
//! (token, line number, token ordinal) triples that scanning produces.
//! The executable `Lexer` is proved to emit exactly this stream.

use vstd::prelude::*;
use crate::token::TokenModel;

verus! {

// ---------------------------------------------------------------------------
// Byte and character classification
// ---------------------------------------------------------------------------

/// Characters that may open an identifier: ASCII letters and `_`.
pub open spec fn is_ident_start_char(c: char) -> bool {
    (65 <= c as int && c as int <= 90)  // 'A'..='Z'
    || (97 <= c as int && c as int <= 122)  // 'a'..='z'
    || c as int == 95  // '_'
}

/// Characters that open a numeric literal: ASCII digits.
pub open spec fn is_digit_char(c: char) -> bool {
    48 <= c as int && c as int <= 57  // '0'..='9'
}

/// Characters that may continue an identifier or a numeric literal:
/// ASCII alphanumerics and `_`.
pub open spec fn is_word_char(c: char) -> bool {
    is_ident_start_char(c) || is_digit_char(c)
}

/// Whitespace other than newline: the ASCII whitespace characters, plus
/// the two Latin-1 whitespace codepoints (next line, no-break space)
/// that a single byte can carry.
pub open spec fn is_space_char(c: char) -> bool {
    c as int == 9 || c as int == 11 || c as int == 12 || c as int == 13 || c as int == 32
    || c as int == 133 || c as int == 160
}

/// A source byte read as the character with the same code.
pub open spec fn char_of(b: u8) -> char {
    b as char
}

pub open spec fn is_ident_start_byte(b: u8) -> bool {
    is_ident_start_char(char_of(b))
}

pub open spec fn is_digit_byte(b: u8) -> bool {
    is_digit_char(char_of(b))
}

pub open spec fn is_word_byte(b: u8) -> bool {
    is_word_char(char_of(b))
}

pub open spec fn is_space_byte(b: u8) -> bool {
    is_space_char(char_of(b))
}

/// A byte span read as the characters its bytes stand for.
pub open spec fn chars_of(bs: Seq<u8>) -> Seq<char> {
    Seq::new(bs.len(), |i: int| char_of(bs[i]))
}

// ---------------------------------------------------------------------------
// The token stream of a source text
// ---------------------------------------------------------------------------

/// The token an identifier or numeric-literal span `[start, end)` denotes:
/// a span opened by a digit is a numeric literal, any other a plain
/// identifier.
pub open spec fn span_token(src: Seq<u8>, start: int, end: int) -> TokenModel {
    if is_digit_byte(src[start]) {
        TokenModel::NumLit(chars_of(src.subrange(start, end)))
    } else {
        TokenModel::Ident(chars_of(src.subrange(start, end)))
    }
}

/// The stream of (token, line, ordinal) triples still to come when the
/// scanner stands at byte `i` of `src`, on line `line`, having emitted
/// `tok` tokens on that line.
pub open spec fn lex_from(src: Seq<u8>, i: int, line: int, tok: int) -> Seq<(TokenModel, int, int)>
    decreases src.len() - i, 0int,
{
    if i < 0 || i >= src.len() {
        Seq::empty()
    } else if src[i] == 10 {
        // newline: next line begins, the per-line token count resets
        lex_from(src, i + 1, line + 1, 0)
    } else if is_space_byte(src[i]) {
        lex_from(src, i + 1, line, tok)
    } else if src[i] == 47 && i + 1 < src.len() && src[i + 1] == 47 {
        // `//`: a line comment
        lex_line_comment(src, i + 2, line)
    } else if src[i] == 47 && i + 1 < src.len() && src[i + 1] == 42 {
        // `/*`: a block comment
        lex_block_comment(src, i + 2, line, tok)
    } else if is_word_byte(src[i]) {
        lex_word(src, i, i + 1, line, tok)
    } else {
        // any other byte, a lone `/` included, is a one-character symbol
        seq![(TokenModel::Symbol(char_of(src[i])), line, tok)] + lex_from(src, i + 1, line, tok + 1)
    }
}

/// Scanning the rest of an identifier or numeric literal that began at
/// `start`, with the bytes `[start, j)` already taken.
pub open spec fn lex_word(src: Seq<u8>, start: int, j: int, line: int, tok: int) -> Seq<
    (TokenModel, int, int),
>
    decreases src.len() - j, 1int,
{
    if 0 <= j && j < src.len() && is_word_byte(src[j]) {
        lex_word(src, start, j + 1, line, tok)
    } else {
        seq![(span_token(src, start, j), line, tok)] + lex_from(src, j, line, tok + 1)
    }
}

/// Scanning inside a line comment: everything through the next newline is
/// dropped; the newline still advances the line and resets the ordinal.
/// A comment that reaches end of input ends the stream silently.
pub open spec fn lex_line_comment(src: Seq<u8>, i: int, line: int) -> Seq<(TokenModel, int, int)>
    decreases src.len() - i, 0int,
{
    if i < 0 || i >= src.len() {
        Seq::empty()
    } else if src[i] == 10 {
        lex_from(src, i + 1, line + 1, 0)
    } else {
        lex_line_comment(src, i + 1, line)
    }
}

/// Scanning inside a block comment: everything through the first `*/` is
/// dropped; newlines inside still advance the line and reset the ordinal.
/// An unterminated comment ends the stream silently at end of input.
pub open spec fn lex_block_comment(src: Seq<u8>, i: int, line: int, tok: int) -> Seq<
    (TokenModel, int, int),
>
    decreases src.len() - i, 0int,
{
    if i < 0 || i >= src.len() {
        Seq::empty()
    } else if src[i] == 10 {
        lex_block_comment(src, i + 1, line + 1, 0)
    } else if src[i] == 42 && i + 1 < src.len() && src[i + 1] == 47 {
        lex_from(src, i + 2, line, tok)
    } else {
        lex_block_comment(src, i + 1, line, tok)
    }
}

/// The full token stream of a source text: scanning starts at its first
/// byte, on line 1, with no token yet emitted on that line.
pub open spec fn lex(src: Seq<u8>) -> Seq<(TokenModel, int, int)> {
    lex_from(src, 0, 1, 0)
}

// ---------------------------------------------------------------------------
// Newline bookkeeping
// ---------------------------------------------------------------------------

/// How many newline bytes a byte sequence holds.
pub open spec fn newline_count(s: Seq<u8>) -> int
    decreases s.len(),
{
    if s.len() == 0 {
        0
    } else {
        newline_count(s.drop_last()) + if s.last() == 10 {
            1int
        } else {
            0int
        }
    }
}

pub proof fn lemma_newline_count_bounds(s: Seq<u8>)
    ensures
        0 <= newline_count(s) <= s.len(),
    decreases s.len(),
{
    if s.len() > 0 {
        lemma_newline_count_bounds(s.drop_last());
    }
}

/// Consuming one more byte raises the newline count of the consumed
/// prefix exactly when that byte is a newline.
pub proof fn lemma_newline_count_step(s: Seq<u8>, i: int)
    requires
        0 <= i < s.len(),
    ensures
        newline_count(s.take(i + 1)) == newline_count(s.take(i)) + if s[i] == 10 {
            1int
        } else {
            0int
        },
{
    assert(s.take(i + 1).drop_last() =~= s.take(i));
    assert(s.take(i + 1).last() == s[i]);
}

} // verus!
