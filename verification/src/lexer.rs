//! The tokenizer state machine: a stateful, single-pass, forward-only
//! scanner over one source text. Each call of `next` yields the next token
//! with its line number and its per-line ordinal, or `None` once the input
//! is exhausted. `next` is proved to walk the stream `model::lex` assigns
//! to the source, one token per call.

use vstd::prelude::*;
use vstd::string::StringSliceAdditionalSpecFns;
use crate::model::chars_of;
use crate::model::char_of;
use crate::model::is_digit_char;
use crate::model::is_ident_start_char;
use crate::model::is_space_byte;
use crate::model::is_word_char;
use crate::model::lemma_newline_count_bounds;
use crate::model::lemma_newline_count_step;
use crate::model::lex;
use crate::model::lex_block_comment;
use crate::model::lex_from;
use crate::model::lex_line_comment;
use crate::model::lex_word;
use crate::model::newline_count;
use crate::model::span_token;
use crate::token::Token;
use crate::token::TokenModel;

verus! {

/// The scanner. It keeps its own copy of the source bytes, so an instance
/// owns everything it reads; tokens carry owned copies of their spans.
pub struct Lexer {
    /// The bytes of the text being lexed.
    src: Vec<u8>,
    /// Cursor over `src`.
    curr: usize,
    /// The current 1-based line number.
    line: usize,
    /// The number of tokens returned while in the current line.
    token: usize,
}

impl Lexer {
    /// The bytes of the source text being scanned.
    pub closed spec fn text(self) -> Seq<u8> {
        self.src@
    }

    /// The cursor: how many source bytes have been consumed.
    pub closed spec fn position(self) -> int {
        self.curr as int
    }

    /// The current line number, starting at 1.
    pub closed spec fn line_number(self) -> int {
        self.line as int
    }

    /// How many tokens have been emitted since the last line change.
    pub closed spec fn ordinal(self) -> int {
        self.token as int
    }

    /// The tokens still to come from this scanner.
    pub open spec fn stream(self) -> Seq<(TokenModel, int, int)> {
        lex_from(self.text(), self.position(), self.line_number(), self.ordinal())
    }

    /// Well-formedness: the cursor never exceeds the text, the line number
    /// is one more than the count of newlines consumed so far, and the
    /// per-line ordinal never exceeds the cursor.
    pub closed spec fn wf(self) -> bool {
        &&& self.curr <= self.src@.len()
        &&& self.src@.len() < usize::MAX
        &&& self.line as int == 1 + newline_count(self.src@.take(self.curr as int))
        &&& self.token <= self.curr
    }

    /// A well-formed scanner's counters are exactly the position
    /// bookkeeping the data model states: the line number is one more than
    /// the number of newline bytes among the consumed prefix, and the
    /// cursor stays within the text.
    pub proof fn lemma_wf_counters(self)
        requires
            self.wf(),
        ensures
            self.line_number() == 1 + newline_count(self.text().take(self.position())),
            0 <= self.position() <= self.text().len(),
            0 <= self.ordinal() <= self.position(),
            1 <= self.line_number() <= 1 + self.position(),
    {
        lemma_newline_count_bounds(self.text().take(self.position()));
    }

    /// A scanner that has consumed its whole text shows a line number of
    /// one more than the number of newline bytes of the text, newlines
    /// inside comments included. Together with `lemma_wf_counters` — the
    /// line number always counts the newlines consumed so far, so it grows
    /// one step per newline from its starting value 1 — the distinct line
    /// numbers observable over a whole scan are exactly 1 through
    /// 1 + `newline_count` of the text.
    pub proof fn lemma_exhausted_line_count(self)
        requires
            self.wf(),
            self.position() == self.text().len(),
        ensures
            self.line_number() == 1 + newline_count(self.text()),
    {
        assert(self.text().take(self.text().len() as int) =~= self.text());
    }

    /// A fresh scanner over `src`, standing at its first byte, on line 1,
    /// with no token yet emitted. Its stream is the full token stream of
    /// the text.
    pub fn new(src: &str) -> (r: Lexer)
        requires
            src.spec_bytes().len() < usize::MAX,
        ensures
            r.wf(),
            r.text() == src.spec_bytes(),
            r.position() == 0,
            r.line_number() == 1,
            r.ordinal() == 0,
            r.stream() == lex(src.spec_bytes()),
    {
        let r = Lexer { src: vstd::slice::slice_to_vec(src.as_bytes()), curr: 0, line: 1, token: 0 };
        proof {
            assert(r.src@.take(0) =~= Seq::<u8>::empty());
        }
        r
    }

    /// The byte under the cursor, read as the character with its code.
    fn char(&self) -> (c: char)
        requires
            self.position() < self.text().len(),
        ensures
            c == char_of(self.text()[self.position()]),
    {
        self.src[self.curr] as char
    }

    /// The length of the source text in bytes.
    fn len(&self) -> (n: usize)
        ensures
            n == self.text().len(),
    {
        self.src.len()
    }

    /// The character after the cursor, if any.
    fn peek(&self) -> (c: Option<char>)
        requires
            self.position() < self.text().len(),
        ensures
            c == (if self.position() + 1 < self.text().len() {
                Some(char_of(self.text()[self.position() + 1]))
            } else {
                None
            }),
    {
        let n = self.src.len();
        if self.curr + 1 < n {
            Some(self.src[self.curr + 1] as char)
        } else {
            None
        }
    }

    /// The span from `start` up to the cursor, copied out as a string.
    fn slice(&self, start: usize) -> (r: String)
        requires
            start <= self.position(),
            self.position() <= self.text().len(),
        ensures
            r@ == chars_of(self.text().subrange(start as int, self.position())),
    {
        let mut r = String::new();
        let mut k = start;
        proof {
            assert(r@ =~= chars_of(self.src@.subrange(start as int, start as int)));
        }
        while k < self.curr
            invariant
                start <= k <= self.curr,
                self.curr <= self.src@.len(),
                r@ == chars_of(self.src@.subrange(start as int, k as int)),
            decreases self.curr - k,
        {
            r.push(self.src[k] as char);
            k = k + 1;
            proof {
                assert(r@ =~= chars_of(self.src@.subrange(start as int, k as int)));
            }
        }
        r
    }

    /// Step the per-line token count, returning what it was before.
    fn inc_token(&mut self) -> (r: usize)
        requires
            old(self).wf(),
            old(self).ordinal() < old(self).position(),
        ensures
            final(self).wf(),
            r as int == old(self).ordinal(),
            final(self).ordinal() == old(self).ordinal() + 1,
            final(self).text() == old(self).text(),
            final(self).position() == old(self).position(),
            final(self).line_number() == old(self).line_number(),
    {
        let result = self.token;
        self.token = self.token + 1;
        result
    }

    /// Produce the next token together with its line number and its
    /// ordinal among the tokens of that line, or `None` once the source is
    /// exhausted. Whitespace is dropped; a newline advances the line and
    /// resets the ordinal; comments are dropped, the newlines inside them
    /// still counted; an unterminated block comment ends the stream
    /// silently. Exactly the head of the scanner's stream comes back, and
    /// the rest of the stream remains.
    pub fn next(&mut self) -> (r: Option<(Token, usize, usize)>)
        requires
            old(self).wf(),
        ensures
            final(self).wf(),
            final(self).text() == old(self).text(),
            old(self).position() <= final(self).position() <= final(self).text().len(),
            old(self).line_number() <= final(self).line_number(),
            (match r {
                None => {
                    &&& old(self).stream() == Seq::<(TokenModel, int, int)>::empty()
                    &&& final(self).stream() == Seq::<(TokenModel, int, int)>::empty()
                    &&& final(self).position() == final(self).text().len()
                },
                Some(t) => {
                    &&& old(self).stream().len() > 0
                    &&& old(self).stream()[0] == (t.0@, t.1 as int, t.2 as int)
                    &&& final(self).stream() == old(self).stream().drop_first()
                    &&& t.1 as int == final(self).line_number()
                    &&& t.2 as int + 1 == final(self).ordinal()
                },
            }),
    {
        loop
            invariant
                self.wf(),
                self.text() == old(self).text(),
                old(self).position() <= self.position() <= self.text().len(),
                old(self).line_number() <= self.line_number(),
                self.stream() == old(self).stream(),
            decreases self.src@.len() - self.curr,
        {
            if self.curr == self.len() {
                return None;
            }
            let ghost pre = *self;
            let b = self.src[self.curr];
            if b == 10 {
                // newline: advance the line counter and reset the
                // token-per-line count.
                proof {
                    lemma_newline_count_step(self.src@, self.curr as int);
                    lemma_newline_count_bounds(self.src@.take(self.curr as int));
                }
                self.curr = self.curr + 1;
                self.line = self.line + 1;
                self.token = 0;
            } else if is_whitespace_byte(b) {
                // whitespace is nothing.
                proof {
                    lemma_newline_count_step(self.src@, self.curr as int);
                }
                self.curr = self.curr + 1;
            } else if b == 47 {
                // a `/`: comment checking.
                let p = self.peek();
                let mode: u8 = (match p {
                    Some(pc) => {
                        if pc == '/' {
                            1
                        } else if pc == '*' {
                            2
                        } else {
                            0
                        }
                    },
                    None => 0,
                });
                if mode == 1 {
                    // single-line comment.
                    proof {
                        lemma_newline_count_step(self.src@, self.curr as int);
                        lemma_newline_count_step(self.src@, self.curr as int + 1);
                    }
                    self.curr = self.curr + 2;
                    loop
                        invariant_except_break
                            lex_line_comment(self.text(), self.position(), self.line_number())
                                == old(self).stream(),
                        invariant
                            self.wf(),
                            self.text() == old(self).text(),
                            old(self).position() <= self.position() <= self.text().len(),
                            old(self).line_number() <= self.line_number(),
                            pre.position() < self.position(),
                        ensures
                            self.stream() == old(self).stream(),
                        decreases self.src@.len() - self.curr,
                    {
                        if self.curr == self.len() {
                            return None;
                        }
                        let c2 = self.src[self.curr];
                        proof {
                            lemma_newline_count_step(self.src@, self.curr as int);
                            lemma_newline_count_bounds(self.src@.take(self.curr as int));
                        }
                        if c2 == 10 {
                            self.line = self.line + 1;
                            self.curr = self.curr + 1;
                            self.token = 0;
                            break;
                        } else {
                            self.curr = self.curr + 1;
                        }
                    }
                } else if mode == 2 {
                    // multi-line comment.
                    proof {
                        lemma_newline_count_step(self.src@, self.curr as int);
                        lemma_newline_count_step(self.src@, self.curr as int + 1);
                    }
                    self.curr = self.curr + 2;
                    loop
                        invariant_except_break
                            lex_block_comment(
                                self.text(),
                                self.position(),
                                self.line_number(),
                                self.ordinal(),
                            ) == old(self).stream(),
                        invariant
                            self.wf(),
                            self.text() == old(self).text(),
                            old(self).position() <= self.position() <= self.text().len(),
                            old(self).line_number() <= self.line_number(),
                            pre.position() < self.position(),
                        ensures
                            self.stream() == old(self).stream(),
                        decreases self.src@.len() - self.curr,
                    {
                        if self.curr == self.len() {
                            return None;
                        }
                        let c2 = self.src[self.curr];
                        proof {
                            lemma_newline_count_step(self.src@, self.curr as int);
                            lemma_newline_count_bounds(self.src@.take(self.curr as int));
                        }
                        if c2 == 10 {
                            self.line = self.line + 1;
                            self.token = 0;
                            self.curr = self.curr + 1;
                        } else if c2 == 42 && self.curr + 1 < self.len() && self.src[self.curr + 1]
                            == 47 {
                            proof {
                                lemma_newline_count_step(self.src@, self.curr as int + 1);
                            }
                            self.curr = self.curr + 2;
                            break;
                        } else {
                            self.curr = self.curr + 1;
                        }
                    }
                } else {
                    // a lone `/` is a plain symbol token.
                    let c = self.char();
                    proof {
                        lemma_newline_count_step(self.src@, self.curr as int);
                    }
                    self.curr = self.curr + 1;
                    let line_no = self.line;
                    let o = self.inc_token();
                    proof {
                        assert(self.stream() =~= pre.stream().drop_first());
                    }
                    return Some((Token::Symbol(c), line_no, o));
                }
            } else if is_valid_ident_start(b as char) {
                // an identifier: extend while the next byte may continue it.
                let start = self.curr;
                proof {
                    lemma_newline_count_step(self.src@, self.curr as int);
                }
                self.curr = self.curr + 1;
                loop
                    invariant
                        self.wf(),
                        self.text() == old(self).text(),
                        old(self).position() <= self.position() <= self.text().len(),
                        old(self).line_number() <= self.line_number(),
                        (start as int) < self.position(),
                        self.ordinal() <= start as int,
                        is_ident_start_char(char_of(self.text()[start as int])),
                        lex_word(
                            self.text(),
                            start as int,
                            self.position(),
                            self.line_number(),
                            self.ordinal(),
                        ) == old(self).stream(),
                    decreases self.src@.len() - self.curr,
                {
                    let ghost before = *self;
                    if self.curr == self.len() || !is_valid_for_ident(self.src[self.curr] as char) {
                        let s = self.slice(start);
                        let line_no = self.line;
                        let o = self.inc_token();
                        proof {
                            assert(lex_word(
                                before.text(),
                                start as int,
                                before.position(),
                                before.line_number(),
                                before.ordinal(),
                            ) == seq![
                                (
                                    span_token(before.text(), start as int, before.position()),
                                    before.line_number(),
                                    before.ordinal(),
                                ),
                            ] + lex_from(
                                before.text(),
                                before.position(),
                                before.line_number(),
                                before.ordinal() + 1,
                            ));
                            assert(self.stream() =~= old(self).stream().drop_first());
                        }
                        return Some((Token::Ident(s), line_no, o));
                    }
                    proof {
                        lemma_newline_count_step(self.src@, self.curr as int);
                    }
                    self.curr = self.curr + 1;
                }
            } else if is_valid_numlit_start(b as char) {
                // a numeric literal: extend while the next byte may
                // continue it, deliberately permissively.
                let start = self.curr;
                proof {
                    lemma_newline_count_step(self.src@, self.curr as int);
                }
                self.curr = self.curr + 1;
                loop
                    invariant
                        self.wf(),
                        self.text() == old(self).text(),
                        old(self).position() <= self.position() <= self.text().len(),
                        old(self).line_number() <= self.line_number(),
                        (start as int) < self.position(),
                        self.ordinal() <= start as int,
                        is_digit_char(char_of(self.text()[start as int])),
                        lex_word(
                            self.text(),
                            start as int,
                            self.position(),
                            self.line_number(),
                            self.ordinal(),
                        ) == old(self).stream(),
                    decreases self.src@.len() - self.curr,
                {
                    let ghost before = *self;
                    if self.curr == self.len() || !is_valid_for_numlit(
                        self.src[self.curr] as char,
                    ) {
                        let s = self.slice(start);
                        let line_no = self.line;
                        let o = self.inc_token();
                        proof {
                            assert(lex_word(
                                before.text(),
                                start as int,
                                before.position(),
                                before.line_number(),
                                before.ordinal(),
                            ) == seq![
                                (
                                    span_token(before.text(), start as int, before.position()),
                                    before.line_number(),
                                    before.ordinal(),
                                ),
                            ] + lex_from(
                                before.text(),
                                before.position(),
                                before.line_number(),
                                before.ordinal() + 1,
                            ));
                            assert(self.stream() =~= old(self).stream().drop_first());
                        }
                        return Some((Token::NumLit(s), line_no, o));
                    }
                    proof {
                        lemma_newline_count_step(self.src@, self.curr as int);
                    }
                    self.curr = self.curr + 1;
                }
            } else {
                // it's a symbol.
                let c = self.char();
                proof {
                    lemma_newline_count_step(self.src@, self.curr as int);
                }
                self.curr = self.curr + 1;
                let line_no = self.line;
                let o = self.inc_token();
                proof {
                    assert(self.stream() =~= pre.stream().drop_first());
                }
                return Some((Token::Symbol(c), line_no, o));
            }
        }
    }
}

/// Whitespace other than newline, byte for byte.
fn is_whitespace_byte(b: u8) -> (r: bool)
    ensures
        r == is_space_byte(b),
{
    b == 9 || b == 11 || b == 12 || b == 13 || b == 32 || b == 133 || b == 160
}

/// Identifier starts must be `_` or an ASCII letter, never a digit.
pub fn is_valid_ident_start(c: char) -> (r: bool)
    ensures
        r == is_ident_start_char(c),
{
    let u = c as u32;
    (65 <= u && u <= 90) || (97 <= u && u <= 122) || u == 95
}

/// The content of an identifier may also hold digits: `_`, ASCII letters,
/// or ASCII digits.
pub fn is_valid_for_ident(c: char) -> (r: bool)
    ensures
        r == is_word_char(c),
{
    is_valid_ident_start(c) || is_valid_numlit_start(c)
}

/// Numeric literals always start with an ASCII digit.
pub fn is_valid_numlit_start(c: char) -> (r: bool)
    ensures
        r == is_digit_char(c),
{
    let u = c as u32;
    48 <= u && u <= 57
}

/// A numeric literal keeps going until a character that is not ASCII
/// alphanumeric or `_`; this admits spans such as `0xFF3D_i32`, a hex
/// literal with a type suffix, whole, for a later stage to validate.
pub fn is_valid_for_numlit(c: char) -> (r: bool)
    ensures
        r == is_word_char(c),
{
    is_valid_for_ident(c)
}

} // verus!
