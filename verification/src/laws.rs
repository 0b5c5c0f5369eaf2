//! Laws of the token stream, proved of `model::lex` and so holding of
//! everything the executable `Lexer` emits:
//!  - concatenating the lexemes of all emitted tokens, in emission order,
//!    reproduces the source text with only whitespace and comments removed
//!    (`lemma_tokens_cover_source`);
//!  - the per-line token ordinal counts up by one within a line and resets
//!    to zero exactly when the line number moves, whatever caused the line
//!    change (`lemma_ordinal_resets_with_line`);
//!  - every lexeme is non-empty and sits wholly within one line
//!    (`lemma_tokens_within_one_line`).

use vstd::prelude::*;
use crate::model::char_of;
use crate::model::chars_of;
use crate::model::is_space_byte;
use crate::model::is_word_byte;
use crate::model::lex;
use crate::model::lex_block_comment;
use crate::model::lex_from;
use crate::model::lex_line_comment;
use crate::model::lex_word;
use crate::model::span_token;
use crate::token::TokenModel;

verus! {

// ---------------------------------------------------------------------------
// What the emitted tokens spell out
// ---------------------------------------------------------------------------

/// The concatenation of the lexemes of a token stream, in emission order.
pub open spec fn emitted_text(ts: Seq<(TokenModel, int, int)>) -> Seq<char>
    decreases ts.len(),
{
    if ts.len() == 0 {
        Seq::empty()
    } else {
        ts[0].0.lexeme() + emitted_text(ts.drop_first())
    }
}

/// The source text from byte `i` on with whitespace and comments removed:
/// exactly the characters that belong to some token.
pub open spec fn visible_from(src: Seq<u8>, i: int) -> Seq<char>
    decreases src.len() - i, 0int,
{
    if i < 0 || i >= src.len() {
        Seq::empty()
    } else if src[i] == 10 {
        visible_from(src, i + 1)
    } else if is_space_byte(src[i]) {
        visible_from(src, i + 1)
    } else if src[i] == 47 && i + 1 < src.len() && src[i + 1] == 47 {
        visible_line_comment(src, i + 2)
    } else if src[i] == 47 && i + 1 < src.len() && src[i + 1] == 42 {
        visible_block_comment(src, i + 2)
    } else if is_word_byte(src[i]) {
        visible_word(src, i, i + 1)
    } else {
        seq![char_of(src[i])] + visible_from(src, i + 1)
    }
}

pub open spec fn visible_word(src: Seq<u8>, start: int, j: int) -> Seq<char>
    decreases src.len() - j, 1int,
{
    if 0 <= j && j < src.len() && is_word_byte(src[j]) {
        visible_word(src, start, j + 1)
    } else {
        chars_of(src.subrange(start, j)) + visible_from(src, j)
    }
}

pub open spec fn visible_line_comment(src: Seq<u8>, i: int) -> Seq<char>
    decreases src.len() - i, 0int,
{
    if i < 0 || i >= src.len() {
        Seq::empty()
    } else if src[i] == 10 {
        visible_from(src, i + 1)
    } else {
        visible_line_comment(src, i + 1)
    }
}

pub open spec fn visible_block_comment(src: Seq<u8>, i: int) -> Seq<char>
    decreases src.len() - i, 0int,
{
    if i < 0 || i >= src.len() {
        Seq::empty()
    } else if src[i] == 10 {
        visible_block_comment(src, i + 1)
    } else if src[i] == 42 && i + 1 < src.len() && src[i + 1] == 47 {
        visible_from(src, i + 2)
    } else {
        visible_block_comment(src, i + 1)
    }
}

/// The whole source text with whitespace and comments removed.
pub open spec fn visible_text(src: Seq<u8>) -> Seq<char> {
    visible_from(src, 0)
}

proof fn lemma_emitted_cons(x: (TokenModel, int, int), s: Seq<(TokenModel, int, int)>)
    ensures
        emitted_text(seq![x] + s) == x.0.lexeme() + emitted_text(s),
{
    assert((seq![x] + s)[0] == x);
    assert((seq![x] + s).drop_first() =~= s);
}

proof fn lemma_cover_from(src: Seq<u8>, i: int, line: int, tok: int)
    ensures
        emitted_text(lex_from(src, i, line, tok)) == visible_from(src, i),
    decreases src.len() - i, 0int,
{
    if i < 0 || i >= src.len() {
    } else if src[i] == 10 {
        lemma_cover_from(src, i + 1, line + 1, 0);
    } else if is_space_byte(src[i]) {
        lemma_cover_from(src, i + 1, line, tok);
    } else if src[i] == 47 && i + 1 < src.len() && src[i + 1] == 47 {
        lemma_cover_line_comment(src, i + 2, line);
    } else if src[i] == 47 && i + 1 < src.len() && src[i + 1] == 42 {
        lemma_cover_block_comment(src, i + 2, line, tok);
    } else if is_word_byte(src[i]) {
        lemma_cover_word(src, i, i + 1, line, tok);
    } else {
        lemma_cover_from(src, i + 1, line, tok + 1);
        lemma_emitted_cons(
            (TokenModel::Symbol(char_of(src[i])), line, tok),
            lex_from(src, i + 1, line, tok + 1),
        );
        assert(TokenModel::Symbol(char_of(src[i])).lexeme() == seq![char_of(src[i])]);
    }
}

proof fn lemma_cover_word(src: Seq<u8>, start: int, j: int, line: int, tok: int)
    ensures
        emitted_text(lex_word(src, start, j, line, tok)) == visible_word(src, start, j),
    decreases src.len() - j, 1int,
{
    if 0 <= j && j < src.len() && is_word_byte(src[j]) {
        lemma_cover_word(src, start, j + 1, line, tok);
    } else {
        lemma_cover_from(src, j, line, tok + 1);
        lemma_emitted_cons(
            (span_token(src, start, j), line, tok),
            lex_from(src, j, line, tok + 1),
        );
        assert(span_token(src, start, j).lexeme() == chars_of(src.subrange(start, j)));
    }
}

proof fn lemma_cover_line_comment(src: Seq<u8>, i: int, line: int)
    ensures
        emitted_text(lex_line_comment(src, i, line)) == visible_line_comment(src, i),
    decreases src.len() - i, 0int,
{
    if i < 0 || i >= src.len() {
    } else if src[i] == 10 {
        lemma_cover_from(src, i + 1, line + 1, 0);
    } else {
        lemma_cover_line_comment(src, i + 1, line);
    }
}

proof fn lemma_cover_block_comment(src: Seq<u8>, i: int, line: int, tok: int)
    ensures
        emitted_text(lex_block_comment(src, i, line, tok)) == visible_block_comment(src, i),
    decreases src.len() - i, 0int,
{
    if i < 0 || i >= src.len() {
    } else if src[i] == 10 {
        lemma_cover_block_comment(src, i + 1, line + 1, 0);
    } else if src[i] == 42 && i + 1 < src.len() && src[i + 1] == 47 {
        lemma_cover_from(src, i + 2, line, tok);
    } else {
        lemma_cover_block_comment(src, i + 1, line, tok);
    }
}

/// For every source text, concatenating the lexemes of all emitted
/// identifier and numeric-literal tokens together with every symbol
/// character, in emission order, reproduces the source with only
/// whitespace and comments removed.
pub proof fn lemma_tokens_cover_source(src: Seq<u8>)
    ensures
        emitted_text(lex(src)) == visible_text(src),
{
    lemma_cover_from(src, 0, 1, 0);
}

// ---------------------------------------------------------------------------
// How line numbers and per-line ordinals advance
// ---------------------------------------------------------------------------

/// Whether a token stream advances its positions correctly when scanning
/// continues on line `line` with `tok` tokens already emitted on it: the
/// next token either stays on that line carrying ordinal `tok`, or stands
/// on a later line carrying ordinal 0, and so on down the stream.
pub open spec fn ordinals_ok(ts: Seq<(TokenModel, int, int)>, line: int, tok: int) -> bool
    decreases ts.len(),
{
    ts.len() == 0 || {
        &&& (ts[0].1 == line && ts[0].2 == tok) || (ts[0].1 > line && ts[0].2 == 0)
        &&& ordinals_ok(ts.drop_first(), ts[0].1, ts[0].2 + 1)
    }
}

proof fn lemma_ordinals_weaken(ts: Seq<(TokenModel, int, int)>, l1: int, l2: int, tok: int)
    requires
        ordinals_ok(ts, l2, 0),
        l1 < l2,
    ensures
        ordinals_ok(ts, l1, tok),
{
}

proof fn lemma_ordinals_from(src: Seq<u8>, i: int, line: int, tok: int)
    ensures
        ordinals_ok(lex_from(src, i, line, tok), line, tok),
    decreases src.len() - i, 0int,
{
    if i < 0 || i >= src.len() {
    } else if src[i] == 10 {
        lemma_ordinals_from(src, i + 1, line + 1, 0);
        lemma_ordinals_weaken(lex_from(src, i + 1, line + 1, 0), line, line + 1, tok);
    } else if is_space_byte(src[i]) {
        lemma_ordinals_from(src, i + 1, line, tok);
    } else if src[i] == 47 && i + 1 < src.len() && src[i + 1] == 47 {
        lemma_ordinals_line_comment(src, i + 2, line, tok);
    } else if src[i] == 47 && i + 1 < src.len() && src[i + 1] == 42 {
        lemma_ordinals_block_comment(src, i + 2, line, tok);
    } else if is_word_byte(src[i]) {
        lemma_ordinals_word(src, i, i + 1, line, tok);
    } else {
        lemma_ordinals_from(src, i + 1, line, tok + 1);
        let x = (TokenModel::Symbol(char_of(src[i])), line, tok);
        let rest = lex_from(src, i + 1, line, tok + 1);
        assert((seq![x] + rest)[0] == x);
        assert((seq![x] + rest).drop_first() =~= rest);
    }
}

proof fn lemma_ordinals_word(src: Seq<u8>, start: int, j: int, line: int, tok: int)
    ensures
        ordinals_ok(lex_word(src, start, j, line, tok), line, tok),
    decreases src.len() - j, 1int,
{
    if 0 <= j && j < src.len() && is_word_byte(src[j]) {
        lemma_ordinals_word(src, start, j + 1, line, tok);
    } else {
        lemma_ordinals_from(src, j, line, tok + 1);
        let x = (span_token(src, start, j), line, tok);
        let rest = lex_from(src, j, line, tok + 1);
        assert((seq![x] + rest)[0] == x);
        assert((seq![x] + rest).drop_first() =~= rest);
    }
}

proof fn lemma_ordinals_line_comment(src: Seq<u8>, i: int, line: int, tok: int)
    ensures
        ordinals_ok(lex_line_comment(src, i, line), line, tok),
    decreases src.len() - i, 0int,
{
    if i < 0 || i >= src.len() {
    } else if src[i] == 10 {
        lemma_ordinals_from(src, i + 1, line + 1, 0);
        lemma_ordinals_weaken(lex_from(src, i + 1, line + 1, 0), line, line + 1, tok);
    } else {
        lemma_ordinals_line_comment(src, i + 1, line, tok);
    }
}

proof fn lemma_ordinals_block_comment(src: Seq<u8>, i: int, line: int, tok: int)
    ensures
        ordinals_ok(lex_block_comment(src, i, line, tok), line, tok),
    decreases src.len() - i, 0int,
{
    if i < 0 || i >= src.len() {
    } else if src[i] == 10 {
        lemma_ordinals_block_comment(src, i + 1, line + 1, 0);
        lemma_ordinals_weaken(lex_block_comment(src, i + 1, line + 1, 0), line, line + 1, tok);
    } else if src[i] == 42 && i + 1 < src.len() && src[i + 1] == 47 {
        lemma_ordinals_from(src, i + 2, line, tok);
    } else {
        lemma_ordinals_block_comment(src, i + 1, line, tok);
    }
}

proof fn lemma_ordinals_adjacent(ts: Seq<(TokenModel, int, int)>, line: int, tok: int, k: int)
    requires
        ordinals_ok(ts, line, tok),
        0 <= k,
        k + 1 < ts.len(),
    ensures
        ts[k].1 <= ts[k + 1].1,
        ts[k + 1].1 == ts[k].1 ==> ts[k + 1].2 == ts[k].2 + 1,
        ts[k + 1].1 != ts[k].1 ==> ts[k + 1].2 == 0,
    decreases k,
{
    if k == 0 {
        assert(ordinals_ok(ts.drop_first(), ts[0].1, ts[0].2 + 1));
        assert(ts.drop_first()[0] == ts[1]);
    } else {
        lemma_ordinals_adjacent(ts.drop_first(), ts[0].1, ts[0].2 + 1, k - 1);
        assert(ts.drop_first()[k - 1] == ts[k]);
        assert(ts.drop_first()[k] == ts[k + 1]);
    }
}

/// Down the token stream of any source text, line numbers never decrease,
/// the ordinal counts up by one from each token to the next while the line
/// number stands still, and it resets to 0 exactly when the line number
/// moves — whether the line changed at a bare newline, at a line comment's
/// terminating newline, or at a newline inside a block comment.
pub proof fn lemma_ordinal_resets_with_line(src: Seq<u8>, k: int)
    requires
        0 <= k,
        k + 1 < lex(src).len(),
    ensures
        lex(src)[k].1 <= lex(src)[k + 1].1,
        lex(src)[k + 1].1 == lex(src)[k].1 ==> lex(src)[k + 1].2 == lex(src)[k].2 + 1,
        lex(src)[k + 1].1 != lex(src)[k].1 ==> lex(src)[k + 1].2 == 0,
{
    lemma_ordinals_from(src, 0, 1, 0);
    lemma_ordinals_adjacent(lex(src), 1, 0, k);
}

/// The first token of any stream carries ordinal 0, on a line no earlier
/// than line 1.
pub proof fn lemma_first_token_ordinal(src: Seq<u8>)
    requires
        lex(src).len() > 0,
    ensures
        lex(src)[0].2 == 0,
        lex(src)[0].1 >= 1,
{
    lemma_ordinals_from(src, 0, 1, 0);
}

// ---------------------------------------------------------------------------
// The shape of every emitted lexeme
// ---------------------------------------------------------------------------

/// A token whose lexeme is non-empty and holds no newline: it sits wholly
/// within one source line.
pub open spec fn within_one_line(t: TokenModel) -> bool {
    &&& t.lexeme().len() > 0
    &&& forall|q: int| 0 <= q < t.lexeme().len() ==> t.lexeme()[q] != '\n'
}

pub open spec fn all_within_one_line(ts: Seq<(TokenModel, int, int)>) -> bool {
    forall|k: int| 0 <= k < ts.len() ==> within_one_line(#[trigger] ts[k].0)
}

proof fn lemma_all_within_cons(x: (TokenModel, int, int), s: Seq<(TokenModel, int, int)>)
    requires
        within_one_line(x.0),
        all_within_one_line(s),
    ensures
        all_within_one_line(seq![x] + s),
{
    assert forall|k: int| 0 <= k < (seq![x] + s).len() implies within_one_line(
        #[trigger] (seq![x] + s)[k].0,
    ) by {
        if k > 0 {
            assert((seq![x] + s)[k] == s[k - 1]);
        }
    }
}

proof fn lemma_spans_from(src: Seq<u8>, i: int, line: int, tok: int)
    ensures
        all_within_one_line(lex_from(src, i, line, tok)),
    decreases src.len() - i, 0int,
{
    if i < 0 || i >= src.len() {
    } else if src[i] == 10 {
        lemma_spans_from(src, i + 1, line + 1, 0);
    } else if is_space_byte(src[i]) {
        lemma_spans_from(src, i + 1, line, tok);
    } else if src[i] == 47 && i + 1 < src.len() && src[i + 1] == 47 {
        lemma_spans_line_comment(src, i + 2, line);
    } else if src[i] == 47 && i + 1 < src.len() && src[i + 1] == 42 {
        lemma_spans_block_comment(src, i + 2, line, tok);
    } else if is_word_byte(src[i]) {
        lemma_spans_word(src, i, i + 1, line, tok);
    } else {
        lemma_spans_from(src, i + 1, line, tok + 1);
        let x = (TokenModel::Symbol(char_of(src[i])), line, tok);
        assert(x.0.lexeme() == seq![char_of(src[i])]);
        assert(within_one_line(x.0));
        lemma_all_within_cons(x, lex_from(src, i + 1, line, tok + 1));
    }
}

proof fn lemma_spans_word(src: Seq<u8>, start: int, j: int, line: int, tok: int)
    requires
        0 <= start < j <= src.len(),
        forall|q: int| start <= q < j ==> is_word_byte(#[trigger] src[q]),
    ensures
        all_within_one_line(lex_word(src, start, j, line, tok)),
    decreases src.len() - j, 1int,
{
    if 0 <= j && j < src.len() && is_word_byte(src[j]) {
        lemma_spans_word(src, start, j + 1, line, tok);
    } else {
        lemma_spans_from(src, j, line, tok + 1);
        let x = (span_token(src, start, j), line, tok);
        assert(x.0.lexeme() == chars_of(src.subrange(start, j)));
        assert(within_one_line(x.0)) by {
            assert forall|q: int| 0 <= q < x.0.lexeme().len() implies x.0.lexeme()[q] != '\n' by {
                assert(is_word_byte(src[start + q]));
            }
        }
        lemma_all_within_cons(x, lex_from(src, j, line, tok + 1));
    }
}

proof fn lemma_spans_line_comment(src: Seq<u8>, i: int, line: int)
    ensures
        all_within_one_line(lex_line_comment(src, i, line)),
    decreases src.len() - i, 0int,
{
    if i < 0 || i >= src.len() {
    } else if src[i] == 10 {
        lemma_spans_from(src, i + 1, line + 1, 0);
    } else {
        lemma_spans_line_comment(src, i + 1, line);
    }
}

proof fn lemma_spans_block_comment(src: Seq<u8>, i: int, line: int, tok: int)
    ensures
        all_within_one_line(lex_block_comment(src, i, line, tok)),
    decreases src.len() - i, 0int,
{
    if i < 0 || i >= src.len() {
    } else if src[i] == 10 {
        lemma_spans_block_comment(src, i + 1, line + 1, 0);
    } else if src[i] == 42 && i + 1 < src.len() && src[i + 1] == 47 {
        lemma_spans_from(src, i + 2, line, tok);
    } else {
        lemma_spans_block_comment(src, i + 1, line, tok);
    }
}

/// Every token a source text yields has a non-empty lexeme that holds no
/// newline: identifiers and numeric literals never span a line break, and
/// no symbol carries one.
pub proof fn lemma_tokens_within_one_line(src: Seq<u8>)
    ensures
        all_within_one_line(lex(src)),
{
    lemma_spans_from(src, 0, 1, 0);
}

} // verus!
