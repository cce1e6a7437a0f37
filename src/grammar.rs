//! The lexical grammar as mathematics: what one dispatch on a byte does, and
//! the result of scanning a whole source, against which the scanner is proved.
use vstd::prelude::*;
use vstd::utf8::*;
use crate::error::{CodeLocation, LuxtError};
use crate::token::TokenView;
use crate::token_type::TokenKind;

verus! {

/// Bytes that the grammar names.
pub const NUL: u8 = 0x00;
pub const TAB: u8 = 0x09;
pub const NEWLINE: u8 = 0x0a;
pub const CARRIAGE_RETURN: u8 = 0x0d;
pub const SPACE: u8 = 0x20;
pub const BANG: u8 = 0x21;
pub const QUOTE: u8 = 0x22;
pub const LEFT_PAREN: u8 = 0x28;
pub const RIGHT_PAREN: u8 = 0x29;
pub const STAR: u8 = 0x2a;
pub const PLUS: u8 = 0x2b;
pub const COMMA: u8 = 0x2c;
pub const MINUS: u8 = 0x2d;
pub const DOT: u8 = 0x2e;
pub const SLASH: u8 = 0x2f;
pub const DIGIT_ZERO: u8 = 0x30;
pub const DIGIT_NINE: u8 = 0x39;
pub const SEMICOLON: u8 = 0x3b;
pub const LESS: u8 = 0x3c;
pub const EQUAL: u8 = 0x3d;
pub const GREATER: u8 = 0x3e;
pub const UPPER_A: u8 = 0x41;
pub const UPPER_Z: u8 = 0x5a;
pub const UNDERSCORE: u8 = 0x5f;
pub const LOWER_A: u8 = 0x61;
pub const LOWER_Z: u8 = 0x7a;
pub const LEFT_BRACE: u8 = 0x7b;
pub const RIGHT_BRACE: u8 = 0x7d;

pub open spec fn is_digit(b: u8) -> bool {
    DIGIT_ZERO <= b <= DIGIT_NINE
}

pub open spec fn is_alpha(b: u8) -> bool {
    (LOWER_A <= b <= LOWER_Z) || (UPPER_A <= b <= UPPER_Z) || b == UNDERSCORE
}

pub open spec fn is_alpha_numeric(b: u8) -> bool {
    is_alpha(b) || is_digit(b)
}

/// End of the maximal run of digits that starts at `i`.
pub open spec fn digits_end(src: Seq<u8>, i: int) -> int
    decreases src.len() - i,
{
    if 0 <= i < src.len() && is_digit(src[i]) {
        digits_end(src, i + 1)
    } else {
        i
    }
}

/// End of the maximal run of letters, digits and underscores that starts at `i`.
pub open spec fn word_end(src: Seq<u8>, i: int) -> int
    decreases src.len() - i,
{
    if 0 <= i < src.len() && is_alpha_numeric(src[i]) {
        word_end(src, i + 1)
    } else {
        i
    }
}

/// The first position at or after `i` that holds `stop`, or the end of input.
pub open spec fn find_or_end(src: Seq<u8>, i: int, stop: u8) -> int
    decreases src.len() - i,
{
    if 0 <= i < src.len() && src[i] != stop {
        find_or_end(src, i + 1, stop)
    } else {
        i
    }
}

/// End of a number literal whose first digit is at `start`: a run of digits,
/// then a dot and a second run only where a digit follows the dot.
pub open spec fn number_end(src: Seq<u8>, start: int) -> int {
    let d = digits_end(src, start);
    if d + 1 < src.len() && src[d] == DOT && is_digit(src[d + 1]) {
        digits_end(src, d + 1)
    } else {
        d
    }
}

/// Number of newline bytes in `src[i..j]`.
pub open spec fn newlines(src: Seq<u8>, i: int, j: int) -> nat
    decreases j - i,
{
    if j <= i {
        0
    } else {
        newlines(src, i, j - 1) + if src[j - 1] == NEWLINE { 1nat } else { 0nat }
    }
}

/// The line offset after consuming `src[i..j]` one byte at a time from offset
/// `off`: each byte counts one, and a newline restarts the count before it is
/// counted.
pub open spec fn column_after(src: Seq<u8>, i: int, j: int, off: int) -> int
    decreases j - i,
{
    if j <= i {
        off
    } else if src[j - 1] == NEWLINE {
        1
    } else {
        column_after(src, i, j - 1, off) + 1
    }
}

/// The keyword spelled by `word`, if any.
pub open spec fn keyword(word: Seq<u8>) -> Option<TokenKind> {
    if word == seq![0x61u8, 0x6e, 0x64] {
        Some(TokenKind::And)
    } else if word == seq![0x63u8, 0x6c, 0x61, 0x73, 0x73] {
        Some(TokenKind::Class)
    } else if word == seq![0x65u8, 0x6c, 0x73, 0x65] {
        Some(TokenKind::Else)
    } else if word == seq![0x66u8, 0x61, 0x6c, 0x73, 0x65] {
        Some(TokenKind::False)
    } else if word == seq![0x66u8, 0x6f, 0x72] {
        Some(TokenKind::For)
    } else if word == seq![0x66u8, 0x75, 0x6e] {
        Some(TokenKind::Fun)
    } else if word == seq![0x69u8, 0x66] {
        Some(TokenKind::If)
    } else if word == seq![0x6eu8, 0x69, 0x6c] {
        Some(TokenKind::Nil)
    } else if word == seq![0x6fu8, 0x72] {
        Some(TokenKind::Or)
    } else if word == seq![0x70u8, 0x72, 0x69, 0x6e, 0x74] {
        Some(TokenKind::Print)
    } else if word == seq![0x72u8, 0x65, 0x74, 0x75, 0x72, 0x6e] {
        Some(TokenKind::Return)
    } else if word == seq![0x73u8, 0x75, 0x70, 0x65, 0x72] {
        Some(TokenKind::Super)
    } else if word == seq![0x74u8, 0x68, 0x69, 0x73] {
        Some(TokenKind::This)
    } else if word == seq![0x74u8, 0x72, 0x75, 0x65] {
        Some(TokenKind::True)
    } else if word == seq![0x76u8, 0x61, 0x72] {
        Some(TokenKind::Var)
    } else if word == seq![0x77u8, 0x68, 0x69, 0x6c, 0x65] {
        Some(TokenKind::While)
    } else {
        None
    }
}

/// The kind of a token made of the single byte `c`, if `c` is one of the
/// one-character punctuation bytes.
pub open spec fn single_kind(c: u8) -> Option<TokenKind> {
    if c == LEFT_PAREN {
        Some(TokenKind::LeftParen)
    } else if c == RIGHT_PAREN {
        Some(TokenKind::RightParen)
    } else if c == LEFT_BRACE {
        Some(TokenKind::LeftBrace)
    } else if c == RIGHT_BRACE {
        Some(TokenKind::RightBrace)
    } else if c == COMMA {
        Some(TokenKind::Comma)
    } else if c == DOT {
        Some(TokenKind::Dot)
    } else if c == MINUS {
        Some(TokenKind::Minus)
    } else if c == PLUS {
        Some(TokenKind::Plus)
    } else if c == SEMICOLON {
        Some(TokenKind::SemiColon)
    } else if c == STAR {
        Some(TokenKind::Star)
    } else {
        None
    }
}

/// For `! = > <`: the kind alone, and the kind when `=` follows.
pub open spec fn operator_kinds(c: u8) -> Option<(TokenKind, TokenKind)> {
    if c == BANG {
        Some((TokenKind::Bang, TokenKind::BangEqual))
    } else if c == EQUAL {
        Some((TokenKind::Equal, TokenKind::EqualEqual))
    } else if c == GREATER {
        Some((TokenKind::Greater, TokenKind::GreaterEqual))
    } else if c == LESS {
        Some((TokenKind::Less, TokenKind::LessEqual))
    } else {
        None
    }
}

/// What one dispatch on the byte at `start` does.
pub enum Step {
    /// A token of `kind` over `src[start..end]`, on `line`; scanning resumes
    /// at `end`, on `line`, at line offset `offset`.
    Emit { kind: TokenKind, end: int, line: int, offset: int },
    /// Bytes up to `end` consumed, no token.
    Skip { end: int, line: int, offset: int },
    /// The scan fails.
    Fail { error: LuxtError },
}

pub open spec fn location(line: int, offset: int) -> CodeLocation {
    CodeLocation { line: line as usize, offset: offset as usize }
}

/// The text that `src[i..j]` encodes.
pub open spec fn text(src: Seq<u8>, i: int, j: int) -> Seq<char> {
    decode_utf8(src.subrange(i, j))
}

/// One dispatch on `src[start]`, with the cursor on `line` at line offset
/// `offset` before the byte.
pub open spec fn step(src: Seq<u8>, start: int, line: int, offset: int) -> Step {
    let c = src[start];
    let off1 = offset + 1;
    let next_is = |b: u8| start + 1 < src.len() && src[start + 1] == b;
    if single_kind(c) is Some {
        Step::Emit { kind: single_kind(c)->0, end: start + 1, line, offset: off1 }
    } else if operator_kinds(c) is Some {
        let (bare, widened) = operator_kinds(c)->0;
        if next_is(EQUAL) {
            Step::Emit { kind: widened, end: start + 2, line, offset: off1 }
        } else {
            Step::Emit { kind: bare, end: start + 1, line, offset: off1 }
        }
    } else if c == SLASH {
        if next_is(SLASH) {
            let e = find_or_end(src, start + 2, NEWLINE);
            Step::Skip { end: e, line, offset: column_after(src, start + 2, e, off1) }
        } else {
            Step::Emit { kind: TokenKind::Slash, end: start + 1, line, offset: off1 }
        }
    } else if c == SPACE || c == CARRIAGE_RETURN || c == TAB {
        Step::Skip { end: start + 1, line, offset: off1 }
    } else if c == NEWLINE {
        Step::Skip { end: start + 1, line: line + 1, offset: 0 }
    } else if c == QUOTE {
        let e = find_or_end(src, start + 1, QUOTE);
        let l = line + newlines(src, start + 1, e);
        if e >= src.len() {
            Step::Fail { error: LuxtError::UnterminatedString { location: location(l - 1, start) } }
        } else {
            Step::Emit {
                kind: TokenKind::Str(text(src, start + 1, e)),
                end: e + 1,
                line: l,
                offset: column_after(src, start + 1, e, off1) + 1,
            }
        }
    } else if is_digit(c) {
        let e = number_end(src, start);
        Step::Emit {
            kind: TokenKind::Number(text(src, start, e)),
            end: e,
            line,
            offset: column_after(src, start + 1, e, off1),
        }
    } else if is_alpha(c) {
        let e = word_end(src, start);
        Step::Emit {
            kind: match keyword(src.subrange(start, e)) {
                Some(k) => k,
                None => TokenKind::Identifier(text(src, start, e)),
            },
            end: e,
            line,
            offset: column_after(src, start + 1, e, off1),
        }
    } else {
        Step::Fail { error: LuxtError::InvalidCharacter { location: location(line, off1) } }
    }
}

/// Scanning `src` from `pos` with the cursor on `line` at `offset`, the tokens
/// already produced being `acc`: the whole token sequence, ended by `Eof`, or
/// the first error.
pub open spec fn scan_from(
    src: Seq<u8>,
    pos: int,
    line: int,
    offset: int,
    acc: Seq<TokenView>,
) -> Result<Seq<TokenView>, LuxtError>
    decreases src.len() - pos,
    via scan_from_decreases
{
    if 0 <= pos < src.len() {
        match step(src, pos, line, offset) {
            Step::Emit { kind, end, line: l, offset: o } => scan_from(
                src,
                end,
                l,
                o,
                acc.push(TokenView { kind, lexeme: text(src, pos, end), line: l as nat }),
            ),
            Step::Skip { end, line: l, offset: o } => scan_from(src, end, l, o, acc),
            Step::Fail { error } => Err(error),
        }
    } else {
        Ok(acc.push(eof_token(line)))
    }
}

pub open spec fn eof_token(line: int) -> TokenView {
    TokenView { kind: TokenKind::Eof, lexeme: Seq::<char>::empty(), line: line as nat }
}

/// The result of scanning the whole of `src`.
pub open spec fn scan(src: Seq<u8>) -> Result<Seq<TokenView>, LuxtError> {
    scan_from(src, 0, 1, 0, Seq::<TokenView>::empty())
}

#[via_fn]
proof fn scan_from_decreases(
    src: Seq<u8>,
    pos: int,
    line: int,
    offset: int,
    acc: Seq<TokenView>,
) {
    if 0 <= pos < src.len() {
        lemma_step_advances(src, pos, line, offset);
    }
}

pub proof fn lemma_digits_end_bounds(src: Seq<u8>, i: int)
    requires
        0 <= i <= src.len(),
    ensures
        i <= digits_end(src, i) <= src.len(),
    decreases src.len() - i,
{
    if i < src.len() && is_digit(src[i]) {
        lemma_digits_end_bounds(src, i + 1);
    }
}

pub proof fn lemma_word_end_bounds(src: Seq<u8>, i: int)
    requires
        0 <= i <= src.len(),
    ensures
        i <= word_end(src, i) <= src.len(),
    decreases src.len() - i,
{
    if i < src.len() && is_alpha_numeric(src[i]) {
        lemma_word_end_bounds(src, i + 1);
    }
}

pub proof fn lemma_find_or_end_bounds(src: Seq<u8>, i: int, stop: u8)
    requires
        0 <= i <= src.len(),
    ensures
        i <= find_or_end(src, i, stop) <= src.len(),
        find_or_end(src, i, stop) < src.len() ==> src[find_or_end(src, i, stop)] == stop,
    decreases src.len() - i,
{
    if i < src.len() && src[i] != stop {
        lemma_find_or_end_bounds(src, i + 1, stop);
    }
}

pub proof fn lemma_number_end_bounds(src: Seq<u8>, start: int)
    requires
        0 <= start < src.len(),
        is_digit(src[start]),
    ensures
        start < number_end(src, start) <= src.len(),
{
    lemma_digits_end_bounds(src, start + 1);
    let d = digits_end(src, start);
    assert(d == digits_end(src, start + 1));
    if d + 1 < src.len() && src[d] == DOT && is_digit(src[d + 1]) {
        lemma_digits_end_bounds(src, d + 1);
    }
}

/// Every dispatch that does not fail consumes at least one byte, and never
/// runs past the end of input.
pub proof fn lemma_step_advances(src: Seq<u8>, start: int, line: int, offset: int)
    requires
        0 <= start < src.len(),
    ensures
        match step(src, start, line, offset) {
            Step::Emit { end, .. } => start < end <= src.len(),
            Step::Skip { end, .. } => start < end <= src.len(),
            Step::Fail { .. } => true,
        },
{
    let c = src[start];
    if start + 2 <= src.len() {
        lemma_find_or_end_bounds(src, start + 2, NEWLINE);
    }
    lemma_find_or_end_bounds(src, start + 1, QUOTE);
    if is_digit(c) {
        lemma_number_end_bounds(src, start);
    }
    lemma_word_end_bounds(src, start + 1);
}

} // verus!
