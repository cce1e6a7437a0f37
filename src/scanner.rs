use vstd::prelude::*;
use vstd::utf8::*;
use crate::error::{CodeLocation, LuxtError};
use crate::grammar::{
    column_after, digits_end, eof_token, find_or_end, is_alpha, is_alpha_numeric, is_digit, keyword,
    lemma_digits_end_bounds, lemma_find_or_end_bounds, lemma_number_end_bounds, lemma_step_advances,
    lemma_word_end_bounds, location, newlines, number_end, scan, scan_from, step, text, word_end, Step,
};
use crate::grammar::{
    BANG, CARRIAGE_RETURN, COMMA, DIGIT_NINE, DIGIT_ZERO, DOT, EQUAL, GREATER, LEFT_BRACE, LEFT_PAREN,
    LESS, LOWER_A, LOWER_Z, MINUS, NEWLINE, NUL, PLUS, QUOTE, RIGHT_BRACE, RIGHT_PAREN, SEMICOLON, SLASH,
    SPACE, STAR, TAB, UNDERSCORE, UPPER_A, UPPER_Z,
};
use crate::text::{lemma_ascii_is_boundary, lemma_boundary_after_ascii, lemma_valid_between_boundaries, text_of};
use crate::token::{Token, TokenView};
use crate::token_type::{TokenKind, TokenType};

verus! {

/// Whether `word` is exactly the bytes of `expected`.
fn spells(word: &[u8], expected: &[u8]) -> (r: bool)
    ensures
        r == (word@ == expected@),
{
    if word.len() != expected.len() {
        return false;
    }
    let mut i: usize = 0;
    while i < word.len()
        invariant
            word@.len() == expected@.len(),
            i <= word@.len(),
            word@.subrange(0, i as int) == expected@.subrange(0, i as int),
        decreases word@.len() - i,
    {
        if word[i] != expected[i] {
            assert(word@[i as int] != expected@[i as int]);
            return false;
        }
        assert(word@.subrange(0, i + 1) =~= expected@.subrange(0, i + 1));
        i += 1;
    }
    assert(word@ =~= word@.subrange(0, i as int));
    assert(expected@ =~= expected@.subrange(0, i as int));
    true
}

/// A one-shot scanner over a UTF-8 source buffer.
pub struct Scanner<'a> {
    source: &'a [u8],
    tokens: Vec<Token>,
    start: usize,
    current: usize,
    line: usize,
    line_offset: usize,
}

impl<'a> Scanner<'a> {
    /// The source bytes being scanned.
    pub closed spec fn src(&self) -> Seq<u8> {
        self.source@
    }

    /// The scan position.
    pub closed spec fn position(&self) -> int {
        self.current as int
    }

    /// The tokens produced so far.
    pub closed spec fn produced(&self) -> Seq<TokenView> {
        self.tokens@.map_values(|t: Token| t@)
    }

    /// The cursor invariant.
    pub closed spec fn wf(&self) -> bool {
        &&& self.start <= self.current <= self.source@.len()
        &&& 1 <= self.line <= self.current + 1
        &&& self.line_offset <= self.current
        &&& self.source@.len() <= isize::MAX
        &&& valid_utf8(self.source@)
    }

    /// Nothing has been scanned yet.
    pub closed spec fn is_fresh(&self) -> bool {
        &&& self.start == 0
        &&& self.current == 0
        &&& self.line == 1
        &&& self.line_offset == 0
        &&& self.tokens@.len() == 0
    }

    pub fn new(source: &'a [u8]) -> (r: Scanner<'a>)
        requires
            valid_utf8(source@),
            source@.len() <= isize::MAX,
        ensures
            r.wf(),
            r.is_fresh(),
            r.src() == source@,
    {
        Scanner { source, tokens: Vec::new(), start: 0, current: 0, line: 1, line_offset: 0 }
    }

    pub fn is_at_end(&self) -> (r: bool)
        ensures
            r == (self.position() >= self.src().len()),
    {
        self.current >= self.source.len()
    }

    fn advance(&mut self) -> (r: u8)
        requires
            old(self).current < old(self).source@.len() <= isize::MAX,
            old(self).line_offset <= old(self).current,
        ensures
            r == old(self).source@[old(self).current as int],
            final(self).current == old(self).current + 1,
            final(self).line_offset == old(self).line_offset + 1,
            final(self).source == old(self).source,
            final(self).tokens == old(self).tokens,
            final(self).start == old(self).start,
            final(self).line == old(self).line,
    {
        self.current += 1;
        self.line_offset += 1;
        self.source[self.current - 1]
    }

    fn match_next(&mut self, expected: u8) -> (r: bool)
        requires
            old(self).current <= old(self).source@.len() <= isize::MAX,
        ensures
            r == (old(self).current < old(self).source@.len()
                && old(self).source@[old(self).current as int] == expected),
            final(self).current == if r { old(self).current + 1 } else { old(self).current as int },
            final(self).line_offset == old(self).line_offset,
            final(self).source == old(self).source,
            final(self).tokens == old(self).tokens,
            final(self).start == old(self).start,
            final(self).line == old(self).line,
    {
        if self.is_at_end() {
            return false;
        }
        let next_char = self.source[self.current];
        if next_char != expected {
            return false;
        }
        self.current += 1;
        true
    }

    /// The byte under the cursor, or NUL past the end.
    fn peek(&self) -> (r: u8)
        ensures
            r == if self.current < self.source@.len() {
                self.source@[self.current as int]
            } else {
                NUL
            },
    {
        if self.is_at_end() {
            NUL
        } else {
            self.source[self.current]
        }
    }

    /// The byte after the cursor, or NUL past the end.
    fn peek_next(&self) -> (r: u8)
        requires
            self.current < self.source@.len() <= isize::MAX,
        ensures
            r == if self.current + 1 < self.source@.len() {
                self.source@[self.current + 1]
            } else {
                NUL
            },
    {
        if self.current + 1 >= self.source.len() {
            NUL
        } else {
            self.source[self.current + 1]
        }
    }

    fn is_digit(&self, c: u8) -> (r: bool)
        ensures
            r == is_digit(c),
    {
        DIGIT_ZERO <= c && c <= DIGIT_NINE
    }

    fn is_alpha(&self, c: u8) -> (r: bool)
        ensures
            r == is_alpha(c),
    {
        LOWER_A <= c && c <= LOWER_Z || UPPER_A <= c && c <= UPPER_Z || c == UNDERSCORE
    }

    fn is_alpha_numeric(&self, c: u8) -> (r: bool)
        ensures
            r == is_alpha_numeric(c),
    {
        self.is_alpha(c) || self.is_digit(c)
    }

    /// The text of `source[start..current]`.
    fn current_text(&self) -> (r: String)
        requires
            self.start < self.current <= self.source@.len(),
            valid_utf8(self.source@),
            self.source@[self.start as int] <= 0x7f,
            self.source@[self.current - 1] <= 0x7f,
        ensures
            r@ == text(self.source@, self.start as int, self.current as int),
    {
        proof {
            lemma_ascii_is_boundary(self.source@, self.start as int);
            lemma_boundary_after_ascii(self.source@, self.current - 1);
            lemma_valid_between_boundaries(self.source@, self.start as int, self.current as int);
        }
        text_of(&self.source[self.start..self.current]).unwrap()
    }

    /// Appends a token of `token_type` whose lexeme is `source[start..current]`.
    fn add_token(&mut self, token_type: TokenType)
        requires
            old(self).start < old(self).current <= old(self).source@.len(),
            valid_utf8(old(self).source@),
            old(self).source@[old(self).start as int] <= 0x7f,
            old(self).source@[old(self).current - 1] <= 0x7f,
        ensures
            final(self).produced() == old(self).produced().push(
                TokenView {
                    kind: token_type@,
                    lexeme: text(old(self).source@, old(self).start as int, old(self).current as int),
                    line: old(self).line as nat,
                },
            ),
            final(self).source == old(self).source,
            final(self).start == old(self).start,
            final(self).current == old(self).current,
            final(self).line == old(self).line,
            final(self).line_offset == old(self).line_offset,
    {
        let lexeme = self.current_text();
        let ghost before = self.tokens@;
        self.tokens.push(Token::new(token_type, lexeme, self.line));
        proof {
            assert(self.tokens@.map_values(|t: Token| t@) =~= before.map_values(|t: Token| t@).push(
                self.tokens@.last()@));
        }
    }

    /// The keyword that `lexeme` spells, or else an identifier named by it.
    fn get_lexeme_token(&self, lexeme: &[u8]) -> (r: TokenType)
        requires
            valid_utf8(lexeme@),
        ensures
            r@ == match keyword(lexeme@) {
                Some(k) => k,
                None => TokenKind::Identifier(decode_utf8(lexeme@)),
            },
    {
        if spells(lexeme, &[0x61u8, 0x6e, 0x64]) {
            // and
            TokenType::And
        } else if spells(lexeme, &[0x63u8, 0x6c, 0x61, 0x73, 0x73]) {
            // class
            TokenType::Class
        } else if spells(lexeme, &[0x65u8, 0x6c, 0x73, 0x65]) {
            // else
            TokenType::Else
        } else if spells(lexeme, &[0x66u8, 0x61, 0x6c, 0x73, 0x65]) {
            // false
            TokenType::False
        } else if spells(lexeme, &[0x66u8, 0x6f, 0x72]) {
            // for
            TokenType::For
        } else if spells(lexeme, &[0x66u8, 0x75, 0x6e]) {
            // fun
            TokenType::Fun
        } else if spells(lexeme, &[0x69u8, 0x66]) {
            // if
            TokenType::If
        } else if spells(lexeme, &[0x6eu8, 0x69, 0x6c]) {
            // nil
            TokenType::Nil
        } else if spells(lexeme, &[0x6fu8, 0x72]) {
            // or
            TokenType::Or
        } else if spells(lexeme, &[0x70u8, 0x72, 0x69, 0x6e, 0x74]) {
            // print
            TokenType::Print
        } else if spells(lexeme, &[0x72u8, 0x65, 0x74, 0x75, 0x72, 0x6e]) {
            // return
            TokenType::Return
        } else if spells(lexeme, &[0x73u8, 0x75, 0x70, 0x65, 0x72]) {
            // super
            TokenType::Super
        } else if spells(lexeme, &[0x74u8, 0x68, 0x69, 0x73]) {
            // this
            TokenType::This
        } else if spells(lexeme, &[0x74u8, 0x72, 0x75, 0x65]) {
            // true
            TokenType::True
        } else if spells(lexeme, &[0x76u8, 0x61, 0x72]) {
            // var
            TokenType::Var
        } else if spells(lexeme, &[0x77u8, 0x68, 0x69, 0x6c, 0x65]) {
            // while
            TokenType::While
        } else {
            TokenType::Identifier(text_of(lexeme).unwrap())
        }
    }

    /// Scans the rest of a string literal whose opening quote is at `start`.
    fn string(&mut self) -> (r: Result<(), LuxtError>)
        requires
            old(self).start + 1 == old(self).current <= old(self).source@.len() <= isize::MAX,
            valid_utf8(old(self).source@),
            old(self).source@[old(self).start as int] == QUOTE,
            1 <= old(self).line <= old(self).current,
            old(self).line_offset <= old(self).current,
        ensures
            final(self).source == old(self).source,
            final(self).start == old(self).start,
            ({
                let src = old(self).source@;
                let start = old(self).start as int;
                let e = find_or_end(src, start + 1, QUOTE);
                let l = old(self).line + newlines(src, start + 1, e);
                if e >= src.len() {
                    r == Err::<(), LuxtError>(
                        LuxtError::UnterminatedString { location: location(l - 1, start) },
                    )
                } else {
                    &&& r is Ok
                    &&& final(self).current == e + 1
                    &&& final(self).line == l
                    &&& final(self).line_offset == column_after(src, start + 1, e, old(self).line_offset as int) + 1
                    &&& final(self).produced() == old(self).produced().push(
                        TokenView { kind: TokenKind::Str(text(src, start + 1, e)), lexeme: text(src, start, e + 1), line: l as nat },
                    )
                    &&& final(self).source == old(self).source
                    &&& final(self).start == old(self).start
                    &&& 1 <= final(self).line <= final(self).current
                    &&& final(self).line_offset <= final(self).current
                }
            }),
    {
        let ghost src = self.source@;
        let ghost start = self.start as int;
        let ghost e = find_or_end(src, start + 1, QUOTE);
        let ghost line0 = self.line as int;
        let ghost off0 = self.line_offset as int;
        proof {
            lemma_find_or_end_bounds(src, start + 1, QUOTE);
        }
        while self.peek() != QUOTE && !self.is_at_end()
            invariant
                self.source@ == src,
                self.start == start,
                self.tokens == old(self).tokens,
                src.len() <= isize::MAX,
                e <= src.len(),
                start + 1 <= self.current <= e,
                find_or_end(src, self.current as int, QUOTE) == e,
                self.line == line0 + newlines(src, start + 1, self.current as int),
                self.line_offset == column_after(src, start + 1, self.current as int, off0),
                1 <= self.line <= self.current,
                self.line_offset <= self.current,
            decreases src.len() - self.current,
        {
            if self.peek() == NEWLINE {
                self.line += 1;
                self.line_offset = 0;
            }
            proof {
                lemma_find_or_end_bounds(src, self.current + 1, QUOTE);
            }
            self.advance();
        }
        if self.is_at_end() {
            return Err(LuxtError::UnterminatedString { location: CodeLocation::new(self.line - 1, self.start) });
        }
        self.advance();
        proof {
            lemma_boundary_after_ascii(src, start);
            lemma_ascii_is_boundary(src, e);
            lemma_valid_between_boundaries(src, start + 1, e);
        }
        let value = text_of(&self.source[self.start + 1..self.current - 1]).unwrap();
        self.add_token(TokenType::String(value));
        Ok(())
    }

    /// Scans the rest of a number literal whose first digit is at `start`.
    fn number(&mut self)
        requires
            old(self).start + 1 == old(self).current <= old(self).source@.len() <= isize::MAX,
            valid_utf8(old(self).source@),
            is_digit(old(self).source@[old(self).start as int]),
            old(self).line_offset <= old(self).current,
        ensures
            ({
                let src = old(self).source@;
                let start = old(self).start as int;
                let e = number_end(src, start);
                &&& final(self).current == e
                &&& final(self).line == old(self).line
                &&& final(self).line_offset == column_after(src, start + 1, e, old(self).line_offset as int)
                &&& final(self).produced() == old(self).produced().push(
                    TokenView { kind: TokenKind::Number(text(src, start, e)), lexeme: text(src, start, e), line: old(self).line as nat },
                )
                &&& final(self).source == old(self).source
                &&& final(self).start == old(self).start
                &&& final(self).line_offset <= final(self).current
            }),
    {
        let ghost src = self.source@;
        let ghost start = self.start as int;
        let ghost d = digits_end(src, start);
        let ghost e = number_end(src, start);
        let ghost off0 = self.line_offset as int;
        proof {
            lemma_digits_end_bounds(src, start + 1);
            lemma_number_end_bounds(src, start);
        }
        while self.is_digit(self.peek())
            invariant
                self.source@ == src,
                self.start == start,
                self.tokens == old(self).tokens,
                self.line == old(self).line,
                src.len() <= isize::MAX,
                d <= src.len(),
                start + 1 <= self.current <= d,
                digits_end(src, self.current as int) == d,
                self.line_offset == column_after(src, start + 1, self.current as int, off0),
                self.line_offset <= self.current,
                src[self.current - 1] <= 0x7f,
            decreases src.len() - self.current,
        {
            proof {
                lemma_digits_end_bounds(src, self.current + 1);
            }
            self.advance();
        }
        if self.peek() == DOT && self.is_digit(self.peek_next()) {
            self.advance();
            proof {
                lemma_digits_end_bounds(src, self.current as int);
            }
        }
        while self.is_digit(self.peek())
            invariant
                self.source@ == src,
                self.start == start,
                self.tokens == old(self).tokens,
                self.line == old(self).line,
                src.len() <= isize::MAX,
                e <= src.len(),
                start + 1 <= self.current <= e,
                digits_end(src, self.current as int) == e,
                self.line_offset == column_after(src, start + 1, self.current as int, off0),
                self.line_offset <= self.current,
                src[self.current - 1] <= 0x7f,
            decreases src.len() - self.current,
        {
            proof {
                lemma_digits_end_bounds(src, self.current + 1);
            }
            self.advance();
        }
        let numeral = self.current_text();
        self.add_token(TokenType::Number(numeral));
    }

    /// Scans the rest of an identifier or keyword whose first byte is at `start`.
    fn identifier(&mut self)
        requires
            old(self).start + 1 == old(self).current <= old(self).source@.len() <= isize::MAX,
            valid_utf8(old(self).source@),
            is_alpha(old(self).source@[old(self).start as int]),
            old(self).line_offset <= old(self).current,
        ensures
            ({
                let src = old(self).source@;
                let start = old(self).start as int;
                let e = word_end(src, start);
                &&& final(self).current == e
                &&& final(self).line == old(self).line
                &&& final(self).line_offset == column_after(src, start + 1, e, old(self).line_offset as int)
                &&& final(self).produced() == old(self).produced().push(
                    TokenView {
                        kind: match keyword(src.subrange(start, e)) {
                            Some(k) => k,
                            None => TokenKind::Identifier(text(src, start, e)),
                        },
                        lexeme: text(src, start, e),
                        line: old(self).line as nat,
                    },
                )
                &&& final(self).source == old(self).source
                &&& final(self).start == old(self).start
                &&& final(self).line_offset <= final(self).current
            }),
    {
        let ghost src = self.source@;
        let ghost start = self.start as int;
        let ghost e = word_end(src, start);
        let ghost off0 = self.line_offset as int;
        proof {
            lemma_word_end_bounds(src, start + 1);
        }
        while self.is_alpha_numeric(self.peek())
            invariant
                self.source@ == src,
                self.start == start,
                self.tokens == old(self).tokens,
                self.line == old(self).line,
                src.len() <= isize::MAX,
                e <= src.len(),
                start + 1 <= self.current <= e,
                word_end(src, self.current as int) == e,
                self.line_offset == column_after(src, start + 1, self.current as int, off0),
                self.line_offset <= self.current,
                src[self.current - 1] <= 0x7f,
            decreases src.len() - self.current,
        {
            proof {
                lemma_word_end_bounds(src, self.current + 1);
            }
            self.advance();
        }
        proof {
            lemma_ascii_is_boundary(src, start);
            lemma_boundary_after_ascii(src, self.current - 1);
            lemma_valid_between_boundaries(src, start, self.current as int);
        }
        let lexeme_token = self.get_lexeme_token(&self.source[self.start..self.current]);
        self.add_token(lexeme_token);
    }

    /// Dispatches on the byte at `current`: emits at most one token, skips
    /// blanks and comments, or fails.
    fn scan_token(&mut self) -> (r: Result<(), LuxtError>)
        requires
            old(self).start == old(self).current < old(self).source@.len() <= isize::MAX,
            valid_utf8(old(self).source@),
            1 <= old(self).line <= old(self).current + 1,
            old(self).line_offset <= old(self).current,
        ensures
            final(self).source == old(self).source,
            final(self).start == old(self).start,
            match step(old(self).source@, old(self).current as int, old(self).line as int, old(self).line_offset as int) {
                Step::Emit { kind, end, line, offset } => {
                    &&& r is Ok
                    &&& final(self).current == end
                    &&& final(self).line == line
                    &&& final(self).line_offset == offset
                    &&& final(self).produced() == old(self).produced().push(
                        TokenView { kind, lexeme: text(old(self).source@, old(self).current as int, end), line: line as nat },
                    )
                    &&& 1 <= final(self).line <= final(self).current + 1
                    &&& final(self).line_offset <= final(self).current
                },
                Step::Skip { end, line, offset } => {
                    &&& r is Ok
                    &&& final(self).current == end
                    &&& final(self).line == line
                    &&& final(self).line_offset == offset
                    &&& final(self).produced() == old(self).produced()
                    &&& 1 <= final(self).line <= final(self).current + 1
                    &&& final(self).line_offset <= final(self).current
                },
                Step::Fail { error } => r == Err::<(), LuxtError>(error),
            },
    {
        let ghost src = self.source@;
        let ghost start = self.current as int;
        let ghost line0 = self.line as int;
        let ghost off0 = self.line_offset as int;
        proof {
            lemma_step_advances(src, start, line0, off0);
        }
        let c: u8 = self.advance();
        if c == LEFT_PAREN {
            self.add_token(TokenType::LeftParen);
        } else if c == RIGHT_PAREN {
            self.add_token(TokenType::RightParen);
        } else if c == LEFT_BRACE {
            self.add_token(TokenType::LeftBrace);
        } else if c == RIGHT_BRACE {
            self.add_token(TokenType::RightBrace);
        } else if c == COMMA {
            self.add_token(TokenType::Comma);
        } else if c == DOT {
            self.add_token(TokenType::Dot);
        } else if c == MINUS {
            self.add_token(TokenType::Minus);
        } else if c == PLUS {
            self.add_token(TokenType::Plus);
        } else if c == SEMICOLON {
            self.add_token(TokenType::SemiColon);
        } else if c == STAR {
            self.add_token(TokenType::Star);
        } else if c == BANG {
            let t = if self.match_next(EQUAL) {
                TokenType::BangEqual
            } else {
                TokenType::Bang
            };
            self.add_token(t);
        } else if c == EQUAL {
            let t = if self.match_next(EQUAL) {
                TokenType::EqualEqual
            } else {
                TokenType::Equal
            };
            self.add_token(t);
        } else if c == GREATER {
            let t = if self.match_next(EQUAL) {
                TokenType::GreaterEqual
            } else {
                TokenType::Greater
            };
            self.add_token(t);
        } else if c == LESS {
            let t = if self.match_next(EQUAL) {
                TokenType::LessEqual
            } else {
                TokenType::Less
            };
            self.add_token(t);
        } else if c == SLASH {
            if self.match_next(SLASH) {
                let ghost e = find_or_end(src, start + 2, NEWLINE);
                proof {
                    lemma_find_or_end_bounds(src, start + 2, NEWLINE);
                }
                while self.peek() != NEWLINE && !self.is_at_end()
                    invariant
                        self.source@ == src,
                        self.start == start,
                        self.tokens == old(self).tokens,
                        self.line == line0,
                        1 <= line0 <= start + 1,
                        src.len() <= isize::MAX,
                        e <= src.len(),
                        start + 2 <= self.current <= e,
                        find_or_end(src, self.current as int, NEWLINE) == e,
                        self.line_offset == column_after(src, start + 2, self.current as int, off0 + 1),
                        self.line_offset <= self.current,
                    decreases src.len() - self.current,
                {
                    proof {
                        lemma_find_or_end_bounds(src, self.current + 1, NEWLINE);
                    }
                    self.advance();
                }
            } else {
                self.add_token(TokenType::Slash);
            }
        } else if c == SPACE || c == CARRIAGE_RETURN || c == TAB {
            // blanks produce no token
        } else if c == NEWLINE {
            self.line += 1;
            self.line_offset = 0;
        } else if c == QUOTE {
            match self.string() {
                Ok(()) => {},
                Err(e) => {
                    return Err(e);
                },
            }
        } else if self.is_digit(c) {
            self.number();
        } else if self.is_alpha(c) {
            self.identifier();
        } else {
            return Err(
                LuxtError::InvalidCharacter { location: CodeLocation::new(self.line, self.line_offset) },
            );
        }
        Ok(())
    }

    /// Scans the whole source: the tokens, ended by one `Eof` token, or the
    /// first error met.
    pub fn scan_tokens(&mut self) -> (r: Result<&Vec<Token>, LuxtError>)
        requires
            old(self).wf(),
            old(self).is_fresh(),
        ensures
            match scan(old(self).src()) {
                Ok(ts) => r matches Ok(v) && v@.map_values(|t: Token| t@) == ts,
                Err(e) => r == Err::<&Vec<Token>, LuxtError>(e),
            },
    {
        let ghost src = self.source@;
        assert(self.produced() =~= Seq::<TokenView>::empty());
        while !self.is_at_end()
            invariant
                self.source@ == src,
                src == old(self).src(),
                self.start <= self.current <= src.len(),
                src.len() <= isize::MAX,
                valid_utf8(src),
                1 <= self.line <= self.current + 1,
                self.line_offset <= self.current,
                scan_from(src, self.current as int, self.line as int, self.line_offset as int, self.produced())
                    == scan(src),
            decreases src.len() - self.current,
        {
            self.start = self.current;
            let ghost before = *self;
            proof {
                lemma_step_advances(src, self.current as int, self.line as int, self.line_offset as int);
            }
            match self.scan_token() {
                Ok(()) => {},
                Err(e) => {
                    assert(scan_from(src, before.current as int, before.line as int, before.line_offset as int, before.produced())
                        == Err::<Seq<TokenView>, LuxtError>(e));
                    return Err(e);
                },
            }
        }
        let ghost before = self.tokens@;
        self.tokens.push(Token::eof(self.line));
        proof {
            assert(self.tokens@.map_values(|t: Token| t@) =~= before.map_values(|t: Token| t@).push(
                eof_token(self.line as int)));
        }
        Ok(&self.tokens)
    }
}

} // verus!
