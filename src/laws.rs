//! Laws of scanning, proved over the grammar that the scanner is proved to
//! follow.
use vstd::prelude::*;
use vstd::utf8::decode_utf8;
use crate::error::LuxtError;
use crate::grammar::{
    eof_token, find_or_end, operator_kinds, single_kind, text, lemma_find_or_end_bounds, newlines, scan, scan_from, step, Step, BANG,
    CARRIAGE_RETURN, EQUAL, NEWLINE, SLASH, SPACE, TAB,
};
use crate::token::TokenView;
use crate::token_type::TokenKind;

verus! {

/// `src[i..]` is made only of blanks, newlines and `//` comments; `in_comment`
/// says whether position `i` lies inside a comment.
pub open spec fn is_blank_from(src: Seq<u8>, i: int, in_comment: bool) -> bool
    decreases src.len() - i,
{
    if !(0 <= i < src.len()) {
        true
    } else if in_comment {
        if src[i] == NEWLINE {
            is_blank_from(src, i + 1, false)
        } else {
            is_blank_from(src, i + 1, true)
        }
    } else if src[i] == SPACE || src[i] == CARRIAGE_RETURN || src[i] == TAB || src[i] == NEWLINE {
        is_blank_from(src, i + 1, false)
    } else if src[i] == SLASH && i + 1 < src.len() && src[i + 1] == SLASH {
        is_blank_from(src, i + 2, true)
    } else {
        false
    }
}

/// The whole of `src` is blanks, newlines and comments.
pub open spec fn is_blank(src: Seq<u8>) -> bool {
    is_blank_from(src, 0, false)
}

proof fn lemma_newlines_split(src: Seq<u8>, i: int, j: int, k: int)
    requires
        i <= j <= k,
    ensures
        newlines(src, i, k) == newlines(src, i, j) + newlines(src, j, k),
    decreases k - j,
{
    if j < k {
        lemma_newlines_split(src, i, j, k - 1);
    }
}

proof fn lemma_no_newline_in_comment(src: Seq<u8>, j: int, k: int)
    requires
        0 <= j <= k <= find_or_end(src, j, NEWLINE),
        find_or_end(src, j, NEWLINE) <= src.len(),
    ensures
        newlines(src, j, k) == 0,
    decreases k - j,
{
    if j < k {
        assert(src[j] != NEWLINE);
        lemma_no_newline_in_comment(src, j + 1, k);
        lemma_newlines_split(src, j, j + 1, k);
        assert(newlines(src, j, j) == 0);
        assert(newlines(src, j, j + 1) == 0);
    }
}

proof fn lemma_comment_ends_blank(src: Seq<u8>, j: int)
    requires
        0 <= j <= src.len(),
        is_blank_from(src, j, true),
    ensures
        is_blank_from(src, find_or_end(src, j, NEWLINE), false),
    decreases src.len() - j,
{
    if j < src.len() && src[j] != NEWLINE {
        lemma_comment_ends_blank(src, j + 1);
    }
}

proof fn lemma_blank_scan(src: Seq<u8>, i: int, line: int, offset: int, acc: Seq<TokenView>)
    requires
        0 <= i <= src.len(),
        is_blank_from(src, i, false),
    ensures
        scan_from(src, i, line, offset, acc)
            == Ok::<Seq<TokenView>, LuxtError>(acc.push(eof_token(line + newlines(src, i, src.len() as int)))),
    decreases src.len() - i,
{
    if i < src.len() {
        let c = src[i];
        lemma_newlines_split(src, i, i + 1, src.len() as int);
        assert(newlines(src, i, i) == 0);
        assert(newlines(src, i, i + 1) == if c == NEWLINE { 1nat } else { 0nat });
        if c == SLASH {
            assert(newlines(src, i, i + 2) == 0) by {
                assert(newlines(src, i, i + 1) == 0);
            }
            let e = find_or_end(src, i + 2, NEWLINE);
            lemma_find_or_end_bounds(src, i + 2, NEWLINE);
            lemma_comment_ends_blank(src, i + 2);
            lemma_no_newline_in_comment(src, i + 2, e);
            lemma_newlines_split(src, i, i + 2, e);
            lemma_newlines_split(src, i, e, src.len() as int);
            match step(src, i, line, offset) {
                Step::Skip { end, line: l, offset: o } => {
                    lemma_blank_scan(src, end, l, o, acc);
                },
                _ => {},
            }
        } else {
            match step(src, i, line, offset) {
                Step::Skip { end, line: l, offset: o } => {
                    lemma_blank_scan(src, end, l, o, acc);
                },
                _ => {},
            }
        }
    }
}

/// Input made only of blanks, newlines and comments scans to a single `Eof`
/// token, on the line one past the number of newlines in it.
pub proof fn lemma_blank_input_scans_to_eof(src: Seq<u8>)
    requires
        is_blank(src),
    ensures
        scan(src) == Ok::<Seq<TokenView>, LuxtError>(seq![eof_token(1 + newlines(src, 0, src.len() as int) as int)]),
{
    lemma_blank_scan(src, 0, 1, 0, Seq::<TokenView>::empty());
    assert(Seq::<TokenView>::empty().push(eof_token(1 + newlines(src, 0, src.len() as int) as int))
        =~= seq![eof_token(1 + newlines(src, 0, src.len() as int) as int)]);
}

/// Longest match: wherever `!=` starts a token it is scanned as one
/// `BangEqual` token, never as `Bang` followed by `Equal`.
pub proof fn lemma_bang_equal_is_one_token(
    src: Seq<u8>,
    pos: int,
    line: int,
    offset: int,
    acc: Seq<TokenView>,
)
    requires
        0 <= pos,
        pos + 1 < src.len(),
        src[pos] == BANG,
        src[pos + 1] == EQUAL,
    ensures
        scan_from(src, pos, line, offset, acc) == scan_from(
            src,
            pos + 2,
            line,
            offset + 1,
            acc.push(TokenView { kind: TokenKind::BangEqual, lexeme: text(src, pos, pos + 2), line: line as nat }),
        ),
{
}

/// Scanning is a function of the input bytes alone: byte-identical inputs
/// give identical results.
pub proof fn lemma_scan_is_deterministic(a: Seq<u8>, b: Seq<u8>)
    requires
        a == b,
    ensures
        scan(a) == scan(b),
{
}

/// The kind of the single token that the whole of `src` spells when `src` is
/// one of the punctuation or operator texts.
pub open spec fn operator_text_kind(src: Seq<u8>) -> Option<TokenKind> {
    if src.len() == 1 && single_kind(src[0]) is Some {
        single_kind(src[0])
    } else if src.len() == 1 && operator_kinds(src[0]) is Some {
        match operator_kinds(src[0]) {
            Some((bare, _)) => Some(bare),
            None => None,
        }
    } else if src.len() == 1 && src[0] == SLASH {
        Some(TokenKind::Slash)
    } else if src.len() == 2 && operator_kinds(src[0]) is Some && src[1] == EQUAL {
        match operator_kinds(src[0]) {
            Some((_, widened)) => Some(widened),
            None => None,
        }
    } else {
        None
    }
}

/// Scanning exactly one punctuation or operator text yields one token of the
/// matching kind whose lexeme is the whole input, then `Eof`.
pub proof fn lemma_operator_text_is_one_token(src: Seq<u8>)
    requires
        operator_text_kind(src) is Some,
    ensures
        scan(src) == Ok::<Seq<TokenView>, LuxtError>(
            seq![
                TokenView { kind: operator_text_kind(src)->0, lexeme: decode_utf8(src), line: 1 },
                eof_token(1),
            ],
        ),
{
    assert(src.subrange(0, src.len() as int) =~= src);
    reveal_with_fuel(scan_from, 2);
    assert(seq![TokenView { kind: operator_text_kind(src)->0, lexeme: decode_utf8(src), line: 1 }].push(eof_token(1))
        =~= seq![TokenView { kind: operator_text_kind(src)->0, lexeme: decode_utf8(src), line: 1 }, eof_token(1)]);
}

} // verus!
