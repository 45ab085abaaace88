//! The stated laws of the scanner, proved once and for all over the model
//! in `crate::model`: every executable scan inherits them through the
//! contract of `Scanner::scan_tokens`, whose result is pinned to
//! `scan_spec` of the source.

use vstd::prelude::*;

use crate::model::{
    is_kept, is_punct_char, lemma_scan_step_bounds, punct_kind, scan_from, scan_spec, scan_step,
};
use crate::token::{SpecToken, TokenType};

verus! {

/// From any starting state, the scan yields no more tokens, and no more
/// diagnostics, than there are characters left to consume.
pub proof fn lemma_scan_from_bounded(src: Seq<char>, pos: int, line: int, last_nl: int)
    requires
        0 <= pos <= src.len(),
    ensures
        scan_from(src, pos, line, last_nl).tokens.len() <= src.len() - pos,
        scan_from(src, pos, line, last_nl).errors.len() <= src.len() - pos,
    decreases src.len() - pos,
{
    if pos < src.len() {
        lemma_scan_step_bounds(src, pos, line, last_nl);
        let st = scan_step(src, pos, line, last_nl);
        lemma_scan_from_bounded(src, st.pos, st.line, st.last_nl);
    }
}

/// Scanning terminates on every input (the model is a total function) and
/// yields a token sequence no longer than the input; the delivered
/// sequence adds only the one `EOF` sentinel beyond that bound.
pub proof fn lemma_scan_bounded(src: Seq<char>)
    ensures
        scan_spec(src).tokens.len() <= src.len(),
        scan_spec(src).errors.len() <= src.len(),
{
    lemma_scan_from_bounded(src, 0, 1, 0);
}

/// Classification is idempotent: what a source scans to is a function of
/// the source text alone, so scanning the same text twice yields identical
/// token sequences and identical diagnostics — no hidden state survives
/// between scans.
pub proof fn lemma_scan_deterministic(src1: Seq<char>, src2: Seq<char>)
    requires
        src1 == src2,
    ensures
        scan_spec(src1) == scan_spec(src2),
{
}

/// Round trip for single-character tokens: a one-character source holding
/// a punctuation mark scans to exactly one token of the matching kind,
/// whose lexeme is that very character, on line 1 at column 0.
pub proof fn lemma_single_punct_round_trip(c: char)
    requires
        is_punct_char(c),
    ensures
        scan_spec(seq![c]).tokens == seq![
            SpecToken { kind: punct_kind(c), lexeme: seq![c], line: 1, col: 0 },
        ],
{
    let src = seq![c];
    let st = scan_step(src, 0, 1, 0);
    assert(st.token =~= (SpecToken { kind: punct_kind(c), lexeme: seq![c], line: 1, col: 0 }));
    assert(scan_from(src, st.pos, st.line, st.last_nl).tokens =~= Seq::<SpecToken>::empty());
    assert(scan_spec(src).tokens =~= seq![st.token]);
}

/// One-character lookahead for `=`: when the next character does not
/// complete `==` (or there is none), the scan yields one `Equal` token and
/// continues normally from that very next character.
pub proof fn lemma_equal_then_other(src: Seq<char>, pos: int, line: int, last_nl: int)
    requires
        0 <= pos < src.len(),
        src[pos] == '=',
        pos + 1 < src.len() ==> src[pos + 1] != '=',
    ensures
        scan_from(src, pos, line, last_nl).tokens == seq![
            SpecToken { kind: TokenType::Equal, lexeme: seq!['='], line: line, col: pos - last_nl },
        ] + scan_from(src, pos + 1, line, last_nl).tokens,
{
    let st = scan_step(src, pos, line, last_nl);
    assert(st.token =~= (SpecToken {
        kind: TokenType::Equal,
        lexeme: seq!['='],
        line: line,
        col: pos - last_nl,
    }));
}

/// Whitespace and comments are suppressed: no token that surfaces in the
/// output of a scan is of kind `Whitespace` or `Comment`.
pub proof fn lemma_scan_from_no_trivia(src: Seq<char>, pos: int, line: int, last_nl: int)
    ensures
        forall|i: int|
            0 <= i < scan_from(src, pos, line, last_nl).tokens.len() ==> is_kept(
                (#[trigger] scan_from(src, pos, line, last_nl).tokens[i]).kind,
            ),
    decreases src.len() - pos,
{
    let out = scan_from(src, pos, line, last_nl);
    if 0 <= pos < src.len() {
        lemma_scan_step_bounds(src, pos, line, last_nl);
        let st = scan_step(src, pos, line, last_nl);
        let rest = scan_from(src, st.pos, st.line, st.last_nl);
        lemma_scan_from_no_trivia(src, st.pos, st.line, st.last_nl);
        assert forall|i: int| 0 <= i < out.tokens.len() implies is_kept(out.tokens[i].kind) by {
            if is_kept(st.token.kind) {
                if i > 0 {
                    assert(out.tokens[i] == rest.tokens[i - 1]);
                }
            } else {
                assert(out.tokens[i] == rest.tokens[i]);
            }
        }
    }
}

/// Whitespace and comments never appear in what a whole source scans to.
pub proof fn lemma_scan_no_trivia(src: Seq<char>)
    ensures
        forall|i: int|
            0 <= i < scan_spec(src).tokens.len() ==> (#[trigger] scan_spec(src).tokens[i]).kind
                != TokenType::Whitespace && scan_spec(src).tokens[i].kind != TokenType::Comment,
{
    lemma_scan_from_no_trivia(src, 0, 1, 0);
}

/// The model never classifies a unit as the `EOF` sentinel: the scanner
/// alone appends it, once, after the input is exhausted — so a delivered
/// sequence carries the sentinel exactly once, at its end.
pub proof fn lemma_scan_from_no_sentinel(src: Seq<char>, pos: int, line: int, last_nl: int)
    ensures
        forall|i: int|
            0 <= i < scan_from(src, pos, line, last_nl).tokens.len() ==> (#[trigger] scan_from(
                src,
                pos,
                line,
                last_nl,
            ).tokens[i]).kind != TokenType::EOF,
    decreases src.len() - pos,
{
    let out = scan_from(src, pos, line, last_nl);
    if 0 <= pos < src.len() {
        lemma_scan_step_bounds(src, pos, line, last_nl);
        let st = scan_step(src, pos, line, last_nl);
        let rest = scan_from(src, st.pos, st.line, st.last_nl);
        lemma_scan_from_no_sentinel(src, st.pos, st.line, st.last_nl);
        assert forall|i: int| 0 <= i < out.tokens.len() implies out.tokens[i].kind
            != TokenType::EOF by {
            if is_kept(st.token.kind) {
                if i > 0 {
                    assert(out.tokens[i] == rest.tokens[i - 1]);
                }
            } else {
                assert(out.tokens[i] == rest.tokens[i]);
            }
        }
    }
}

/// What a whole source scans to holds no `EOF` kind: in a delivered token
/// sequence the sentinel stands exactly once, at the end.
pub proof fn lemma_scan_no_sentinel(src: Seq<char>)
    ensures
        forall|i: int|
            0 <= i < scan_spec(src).tokens.len() ==> (#[trigger] scan_spec(src).tokens[i]).kind
                != TokenType::EOF,
{
    lemma_scan_from_no_sentinel(src, 0, 1, 0);
}

} // verus!
