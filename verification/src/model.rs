//! The mathematical model of scanning: character classes, maximal-run
//! boundaries, and the recursive definition of the whole token sequence
//! that a source text scans to. Every contract of the executable scanner
//! is stated against the functions of this module.

use vstd::prelude::*;

use crate::error::{ErrorType, SpecError};
use crate::token::{keyword_kind, SpecToken, TokenType};

verus! {

// ---------------------------------------------------------------------------
// Character classes
// ---------------------------------------------------------------------------
/// The nine single-character punctuation marks that map directly to a kind.
pub open spec fn is_punct_char(c: char) -> bool {
    c == '(' || c == ')' || c == '{' || c == '}' || c == ',' || c == '.' || c == '+' || c == '-'
        || c == ';'
}

/// The kind of a single-character punctuation mark.
pub open spec fn punct_kind(c: char) -> TokenType {
    if c == '(' {
        TokenType::LeftParen
    } else if c == ')' {
        TokenType::RightParen
    } else if c == '{' {
        TokenType::LeftBrace
    } else if c == '}' {
        TokenType::RightBrace
    } else if c == ',' {
        TokenType::Comma
    } else if c == '.' {
        TokenType::Dot
    } else if c == '+' {
        TokenType::Plus
    } else if c == '-' {
        TokenType::Minus
    } else {
        TokenType::Semicolon
    }
}

/// The characters that may start a two-character operator.
pub open spec fn is_pair_start(c: char) -> bool {
    c == '=' || c == '!' || c == '>' || c == '<' || c == '*'
}

/// The character that completes the two-character operator started by `c`.
pub open spec fn pair_char(c: char) -> char {
    if c == '*' {
        '*'
    } else {
        '='
    }
}

/// The kind emitted when the operator stays one character long.
pub open spec fn single_kind(c: char) -> TokenType {
    if c == '=' {
        TokenType::Equal
    } else if c == '!' {
        TokenType::Bang
    } else if c == '>' {
        TokenType::Greater
    } else if c == '<' {
        TokenType::Less
    } else {
        TokenType::Star
    }
}

/// The kind emitted when the lookahead completes the two-character operator.
pub open spec fn pair_kind(c: char) -> TokenType {
    if c == '=' {
        TokenType::EqualEqual
    } else if c == '!' {
        TokenType::BangEqual
    } else if c == '>' {
        TokenType::GreaterEqual
    } else if c == '<' {
        TokenType::LessEqual
    } else {
        TokenType::StarStar
    }
}

/// Horizontal whitespace: space, carriage return, tab.
pub open spec fn is_blank_char(c: char) -> bool {
    c == ' ' || c == '\r' || c == '\t'
}

/// An ASCII decimal digit.
pub open spec fn is_digit_char(c: char) -> bool {
    48 <= (c as u32) && (c as u32) <= 57
}

/// An ASCII alphabetic character.
pub open spec fn is_alpha_char(c: char) -> bool {
    (65 <= (c as u32) && (c as u32) <= 90) || (97 <= (c as u32) && (c as u32) <= 122)
}

// ---------------------------------------------------------------------------
// Maximal-run boundaries
// ---------------------------------------------------------------------------
/// The position of the next newline at or after `i`, or the input length
/// if none follows: a comment runs up to but not including it.
pub open spec fn line_end(src: Seq<char>, i: int) -> int
    decreases src.len() - i,
{
    if i < 0 || i >= src.len() {
        src.len() as int
    } else if src[i] == '\n' {
        i
    } else {
        line_end(src, i + 1)
    }
}

/// The position of the closing quote at or after `i`, or the input length
/// if the string literal never terminates.
pub open spec fn string_end(src: Seq<char>, i: int) -> int
    decreases src.len() - i,
{
    if i < 0 || i >= src.len() {
        src.len() as int
    } else if src[i] == '"' {
        i
    } else {
        string_end(src, i + 1)
    }
}

/// The first position at or after `i` where a number run stops: digits
/// continue it, and one dot is allowed in the whole run.
pub open spec fn number_end(src: Seq<char>, i: int, seen_dot: bool) -> int
    decreases src.len() - i,
{
    if i < 0 || i >= src.len() {
        src.len() as int
    } else if is_digit_char(src[i]) {
        number_end(src, i + 1, seen_dot)
    } else if src[i] == '.' && !seen_dot {
        number_end(src, i + 1, true)
    } else {
        i
    }
}

/// The first position at or after `i` that is not ASCII alphabetic: the
/// end of an identifier-or-keyword run.
pub open spec fn ident_end(src: Seq<char>, i: int) -> int
    decreases src.len() - i,
{
    if i < 0 || i >= src.len() {
        src.len() as int
    } else if is_alpha_char(src[i]) {
        ident_end(src, i + 1)
    } else {
        i
    }
}

/// How many newlines stand in `src[from..to]`.
pub open spec fn newline_count(src: Seq<char>, from: int, to: int) -> int
    decreases to - from,
{
    if to <= from {
        0
    } else {
        newline_count(src, from, to - 1) + if src[to - 1] == '\n' {
            1int
        } else {
            0int
        }
    }
}

/// The position of the last newline in `src[from..to]`, or `orig` if that
/// range holds none.
pub open spec fn last_newline_in(src: Seq<char>, from: int, to: int, orig: int) -> int
    decreases to - from,
{
    if to <= from {
        orig
    } else if src[to - 1] == '\n' {
        to - 1
    } else {
        last_newline_in(src, from, to - 1, orig)
    }
}

// ---------------------------------------------------------------------------
// One dispatch step
// ---------------------------------------------------------------------------
/// What one dispatch step of the scanner produces: the token it classifies
/// (possibly `Whitespace` or `Comment`, which the output then drops), the
/// diagnostic it reports if any, and the cursor, line and last-newline
/// offset it leaves behind.
#[verifier::ext_equal]
pub struct StepResult {
    pub token: SpecToken,
    pub error: Option<SpecError>,
    pub pos: int,
    pub line: int,
    pub last_nl: int,
}

/// Whether a classified token surfaces in the output sequence.
pub open spec fn is_kept(kind: TokenType) -> bool {
    kind != TokenType::Whitespace && kind != TokenType::Comment
}

/// One dispatch step at position `pos` (meaningful for `0 <= pos < src.len()`):
/// classifies exactly one lexical unit starting at `pos` and advances past it.
/// A token's reported line and column are those of its first character,
/// the column counted from the most recent newline.
pub open spec fn scan_step(src: Seq<char>, pos: int, line: int, last_nl: int) -> StepResult {
    let c = src[pos];
    let col = pos - last_nl;
    if is_punct_char(c) {
        StepResult {
            token: SpecToken { kind: punct_kind(c), lexeme: seq![c], line, col },
            error: None,
            pos: pos + 1,
            line,
            last_nl,
        }
    } else if is_pair_start(c) {
        if pos + 1 < src.len() && src[pos + 1] == pair_char(c) {
            StepResult {
                token: SpecToken { kind: pair_kind(c), lexeme: seq![c, pair_char(c)], line, col },
                error: None,
                pos: pos + 2,
                line,
                last_nl,
            }
        } else {
            StepResult {
                token: SpecToken { kind: single_kind(c), lexeme: seq![c], line, col },
                error: None,
                pos: pos + 1,
                line,
                last_nl,
            }
        }
    } else if c == '/' {
        if pos + 1 < src.len() && src[pos + 1] == '/' {
            let e = line_end(src, pos + 2);
            StepResult {
                token: SpecToken {
                    kind: TokenType::Comment,
                    lexeme: src.subrange(pos + 2, e),
                    line,
                    col,
                },
                error: None,
                pos: e,
                line,
                last_nl,
            }
        } else {
            StepResult {
                token: SpecToken { kind: TokenType::Slash, lexeme: seq![c], line, col },
                error: None,
                pos: pos + 1,
                line,
                last_nl,
            }
        }
    } else if c == '"' {
        let e = string_end(src, pos + 1);
        let inner = src.subrange(pos + 1, e);
        let new_line = line + newline_count(src, pos + 1, e);
        let new_last_nl = last_newline_in(src, pos + 1, e, last_nl);
        if e < src.len() {
            StepResult {
                token: SpecToken { kind: TokenType::String, lexeme: inner, line, col },
                error: None,
                pos: e + 1,
                line: new_line,
                last_nl: new_last_nl,
            }
        } else {
            StepResult {
                token: SpecToken { kind: TokenType::Invalid, lexeme: inner, line, col },
                error: Some(
                    SpecError { kind: ErrorType::Scanner, message: "unterminated string"@, line, col },
                ),
                pos: e,
                line: new_line,
                last_nl: new_last_nl,
            }
        }
    } else if c == '\n' {
        StepResult {
            token: SpecToken { kind: TokenType::Whitespace, lexeme: seq![c], line, col },
            error: None,
            pos: pos + 1,
            line: line + 1,
            last_nl: pos,
        }
    } else if is_blank_char(c) {
        StepResult {
            token: SpecToken { kind: TokenType::Whitespace, lexeme: seq![c], line, col },
            error: None,
            pos: pos + 1,
            line,
            last_nl,
        }
    } else if is_digit_char(c) {
        let e = number_end(src, pos + 1, false);
        StepResult {
            token: SpecToken { kind: TokenType::Number, lexeme: src.subrange(pos, e), line, col },
            error: None,
            pos: e,
            line,
            last_nl,
        }
    } else if is_alpha_char(c) {
        let e = ident_end(src, pos + 1);
        let lex = src.subrange(pos, e);
        StepResult {
            token: SpecToken { kind: keyword_kind(lex), lexeme: lex, line, col },
            error: None,
            pos: e,
            line,
            last_nl,
        }
    } else {
        StepResult {
            token: SpecToken { kind: TokenType::Invalid, lexeme: seq![c], line, col },
            error: Some(
                SpecError { kind: ErrorType::Scanner, message: "invalid token"@, line, col },
            ),
            pos: pos + 1,
            line,
            last_nl,
        }
    }
}

// ---------------------------------------------------------------------------
// The whole scan
// ---------------------------------------------------------------------------
/// Everything a scan produces: the tokens that surface (whitespace and
/// comments already dropped) and the diagnostics reported on the way.
#[verifier::ext_equal]
pub struct ScanOutput {
    pub tokens: Seq<SpecToken>,
    pub errors: Seq<SpecError>,
}

/// The output of scanning `src` from position `pos` with the given line
/// and last-newline offset: one step at a time until the input is
/// exhausted, keeping every token that is neither whitespace nor comment.
pub open spec fn scan_from(src: Seq<char>, pos: int, line: int, last_nl: int) -> ScanOutput
    decreases src.len() - pos,
    via scan_from_decreases
{
    if pos < 0 || pos >= src.len() {
        ScanOutput { tokens: Seq::empty(), errors: Seq::empty() }
    } else {
        let step = scan_step(src, pos, line, last_nl);
        let rest = scan_from(src, step.pos, step.line, step.last_nl);
        ScanOutput {
            tokens: if is_kept(step.token.kind) {
                seq![step.token] + rest.tokens
            } else {
                rest.tokens
            },
            errors: match step.error {
                Some(e) => seq![e] + rest.errors,
                None => rest.errors,
            },
        }
    }
}

#[via_fn]
proof fn scan_from_decreases(src: Seq<char>, pos: int, line: int, last_nl: int) {
    if 0 <= pos < src.len() {
        lemma_scan_step_bounds(src, pos, line, last_nl);
    }
}

/// What the whole source text scans to, from a fresh scanner: position 0,
/// line 1, and the scan start as the newline reference offset.
pub open spec fn scan_spec(src: Seq<char>) -> ScanOutput {
    scan_from(src, 0, 1, 0)
}

// ---------------------------------------------------------------------------
// Boundary lemmas
// ---------------------------------------------------------------------------
/// `line_end` stays within `[i, src.len()]`, stops on a newline when it
/// stops short of the end, and skips no newline on the way.
pub proof fn lemma_line_end(src: Seq<char>, i: int)
    requires
        0 <= i <= src.len(),
    ensures
        i <= line_end(src, i) <= src.len(),
        line_end(src, i) < src.len() ==> src[line_end(src, i)] == '\n',
        forall|j: int| i <= j < line_end(src, i) ==> src[j] != '\n',
    decreases src.len() - i,
{
    if i < src.len() && src[i] != '\n' {
        lemma_line_end(src, i + 1);
    }
}

/// `string_end` stays within `[i, src.len()]`, stops on a quote when it
/// stops short of the end, and skips no quote on the way.
pub proof fn lemma_string_end(src: Seq<char>, i: int)
    requires
        0 <= i <= src.len(),
    ensures
        i <= string_end(src, i) <= src.len(),
        string_end(src, i) < src.len() ==> src[string_end(src, i)] == '"',
        forall|j: int| i <= j < string_end(src, i) ==> src[j] != '"',
    decreases src.len() - i,
{
    if i < src.len() && src[i] != '"' {
        lemma_string_end(src, i + 1);
    }
}

/// `number_end` stays within `[i, src.len()]`, and everything it takes is
/// a digit or a dot.
pub proof fn lemma_number_end(src: Seq<char>, i: int, seen_dot: bool)
    requires
        0 <= i <= src.len(),
    ensures
        i <= number_end(src, i, seen_dot) <= src.len(),
        forall|j: int|
            i <= j < number_end(src, i, seen_dot) ==> is_digit_char(#[trigger] src[j]) || src[j]
                == '.',
    decreases src.len() - i,
{
    if i < src.len() {
        if is_digit_char(src[i]) {
            lemma_number_end(src, i + 1, seen_dot);
        } else if src[i] == '.' && !seen_dot {
            lemma_number_end(src, i + 1, true);
        }
    }
}

/// `ident_end` stays within `[i, src.len()]`, and everything it takes is
/// ASCII alphabetic.
pub proof fn lemma_ident_end(src: Seq<char>, i: int)
    requires
        0 <= i <= src.len(),
    ensures
        i <= ident_end(src, i) <= src.len(),
        forall|j: int| i <= j < ident_end(src, i) ==> is_alpha_char(#[trigger] src[j]),
    decreases src.len() - i,
{
    if i < src.len() && is_alpha_char(src[i]) {
        lemma_ident_end(src, i + 1);
    }
}

/// A range holds no more newlines than characters.
pub proof fn lemma_newline_count_bounds(src: Seq<char>, from: int, to: int)
    ensures
        0 <= newline_count(src, from, to),
        newline_count(src, from, to) <= if to >= from {
            to - from
        } else {
            0
        },
    decreases to - from,
{
    if to > from {
        lemma_newline_count_bounds(src, from, to - 1);
    }
}

/// The last newline of a range lies in the range, or is the fallback.
pub proof fn lemma_last_newline_in_bounds(src: Seq<char>, from: int, to: int, orig: int)
    ensures
        last_newline_in(src, from, to, orig) == orig || (from <= last_newline_in(src, from, to, orig)
            && last_newline_in(src, from, to, orig) < to),
    decreases to - from,
{
    if to > from && src[to - 1] != '\n' {
        lemma_last_newline_in_bounds(src, from, to - 1, orig);
    }
}

/// Splitting a range splits its newline count.
pub proof fn lemma_newline_count_split(src: Seq<char>, a: int, b: int, c: int)
    requires
        a <= b <= c,
    ensures
        newline_count(src, a, c) == newline_count(src, a, b) + newline_count(src, b, c),
    decreases c - b,
{
    if c > b {
        lemma_newline_count_split(src, a, b, c - 1);
    }
}

/// Splitting a range chains its last-newline computation: the first part's
/// answer is the second part's fallback.
pub proof fn lemma_last_newline_split(src: Seq<char>, a: int, b: int, c: int, orig: int)
    requires
        a <= b <= c,
    ensures
        last_newline_in(src, a, c, orig) == last_newline_in(
            src,
            b,
            c,
            last_newline_in(src, a, b, orig),
        ),
    decreases c - b,
{
    if c > b {
        lemma_last_newline_split(src, a, b, c - 1, orig);
    }
}

/// A range that holds no newline counts none and keeps the fallback.
pub proof fn lemma_no_newline_in_range(src: Seq<char>, from: int, to: int, orig: int)
    requires
        forall|j: int| from <= j < to ==> #[trigger] src[j] != '\n',
    ensures
        newline_count(src, from, to) == 0,
        last_newline_in(src, from, to, orig) == orig,
    decreases to - from,
{
    if to > from {
        lemma_no_newline_in_range(src, from, to - 1, orig);
    }
}

/// The newline bookkeeping of a single character.
pub proof fn lemma_newline_one(src: Seq<char>, i: int, orig: int)
    ensures
        newline_count(src, i, i + 1) == if src[i] == '\n' {
            1int
        } else {
            0int
        },
        last_newline_in(src, i, i + 1, orig) == if src[i] == '\n' {
            i
        } else {
            orig
        },
{
    reveal_with_fuel(newline_count, 2);
    reveal_with_fuel(last_newline_in, 2);
}

/// A dispatch step advances the line number by exactly the newlines it
/// consumes, and leaves the reference offset at the last of them, or where
/// it was if it consumed none.
pub proof fn lemma_scan_step_lines(src: Seq<char>, pos: int, line: int, last_nl: int)
    requires
        0 <= pos < src.len(),
    ensures
        ({
            let step = scan_step(src, pos, line, last_nl);
            &&& step.line == line + newline_count(src, pos, step.pos)
            &&& step.last_nl == last_newline_in(src, pos, step.pos, last_nl)
        }),
{
    let c = src[pos];
    let step = scan_step(src, pos, line, last_nl);
    if is_punct_char(c) || is_pair_start(c) || is_blank_char(c) || (c == '/' && !(pos + 1
        < src.len() && src[pos + 1] == '/')) {
        lemma_no_newline_in_range(src, pos, step.pos, last_nl);
    } else if c == '/' {
        let e = line_end(src, pos + 2);
        lemma_line_end(src, pos + 2);
        assert forall|j: int| pos <= j < e implies #[trigger] src[j] != '\n' by {
            if j > pos + 1 {
                assert(src[j] != '\n');
            }
        }
        lemma_no_newline_in_range(src, pos, e, last_nl);
    } else if c == '"' {
        lemma_string_end(src, pos + 1);
        let e = string_end(src, pos + 1);
        lemma_newline_one(src, pos, last_nl);
        lemma_newline_count_split(src, pos, pos + 1, e);
        lemma_last_newline_split(src, pos, pos + 1, e, last_nl);
        if e < src.len() {
            lemma_newline_one(src, e, last_newline_in(src, pos, e, last_nl));
            lemma_newline_count_split(src, pos, e, e + 1);
            lemma_last_newline_split(src, pos, e, e + 1, last_nl);
        }
    } else if c == '\n' {
        lemma_newline_one(src, pos, last_nl);
    } else if is_digit_char(c) {
        let e = number_end(src, pos + 1, false);
        lemma_number_end(src, pos + 1, false);
        assert forall|j: int| pos <= j < e implies #[trigger] src[j] != '\n' by {
            if j > pos {
                assert(is_digit_char(src[j]) || src[j] == '.');
            }
        }
        lemma_no_newline_in_range(src, pos, e, last_nl);
    } else if is_alpha_char(c) {
        let e = ident_end(src, pos + 1);
        lemma_ident_end(src, pos + 1);
        assert forall|j: int| pos <= j < e implies #[trigger] src[j] != '\n' by {
            if j > pos {
                assert(is_alpha_char(src[j]));
            }
        }
        lemma_no_newline_in_range(src, pos, e, last_nl);
    } else {
        lemma_no_newline_in_range(src, pos, step.pos, last_nl);
    }
}

/// Every dispatch step consumes at least one character and never runs past
/// the end of the input.
pub proof fn lemma_scan_step_bounds(src: Seq<char>, pos: int, line: int, last_nl: int)
    requires
        0 <= pos < src.len(),
    ensures
        pos < scan_step(src, pos, line, last_nl).pos <= src.len(),
{
    let c = src[pos];
    if is_punct_char(c) || is_pair_start(c) {
    } else if c == '/' {
        if pos + 1 < src.len() && src[pos + 1] == '/' {
            lemma_line_end(src, pos + 2);
        }
    } else if c == '"' {
        lemma_string_end(src, pos + 1);
    } else if c == '\n' || is_blank_char(c) {
    } else if is_digit_char(c) {
        lemma_number_end(src, pos + 1, false);
    } else if is_alpha_char(c) {
        lemma_ident_end(src, pos + 1);
    }
}

/// A dispatch step keeps the scanner state well formed: the newline
/// reference offset never runs ahead of the cursor, and the line number
/// never exceeds one more than the characters consumed.
pub proof fn lemma_scan_step_wf(src: Seq<char>, pos: int, line: int, last_nl: int)
    requires
        0 <= pos < src.len(),
        0 <= last_nl <= pos,
        1 <= line,
        line <= pos + 1,
    ensures
        ({
            let step = scan_step(src, pos, line, last_nl);
            &&& pos < step.pos <= src.len()
            &&& 0 <= step.last_nl <= step.pos
            &&& 1 <= step.line
            &&& step.line <= step.pos + 1
        }),
{
    lemma_scan_step_bounds(src, pos, line, last_nl);
    if src[pos] == '"' {
        lemma_string_end(src, pos + 1);
        let e = string_end(src, pos + 1);
        lemma_newline_count_bounds(src, pos + 1, e);
        lemma_last_newline_in_bounds(src, pos + 1, e, last_nl);
    }
}

} // verus!
