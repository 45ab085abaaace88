//! The executable scanner: consumes source text character by character and
//! produces the token sequence, owning all positional bookkeeping and
//! literal sub-scanning. Its behaviour is pinned to the recursive model in
//! `crate::model`.

use vstd::prelude::*;

use crate::error::{ErrorType, RuneError, SpecError};
use crate::model::{
    ident_end, is_alpha_char, is_blank_char, is_digit_char, is_kept, is_pair_start, is_punct_char,
    last_newline_in, lemma_ident_end, lemma_line_end, lemma_number_end, lemma_scan_step_bounds,
    lemma_last_newline_split, lemma_newline_count_split, lemma_scan_step_lines,
    lemma_scan_step_wf, lemma_string_end, line_end, newline_count, number_end, pair_char,
    pair_kind, punct_kind, scan_from, scan_step, single_kind, string_end,
};
use crate::token::{
    char_to_string, keyword_kind, keyword_lookup, push_char, SpecToken, Token, TokenType,
};

verus! {

// ---------------------------------------------------------------------------
// Small executable helpers
// ---------------------------------------------------------------------------
/// The kind of a single-character punctuation mark, or nothing.
fn punct_token_kind(c: char) -> (r: Option<TokenType>)
    ensures
        is_punct_char(c) ==> r == Some(punct_kind(c)),
        !is_punct_char(c) ==> r is None,
{
    match c {
        '(' => Some(TokenType::LeftParen),
        ')' => Some(TokenType::RightParen),
        '{' => Some(TokenType::LeftBrace),
        '}' => Some(TokenType::RightBrace),
        ',' => Some(TokenType::Comma),
        '.' => Some(TokenType::Dot),
        '+' => Some(TokenType::Plus),
        '-' => Some(TokenType::Minus),
        ';' => Some(TokenType::Semicolon),
        _ => None,
    }
}

/// For a character that may start a two-character operator: the character
/// that would complete it, the kind if it stays single, and the kind if
/// the lookahead completes it.
fn pair_token_info(c: char) -> (r: Option<(char, TokenType, TokenType)>)
    ensures
        is_pair_start(c) ==> r == Some((pair_char(c), single_kind(c), pair_kind(c))),
        !is_pair_start(c) ==> r is None,
{
    match c {
        '=' => Some(('=', TokenType::Equal, TokenType::EqualEqual)),
        '!' => Some(('=', TokenType::Bang, TokenType::BangEqual)),
        '>' => Some(('=', TokenType::Greater, TokenType::GreaterEqual)),
        '<' => Some(('=', TokenType::Less, TokenType::LessEqual)),
        '*' => Some(('*', TokenType::Star, TokenType::StarStar)),
        _ => None,
    }
}

/// Whether `c` is an ASCII decimal digit.
fn is_digit_exec(c: char) -> (r: bool)
    ensures
        r == is_digit_char(c),
{
    let u: u32 = c as u32;
    48 <= u && u <= 57
}

/// Whether `c` is ASCII alphabetic.
fn is_alpha_exec(c: char) -> (r: bool)
    ensures
        r == is_alpha_char(c),
{
    let u: u32 = c as u32;
    (65 <= u && u <= 90) || (97 <= u && u <= 122)
}

/// Whether `c` is horizontal whitespace.
fn is_blank_exec(c: char) -> (r: bool)
    ensures
        r == is_blank_char(c),
{
    c == ' ' || c == '\r' || c == '\t'
}

/// Appending a token to a sequence appends its view to the sequence of views.
proof fn lemma_view_push_token(s: Seq<Token>, t: Token)
    ensures
        (s.push(t)).map_values(|x: Token| x@) == s.map_values(|x: Token| x@).push(t@),
{
    assert((s.push(t)).map_values(|x: Token| x@) =~= s.map_values(|x: Token| x@).push(t@));
}

/// Appending a diagnostic to a sequence appends its view to the sequence of views.
proof fn lemma_view_push_error(s: Seq<RuneError>, e: RuneError)
    ensures
        (s.push(e)).map_values(|x: RuneError| x@) == s.map_values(|x: RuneError| x@).push(e@),
{
    assert((s.push(e)).map_values(|x: RuneError| x@) =~= s.map_values(|x: RuneError| x@).push(e@));
}

// ---------------------------------------------------------------------------
// The scanner
// ---------------------------------------------------------------------------
/// The only mutable entity of a scan: the character cursor, the line and
/// last-newline bookkeeping, and the pending output. Created once per scan
/// and discarded after the scan returns; no two scans share state.
pub struct Scanner {
    source: Vec<char>,
    pos: usize,
    line: usize,
    last_newline: usize,
    tokens: Vec<Token>,
    errors: Vec<RuneError>,
}

impl Scanner {
    /// The source text as a character sequence.
    pub closed spec fn src(&self) -> Seq<char> {
        self.source@
    }

    /// The character offset of the cursor.
    pub closed spec fn cursor(&self) -> int {
        self.pos as int
    }

    /// The current 1-based line number.
    pub closed spec fn line_at(&self) -> int {
        self.line as int
    }

    /// The offset of the most recent newline, or the scan start if none yet.
    pub closed spec fn newline_offset(&self) -> int {
        self.last_newline as int
    }

    /// The views of the tokens collected so far.
    pub closed spec fn emitted(&self) -> Seq<SpecToken> {
        self.tokens@.map_values(|t: Token| t@)
    }

    /// The views of the diagnostics collected so far.
    pub closed spec fn reported(&self) -> Seq<SpecError> {
        self.errors@.map_values(|e: RuneError| e@)
    }

    /// Well-formedness of the scanner state: the cursor is inside the
    /// source, the newline reference offset never runs ahead of it, and
    /// the line count is bounded by the characters consumed.
    pub closed spec fn wf(&self) -> bool {
        &&& self.source@.len() < usize::MAX
        &&& self.pos <= self.source@.len()
        &&& self.last_newline <= self.pos
        &&& 1 <= self.line
        &&& self.line <= self.pos + 1
    }

    /// Whether the input stream is exhausted.
    pub open spec fn done(&self) -> bool {
        self.cursor() == self.src().len()
    }

    /// Builds a fresh scanner over the given source text: cursor at the
    /// start, line 1, and nothing collected yet.
    pub fn new(input: &str) -> (s: Scanner)
        requires
            input@.len() < usize::MAX,
        ensures
            s.wf(),
            s.src() == input@,
            s.cursor() == 0,
            s.line_at() == 1,
            s.newline_offset() == 0,
            s.emitted() == Seq::<SpecToken>::empty(),
            s.reported() == Seq::<SpecError>::empty(),
    {
        let n = input.unicode_len();
        let mut source: Vec<char> = Vec::new();
        let mut i: usize = 0;
        while i < n
            invariant
                n == input@.len(),
                i <= n,
                source@ == input@.subrange(0, i as int),
            decreases n - i,
        {
            let c = input.get_char(i);
            source.push(c);
            i = i + 1;
            proof {
                assert(source@ =~= input@.subrange(0, i as int));
            }
        }
        proof {
            assert(source@ =~= input@);
            assert(Seq::<Token>::empty().map_values(|t: Token| t@) =~= Seq::<SpecToken>::empty());
            assert(Seq::<RuneError>::empty().map_values(|e: RuneError| e@) =~= Seq::<
                SpecError,
            >::empty());
        }
        Scanner { source, pos: 0, line: 1, last_newline: 0, tokens: Vec::new(), errors: Vec::new() }
    }

    /// Whether the cursor has reached the end of the input.
    fn is_at_end(&self) -> (r: bool)
        requires
            self.wf(),
        ensures
            r == self.done(),
    {
        self.pos >= self.source.len()
    }

    /// Advances the cursor to the next newline, or to the end of the input
    /// if none follows, consuming neither; everything else stays as it was.
    fn skip_to_line_end(&mut self)
        requires
            old(self).wf(),
        ensures
            final(self).wf(),
            final(self).src() == old(self).src(),
            final(self).cursor() == line_end(old(self).src(), old(self).cursor()),
            final(self).line_at() == old(self).line_at(),
            final(self).newline_offset() == old(self).newline_offset(),
            final(self).emitted() == old(self).emitted(),
            final(self).reported() == old(self).reported(),
    {
        let ghost src = self.source@;
        let ghost s0 = self.pos as int;
        proof {
            lemma_line_end(src, s0);
        }
        loop
            invariant
                self.wf(),
                self.src() == src,
                0 <= s0 <= self.cursor() <= src.len(),
                line_end(src, s0) == line_end(src, self.cursor()),
                self.line_at() == old(self).line_at(),
                self.newline_offset() == old(self).newline_offset(),
                self.emitted() == old(self).emitted(),
                self.reported() == old(self).reported(),
            ensures
                self.wf(),
                self.src() == src,
                self.cursor() == line_end(src, s0),
                self.line_at() == old(self).line_at(),
                self.newline_offset() == old(self).newline_offset(),
                self.emitted() == old(self).emitted(),
                self.reported() == old(self).reported(),
            decreases src.len() - self.cursor(),
        {
            if self.pos >= self.source.len() {
                break;
            }
            if self.source[self.pos] == '\n' {
                break;
            }
            self.pos = self.pos + 1;
        }
    }

    /// Scans the inside of a string literal, the cursor standing just after
    /// the opening quote: collects every character up to the closing quote
    /// or the end of the input, counting newlines as it passes them, and
    /// consumes the closing quote if there is one. Returns the enclosed
    /// text and whether the literal was terminated.
    fn scan_string_body(&mut self) -> (r: (String, bool))
        requires
            old(self).wf(),
        ensures
            final(self).wf(),
            final(self).src() == old(self).src(),
            final(self).emitted() == old(self).emitted(),
            final(self).reported() == old(self).reported(),
            ({
                let src = old(self).src();
                let s0 = old(self).cursor();
                let e = string_end(src, s0);
                &&& r.0@ == src.subrange(s0, e)
                &&& r.1 == (e < src.len())
                &&& final(self).cursor() == if e < src.len() {
                    e + 1
                } else {
                    e
                }
                &&& final(self).line_at() == old(self).line_at() + newline_count(src, s0, e)
                &&& final(self).newline_offset() == last_newline_in(
                    src,
                    s0,
                    e,
                    old(self).newline_offset(),
                )
            }),
    {
        let ghost src = self.source@;
        let ghost s0 = self.pos as int;
        let ghost l0 = self.line as int;
        let ghost nl0 = self.last_newline as int;
        proof {
            lemma_string_end(src, s0);
        }
        let mut content = String::new();
        loop
            invariant
                self.wf(),
                self.src() == src,
                0 <= s0 <= self.cursor() <= src.len(),
                string_end(src, s0) == string_end(src, self.cursor()),
                content@ == src.subrange(s0, self.cursor()),
                self.line_at() == l0 + newline_count(src, s0, self.cursor()),
                self.newline_offset() == last_newline_in(src, s0, self.cursor(), nl0),
                self.emitted() == old(self).emitted(),
                self.reported() == old(self).reported(),
            ensures
                self.wf(),
                self.src() == src,
                self.cursor() == string_end(src, s0),
                content@ == src.subrange(s0, self.cursor()),
                self.line_at() == l0 + newline_count(src, s0, self.cursor()),
                self.newline_offset() == last_newline_in(src, s0, self.cursor(), nl0),
                self.emitted() == old(self).emitted(),
                self.reported() == old(self).reported(),
            decreases src.len() - self.cursor(),
        {
            if self.pos >= self.source.len() {
                break;
            }
            let ch = self.source[self.pos];
            if ch == '"' {
                break;
            }
            if ch == '\n' {
                self.line = self.line + 1;
                self.last_newline = self.pos;
            }
            let ghost p = self.pos as int;
            push_char(&mut content, ch);
            self.pos = self.pos + 1;
            proof {
                assert(src.subrange(s0, p + 1) =~= src.subrange(s0, p).push(src[p]));
                assert(content@ =~= src.subrange(s0, p + 1));
            }
        }
        let terminated = self.pos < self.source.len();
        if terminated {
            self.pos = self.pos + 1;
        }
        (content, terminated)
    }

    /// Continues a number run, the first digit already consumed into
    /// `lexeme`: takes a maximal run of digits allowing at most one
    /// embedded dot, appending each taken character to `lexeme`. The
    /// character that stops the run is not consumed.
    fn scan_number_rest(&mut self, lexeme: &mut String)
        requires
            old(self).wf(),
        ensures
            final(self).wf(),
            final(self).src() == old(self).src(),
            final(self).cursor() == number_end(old(self).src(), old(self).cursor(), false),
            final(lexeme)@ == old(lexeme)@ + old(self).src().subrange(
                old(self).cursor(),
                number_end(old(self).src(), old(self).cursor(), false),
            ),
            final(self).line_at() == old(self).line_at(),
            final(self).newline_offset() == old(self).newline_offset(),
            final(self).emitted() == old(self).emitted(),
            final(self).reported() == old(self).reported(),
    {
        let ghost src = self.source@;
        let ghost s0 = self.pos as int;
        let ghost lex0 = lexeme@;
        proof {
            lemma_number_end(src, s0, false);
        }
        let mut seen_dot = false;
        loop
            invariant
                self.wf(),
                self.src() == src,
                0 <= s0 <= self.cursor() <= src.len(),
                number_end(src, s0, false) == number_end(src, self.cursor(), seen_dot),
                lexeme@ == lex0 + src.subrange(s0, self.cursor()),
                self.line_at() == old(self).line_at(),
                self.newline_offset() == old(self).newline_offset(),
                self.emitted() == old(self).emitted(),
                self.reported() == old(self).reported(),
            ensures
                self.wf(),
                self.src() == src,
                self.cursor() == number_end(src, s0, false),
                lexeme@ == lex0 + src.subrange(s0, self.cursor()),
                self.line_at() == old(self).line_at(),
                self.newline_offset() == old(self).newline_offset(),
                self.emitted() == old(self).emitted(),
                self.reported() == old(self).reported(),
            decreases src.len() - self.cursor(),
        {
            if self.pos >= self.source.len() {
                break;
            }
            let ch = self.source[self.pos];
            let ghost p = self.pos as int;
            if is_digit_exec(ch) {
                push_char(lexeme, ch);
                self.pos = self.pos + 1;
            } else if ch == '.' && !seen_dot {
                seen_dot = true;
                push_char(lexeme, ch);
                self.pos = self.pos + 1;
            } else {
                break;
            }
            proof {
                assert(src.subrange(s0, p + 1) =~= src.subrange(s0, p).push(src[p]));
                assert(lexeme@ =~= lex0 + src.subrange(s0, p + 1));
            }
        }
    }

    /// Continues an identifier-or-keyword run, the first character already
    /// consumed into `text`: takes a maximal run of ASCII alphabetic
    /// characters, appending each to `text`. The character that stops the
    /// run is not consumed.
    fn scan_ident_rest(&mut self, text: &mut String)
        requires
            old(self).wf(),
        ensures
            final(self).wf(),
            final(self).src() == old(self).src(),
            final(self).cursor() == ident_end(old(self).src(), old(self).cursor()),
            final(text)@ == old(text)@ + old(self).src().subrange(
                old(self).cursor(),
                ident_end(old(self).src(), old(self).cursor()),
            ),
            final(self).line_at() == old(self).line_at(),
            final(self).newline_offset() == old(self).newline_offset(),
            final(self).emitted() == old(self).emitted(),
            final(self).reported() == old(self).reported(),
    {
        let ghost src = self.source@;
        let ghost s0 = self.pos as int;
        let ghost t0 = text@;
        proof {
            lemma_ident_end(src, s0);
        }
        loop
            invariant
                self.wf(),
                self.src() == src,
                0 <= s0 <= self.cursor() <= src.len(),
                ident_end(src, s0) == ident_end(src, self.cursor()),
                text@ == t0 + src.subrange(s0, self.cursor()),
                self.line_at() == old(self).line_at(),
                self.newline_offset() == old(self).newline_offset(),
                self.emitted() == old(self).emitted(),
                self.reported() == old(self).reported(),
            ensures
                self.wf(),
                self.src() == src,
                self.cursor() == ident_end(src, s0),
                text@ == t0 + src.subrange(s0, self.cursor()),
                self.line_at() == old(self).line_at(),
                self.newline_offset() == old(self).newline_offset(),
                self.emitted() == old(self).emitted(),
                self.reported() == old(self).reported(),
            decreases src.len() - self.cursor(),
        {
            if self.pos >= self.source.len() {
                break;
            }
            let ch = self.source[self.pos];
            if !is_alpha_exec(ch) {
                break;
            }
            let ghost p = self.pos as int;
            push_char(text, ch);
            self.pos = self.pos + 1;
            proof {
                assert(src.subrange(s0, p + 1) =~= src.subrange(s0, p).push(src[p]));
                assert(text@ =~= t0 + src.subrange(s0, p + 1));
            }
        }
    }

    /// Builds the token for a finished identifier-or-keyword run starting
    /// at `index`: the keyword's kind on an exact table hit, `Identifier`
    /// otherwise, positioned at the run's first character.
    fn get_keyword(&self, text: &String, index: usize) -> (t: Token)
        requires
            self.wf(),
            self.newline_offset() <= index,
        ensures
            t@ == (SpecToken {
                kind: keyword_kind(text@),
                lexeme: text@,
                line: self.line_at(),
                col: index - self.newline_offset(),
            }),
    {
        let kind = keyword_lookup(text);
        Token::new(kind, text, self.line, index - self.last_newline)
    }

    /// Classifies exactly one lexical unit at the cursor and advances past
    /// it: the unit joins the pending output unless it is whitespace or a
    /// comment, and an invalid unit also reports one diagnostic. One
    /// dispatch step of the model.
    fn scan_token(&mut self)
        requires
            old(self).wf(),
            old(self).cursor() < old(self).src().len(),
        ensures
            final(self).wf(),
            final(self).src() == old(self).src(),
            ({
                let step = scan_step(
                    old(self).src(),
                    old(self).cursor(),
                    old(self).line_at(),
                    old(self).newline_offset(),
                );
                &&& final(self).cursor() == step.pos
                &&& final(self).line_at() == step.line
                &&& final(self).newline_offset() == step.last_nl
                &&& final(self).emitted() == (if is_kept(step.token.kind) {
                    old(self).emitted().push(step.token)
                } else {
                    old(self).emitted()
                })
                &&& final(self).reported() == (match step.error {
                    Some(e) => old(self).reported().push(e),
                    None => old(self).reported(),
                })
            }),
    {
        let ghost src = self.source@;
        let ghost p0 = self.pos as int;
        let ghost l0 = self.line as int;
        let ghost nl0 = self.last_newline as int;
        let ghost step = scan_step(src, p0, l0, nl0);
        proof {
            lemma_scan_step_wf(src, p0, l0, nl0);
        }
        let c = self.source[self.pos];
        let col = self.pos - self.last_newline;
        let start = self.pos;
        if let Some(kind) = punct_token_kind(c) {
            let lexeme = char_to_string(c);
            let token = Token::new(kind, &lexeme, self.line, col);
            self.pos = start + 1;
            proof {
                lemma_view_push_token(self.tokens@, token);
                assert(token@ =~= step.token);
            }
            self.tokens.push(token);
        } else if let Some(info) = pair_token_info(c) {
            let (partner, kind_single, kind_pair) = info;
            let two = start + 1 < self.source.len() && self.source[start + 1] == partner;
            if two {
                let mut lexeme = char_to_string(c);
                push_char(&mut lexeme, partner);
                let token = Token::new(kind_pair, &lexeme, self.line, col);
                self.pos = start + 2;
                proof {
                    assert(lexeme@ =~= seq![c, partner]);
                    lemma_view_push_token(self.tokens@, token);
                    assert(token@ =~= step.token);
                }
                self.tokens.push(token);
            } else {
                let lexeme = char_to_string(c);
                let token = Token::new(kind_single, &lexeme, self.line, col);
                self.pos = start + 1;
                proof {
                    lemma_view_push_token(self.tokens@, token);
                    assert(token@ =~= step.token);
                }
                self.tokens.push(token);
            }
        } else if c == '/' {
            let two = start + 1 < self.source.len() && self.source[start + 1] == '/';
            if two {
                // the comment is classified and then dropped: it never
                // reaches the output, so only the cursor moves
                self.pos = start + 2;
                self.skip_to_line_end();
            } else {
                let lexeme = char_to_string(c);
                let token = Token::new(TokenType::Slash, &lexeme, self.line, col);
                self.pos = start + 1;
                proof {
                    lemma_view_push_token(self.tokens@, token);
                    assert(token@ =~= step.token);
                }
                self.tokens.push(token);
            }
        } else if c == '"' {
            let start_line = self.line;
            self.pos = start + 1;
            let (content, terminated) = self.scan_string_body();
            if terminated {
                let token = Token::new(TokenType::String, &content, start_line, col);
                proof {
                    lemma_view_push_token(self.tokens@, token);
                    assert(token@ =~= step.token);
                }
                self.tokens.push(token);
            } else {
                let token = Token::new(TokenType::Invalid, &content, start_line, col);
                let err = RuneError::new(
                    ErrorType::Scanner,
                    start_line,
                    col,
                    "unterminated string",
                );
                proof {
                    lemma_view_push_token(self.tokens@, token);
                    lemma_view_push_error(self.errors@, err);
                    assert(token@ =~= step.token);
                    assert(step.error == Some(err@));
                }
                self.tokens.push(token);
                self.errors.push(err);
            }
        } else if c == '\n' {
            self.last_newline = start;
            self.line = self.line + 1;
            self.pos = start + 1;
        } else if is_blank_exec(c) {
            self.pos = start + 1;
        } else if is_digit_exec(c) {
            let mut lexeme = char_to_string(c);
            self.pos = start + 1;
            self.scan_number_rest(&mut lexeme);
            let token = Token::new(TokenType::Number, &lexeme, self.line, col);
            proof {
                lemma_number_end(src, p0 + 1, false);
                assert(src.subrange(p0, number_end(src, p0 + 1, false)) =~= seq![src[p0]]
                    + src.subrange(p0 + 1, number_end(src, p0 + 1, false)));
                lemma_view_push_token(self.tokens@, token);
                assert(token@ =~= step.token);
            }
            self.tokens.push(token);
        } else if is_alpha_exec(c) {
            let mut text = char_to_string(c);
            self.pos = start + 1;
            self.scan_ident_rest(&mut text);
            let token = self.get_keyword(&text, start);
            proof {
                lemma_ident_end(src, p0 + 1);
                assert(src.subrange(p0, ident_end(src, p0 + 1)) =~= seq![src[p0]] + src.subrange(
                    p0 + 1,
                    ident_end(src, p0 + 1),
                ));
                lemma_view_push_token(self.tokens@, token);
                assert(token@ =~= step.token);
            }
            self.tokens.push(token);
        } else {
            let lexeme = char_to_string(c);
            let token = Token::new(TokenType::Invalid, &lexeme, self.line, col);
            let err = RuneError::new(ErrorType::Scanner, self.line, col, "invalid token");
            self.pos = start + 1;
            proof {
                lemma_view_push_token(self.tokens@, token);
                lemma_view_push_error(self.errors@, err);
                assert(token@ =~= step.token);
                assert(step.error == Some(err@));
            }
            self.tokens.push(token);
            self.errors.push(err);
        }
    }

    /// Runs the scan to completion: classifies lexical units until the
    /// input is exhausted, dropping whitespace and comments, and returns
    /// the tokens that surfaced, closed by one `EOF` sentinel so that a
    /// consumer has an unambiguous end marker. On a fresh scanner the
    /// returned sequence is exactly `scan_spec` of the source plus the
    /// sentinel, and the diagnostics collected are exactly its errors.
    /// The sentinel carries an empty lexeme and stands one past the last
    /// character, on the final line; it marks the end of the delivered
    /// stream and is not part of the pending output.
    pub fn scan_tokens(&mut self) -> (tokens: Vec<Token>)
        requires
            old(self).wf(),
        ensures
            final(self).wf(),
            final(self).src() == old(self).src(),
            final(self).done(),
            final(self).emitted() == old(self).emitted() + scan_from(
                old(self).src(),
                old(self).cursor(),
                old(self).line_at(),
                old(self).newline_offset(),
            ).tokens,
            final(self).reported() == old(self).reported() + scan_from(
                old(self).src(),
                old(self).cursor(),
                old(self).line_at(),
                old(self).newline_offset(),
            ).errors,
            final(self).line_at() == old(self).line_at() + newline_count(
                old(self).src(),
                old(self).cursor(),
                old(self).src().len() as int,
            ),
            final(self).newline_offset() == last_newline_in(
                old(self).src(),
                old(self).cursor(),
                old(self).src().len() as int,
                old(self).newline_offset(),
            ),
            tokens@.map_values(|t: Token| t@) == final(self).emitted().push(
                SpecToken {
                    kind: TokenType::EOF,
                    lexeme: Seq::<char>::empty(),
                    line: final(self).line_at(),
                    col: final(self).cursor() - final(self).newline_offset(),
                },
            ),
    {
        let ghost src = self.source@;
        let ghost p0 = self.pos as int;
        let ghost l0 = self.line as int;
        let ghost nl0 = self.last_newline as int;
        let ghost full = scan_from(src, p0, l0, nl0);
        let ghost toks0 = self.emitted();
        let ghost errs0 = self.reported();
        loop
            invariant
                self.wf(),
                self.src() == src,
                toks0 + full.tokens == self.emitted() + scan_from(
                    src,
                    self.cursor(),
                    self.line_at(),
                    self.newline_offset(),
                ).tokens,
                errs0 + full.errors == self.reported() + scan_from(
                    src,
                    self.cursor(),
                    self.line_at(),
                    self.newline_offset(),
                ).errors,
                0 <= p0 <= self.cursor(),
                self.line_at() == l0 + newline_count(src, p0, self.cursor()),
                self.newline_offset() == last_newline_in(src, p0, self.cursor(), nl0),
            ensures
                self.wf(),
                self.src() == src,
                self.cursor() == src.len(),
                self.line_at() == l0 + newline_count(src, p0, self.cursor()),
                self.newline_offset() == last_newline_in(src, p0, self.cursor(), nl0),
                toks0 + full.tokens == self.emitted() + scan_from(
                    src,
                    self.cursor(),
                    self.line_at(),
                    self.newline_offset(),
                ).tokens,
                errs0 + full.errors == self.reported() + scan_from(
                    src,
                    self.cursor(),
                    self.line_at(),
                    self.newline_offset(),
                ).errors,
            decreases src.len() - self.cursor(),
        {
            if self.is_at_end() {
                break;
            }
            let ghost p1 = self.pos as int;
            let ghost l1 = self.line as int;
            let ghost n1 = self.last_newline as int;
            let ghost st = scan_step(src, p1, l1, n1);
            let ghost toks1 = self.emitted();
            let ghost errs1 = self.reported();
            self.scan_token();
            proof {
                lemma_scan_step_bounds(src, p1, l1, n1);
                lemma_scan_step_lines(src, p1, l1, n1);
                lemma_newline_count_split(src, p0, p1, st.pos);
                lemma_last_newline_split(src, p0, p1, st.pos, nl0);
                let rest = scan_from(src, st.pos, st.line, st.last_nl);
                if is_kept(st.token.kind) {
                    assert(toks1.push(st.token) + rest.tokens =~= toks1 + (seq![st.token]
                        + rest.tokens));
                }
                match st.error {
                    Some(e) => {
                        assert(errs1.push(e) + rest.errors =~= errs1 + (seq![e] + rest.errors));
                    },
                    None => {},
                }
            }
        }
        proof {
            assert(self.emitted() + scan_from(
                src,
                self.cursor(),
                self.line_at(),
                self.newline_offset(),
            ).tokens =~= self.emitted());
            assert(self.reported() + scan_from(
                src,
                self.cursor(),
                self.line_at(),
                self.newline_offset(),
            ).errors =~= self.reported());
        }
        let mut out = self.tokens.clone();
        proof {
            assert forall|i: int| 0 <= i < self.tokens@.len() implies out@[i]
                == self.tokens@[i] by {}
            assert(out@ =~= self.tokens@);
        }
        let empty_lexeme = String::new();
        let col = self.pos - self.last_newline;
        let eof_token = Token::new(TokenType::EOF, &empty_lexeme, self.line, col);
        proof {
            lemma_view_push_token(out@, eof_token);
            assert(eof_token@ =~= (SpecToken {
                kind: TokenType::EOF,
                lexeme: Seq::<char>::empty(),
                line: self.line as int,
                col: self.pos - self.last_newline,
            }));
        }
        out.push(eof_token);
        out
    }

    /// The diagnostics collected so far, for the external error sink.
    pub fn errors(&self) -> (r: &Vec<RuneError>)
        ensures
            r@.map_values(|e: RuneError| e@) == self.reported(),
    {
        &self.errors
    }
}

} // verus!
