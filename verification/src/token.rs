//! The token model: the closed set of lexical categories, the token record
//! carrying source position, and the fixed keyword table.

use vstd::prelude::*;

verus! {

/// The closed set of lexical categories, one variant per category.
#[derive(Debug, Clone, Copy, PartialEq, Eq, Structural)]
pub enum TokenType {
    // One character
    LeftParen,
    RightParen,
    LeftBrace,
    RightBrace,
    Comma,
    Dot,
    Plus,
    Minus,
    Semicolon,
    Slash,
    // One to two characters
    Bang,
    BangEqual,
    Equal,
    EqualEqual,
    Greater,
    GreaterEqual,
    Less,
    LessEqual,
    Star,
    StarStar,
    // Literals
    Identifier,
    String,
    Number,
    // Keywords
    And,
    Class,
    Else,
    False,
    Fn,
    For,
    If,
    Nil,
    Or,
    Print,
    Return,
    Super,
    This,
    True,
    Var,
    While,
    // Structural / meta
    Whitespace,
    Comment,
    EOF,
    Invalid,
}

/// The mathematical model of a token: its category, the exact source
/// characters of its lexeme, and the line and column where it started.
#[verifier::ext_equal]
pub struct SpecToken {
    pub kind: TokenType,
    pub lexeme: Seq<char>,
    pub line: int,
    pub col: int,
}

/// A classified, positioned unit of lexical input. Immutable once built:
/// every field is set at construction and never changed.
#[derive(Debug, PartialEq)]
pub struct Token {
    pub token_type: TokenType,
    pub lexeme: String,
    pub line: usize,
    pub col: usize,
}

impl View for Token {
    type V = SpecToken;

    open spec fn view(&self) -> SpecToken {
        SpecToken {
            kind: self.token_type,
            lexeme: self.lexeme@,
            line: self.line as int,
            col: self.col as int,
        }
    }
}

impl Clone for Token {
    fn clone(&self) -> (res: Token)
        ensures
            res == *self,
    {
        Token {
            token_type: self.token_type,
            lexeme: self.lexeme.clone(),
            line: self.line,
            col: self.col,
        }
    }
}

impl Token {
    /// Builds a token from its four fields, accepting any text as lexeme:
    /// the scanner guarantees well-formedness.
    pub fn new(token_type: TokenType, lexeme: &String, line: usize, col: usize) -> (t: Token)
        ensures
            t.token_type == token_type,
            t.lexeme@ == lexeme@,
            t.line == line,
            t.col == col,
    {
        Token { token_type, lexeme: lexeme.clone(), line, col }
    }

    /// Renders the token for diagnostics, reproducing kind, lexeme, line
    /// and column: `Token: { type: <kind>, lexeme: "<text>", line: <n>,
    /// col: <n>}`.
    pub fn render(&self) -> (s: String)
        ensures
            s@ == "Token: { type: "@ + kind_name(self.token_type) + ", lexeme: \""@
                + self.lexeme@ + "\", line: "@ + dec_rep(self.line as int) + ", col: "@ + dec_rep(
                self.col as int,
            ) + "}"@,
    {
        let mut s = String::from_str("Token: { type: ");
        let label = kind_label(self.token_type);
        s.append(label.as_str());
        s.append(", lexeme: \"");
        s.append(self.lexeme.as_str());
        s.append("\", line: ");
        let line_text = decimal(self.line);
        s.append(line_text.as_str());
        s.append(", col: ");
        let col_text = decimal(self.col);
        s.append(col_text.as_str());
        s.append("}");
        s
    }
}

// ---------------------------------------------------------------------------
// String building
// ---------------------------------------------------------------------------
/// Relies on `String::push`: appends one character at the end of the string.
#[verifier::external_body]
pub(crate) fn push_char(s: &mut String, c: char)
    ensures
        final(s)@ == old(s)@.push(c),
{
    s.push(c);
}

/// A fresh one-character string.
pub(crate) fn char_to_string(c: char) -> (s: String)
    ensures
        s@ == seq![c],
{
    let mut s = String::new();
    push_char(&mut s, c);
    proof {
        assert(s@ =~= seq![c]);
    }
    s
}

// ---------------------------------------------------------------------------
// Diagnostic spelling
// ---------------------------------------------------------------------------
/// The printed name of a lexical category, as diagnostics spell it.
pub open spec fn kind_name(kind: TokenType) -> Seq<char> {
    match kind {
        TokenType::LeftParen => "LeftParen"@,
        TokenType::RightParen => "RightParen"@,
        TokenType::LeftBrace => "LeftBrace"@,
        TokenType::RightBrace => "RightBrace"@,
        TokenType::Comma => "Comma"@,
        TokenType::Dot => "Dot"@,
        TokenType::Plus => "Plus"@,
        TokenType::Minus => "Minus"@,
        TokenType::Semicolon => "Semicolon"@,
        TokenType::Slash => "Slash"@,
        TokenType::Bang => "Bang"@,
        TokenType::BangEqual => "BangEqual"@,
        TokenType::Equal => "Equal"@,
        TokenType::EqualEqual => "EqualEqual"@,
        TokenType::Greater => "Greater"@,
        TokenType::GreaterEqual => "GreaterEqual"@,
        TokenType::Less => "Less"@,
        TokenType::LessEqual => "LessEqual"@,
        TokenType::Star => "Star"@,
        TokenType::StarStar => "StarStar"@,
        TokenType::Identifier => "Identifier"@,
        TokenType::String => "String"@,
        TokenType::Number => "Number"@,
        TokenType::And => "And"@,
        TokenType::Class => "Class"@,
        TokenType::Else => "Else"@,
        TokenType::False => "False"@,
        TokenType::Fn => "Fn"@,
        TokenType::For => "For"@,
        TokenType::If => "If"@,
        TokenType::Nil => "Nil"@,
        TokenType::Or => "Or"@,
        TokenType::Print => "Print"@,
        TokenType::Return => "Return"@,
        TokenType::Super => "Super"@,
        TokenType::This => "This"@,
        TokenType::True => "True"@,
        TokenType::Var => "Var"@,
        TokenType::While => "While"@,
        TokenType::Whitespace => "Whitespace"@,
        TokenType::Comment => "Comment"@,
        TokenType::EOF => "EOF"@,
        TokenType::Invalid => "Invalid"@,
    }
}

/// The printed name of a lexical category, as a fresh string.
fn kind_label(kind: TokenType) -> (s: String)
    ensures
        s@ == kind_name(kind),
{
    match kind {
        TokenType::LeftParen => String::from_str("LeftParen"),
        TokenType::RightParen => String::from_str("RightParen"),
        TokenType::LeftBrace => String::from_str("LeftBrace"),
        TokenType::RightBrace => String::from_str("RightBrace"),
        TokenType::Comma => String::from_str("Comma"),
        TokenType::Dot => String::from_str("Dot"),
        TokenType::Plus => String::from_str("Plus"),
        TokenType::Minus => String::from_str("Minus"),
        TokenType::Semicolon => String::from_str("Semicolon"),
        TokenType::Slash => String::from_str("Slash"),
        TokenType::Bang => String::from_str("Bang"),
        TokenType::BangEqual => String::from_str("BangEqual"),
        TokenType::Equal => String::from_str("Equal"),
        TokenType::EqualEqual => String::from_str("EqualEqual"),
        TokenType::Greater => String::from_str("Greater"),
        TokenType::GreaterEqual => String::from_str("GreaterEqual"),
        TokenType::Less => String::from_str("Less"),
        TokenType::LessEqual => String::from_str("LessEqual"),
        TokenType::Star => String::from_str("Star"),
        TokenType::StarStar => String::from_str("StarStar"),
        TokenType::Identifier => String::from_str("Identifier"),
        TokenType::String => String::from_str("String"),
        TokenType::Number => String::from_str("Number"),
        TokenType::And => String::from_str("And"),
        TokenType::Class => String::from_str("Class"),
        TokenType::Else => String::from_str("Else"),
        TokenType::False => String::from_str("False"),
        TokenType::Fn => String::from_str("Fn"),
        TokenType::For => String::from_str("For"),
        TokenType::If => String::from_str("If"),
        TokenType::Nil => String::from_str("Nil"),
        TokenType::Or => String::from_str("Or"),
        TokenType::Print => String::from_str("Print"),
        TokenType::Return => String::from_str("Return"),
        TokenType::Super => String::from_str("Super"),
        TokenType::This => String::from_str("This"),
        TokenType::True => String::from_str("True"),
        TokenType::Var => String::from_str("Var"),
        TokenType::While => String::from_str("While"),
        TokenType::Whitespace => String::from_str("Whitespace"),
        TokenType::Comment => String::from_str("Comment"),
        TokenType::EOF => String::from_str("EOF"),
        TokenType::Invalid => String::from_str("Invalid"),
    }
}

/// The character of one decimal digit.
pub open spec fn digit_char(d: int) -> char {
    if d == 0 {
        '0'
    } else if d == 1 {
        '1'
    } else if d == 2 {
        '2'
    } else if d == 3 {
        '3'
    } else if d == 4 {
        '4'
    } else if d == 5 {
        '5'
    } else if d == 6 {
        '6'
    } else if d == 7 {
        '7'
    } else if d == 8 {
        '8'
    } else {
        '9'
    }
}

/// The decimal spelling of a number, most significant digit first.
pub open spec fn dec_rep(n: int) -> Seq<char>
    decreases n,
{
    if n < 10 {
        seq![digit_char(n)]
    } else {
        dec_rep(n / 10).push(digit_char(n % 10))
    }
}

/// One decimal digit as a character.
fn digit_of(d: usize) -> (c: char)
    requires
        d < 10,
    ensures
        c == digit_char(d as int),
{
    match d {
        0 => '0',
        1 => '1',
        2 => '2',
        3 => '3',
        4 => '4',
        5 => '5',
        6 => '6',
        7 => '7',
        8 => '8',
        _ => '9',
    }
}

/// The decimal spelling of a number, as a fresh string.
fn decimal(n: usize) -> (s: String)
    ensures
        s@ == dec_rep(n as int),
    decreases n,
{
    if n < 10 {
        char_to_string(digit_of(n))
    } else {
        let mut s = decimal(n / 10);
        push_char(&mut s, digit_of(n % 10));
        s
    }
}

/// The fixed keyword table as a mapping from exact lexeme text to category:
/// case-sensitive, exact match only, and `Identifier` for everything else.
pub open spec fn keyword_kind(lex: Seq<char>) -> TokenType {
    if lex == "and"@ {
        TokenType::And
    } else if lex == "class"@ {
        TokenType::Class
    } else if lex == "else"@ {
        TokenType::Else
    } else if lex == "false"@ {
        TokenType::False
    } else if lex == "fn"@ {
        TokenType::Fn
    } else if lex == "for"@ {
        TokenType::For
    } else if lex == "if"@ {
        TokenType::If
    } else if lex == "nil"@ {
        TokenType::Nil
    } else if lex == "or"@ {
        TokenType::Or
    } else if lex == "print"@ {
        TokenType::Print
    } else if lex == "return"@ {
        TokenType::Return
    } else if lex == "super"@ {
        TokenType::Super
    } else if lex == "this"@ {
        TokenType::This
    } else if lex == "true"@ {
        TokenType::True
    } else if lex == "var"@ {
        TokenType::Var
    } else if lex == "while"@ {
        TokenType::While
    } else {
        TokenType::Identifier
    }
}

/// Looks the text up in the keyword table: the keyword's category on an
/// exact hit, `Identifier` otherwise.
pub fn keyword_lookup(text: &String) -> (kind: TokenType)
    ensures
        kind == keyword_kind(text@),
{
    if *text == String::from_str("and") {
        TokenType::And
    } else if *text == String::from_str("class") {
        TokenType::Class
    } else if *text == String::from_str("else") {
        TokenType::Else
    } else if *text == String::from_str("false") {
        TokenType::False
    } else if *text == String::from_str("fn") {
        TokenType::Fn
    } else if *text == String::from_str("for") {
        TokenType::For
    } else if *text == String::from_str("if") {
        TokenType::If
    } else if *text == String::from_str("nil") {
        TokenType::Nil
    } else if *text == String::from_str("or") {
        TokenType::Or
    } else if *text == String::from_str("print") {
        TokenType::Print
    } else if *text == String::from_str("return") {
        TokenType::Return
    } else if *text == String::from_str("super") {
        TokenType::Super
    } else if *text == String::from_str("this") {
        TokenType::This
    } else if *text == String::from_str("true") {
        TokenType::True
    } else if *text == String::from_str("var") {
        TokenType::Var
    } else if *text == String::from_str("while") {
        TokenType::While
    } else {
        TokenType::Identifier
    }
}

} // verus!
