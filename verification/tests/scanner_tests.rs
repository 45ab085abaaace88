use rune::error::ErrorType;
use rune::scanner::Scanner;
use rune::token::{Token, TokenType};

fn scan(source: &str) -> Vec<Token> {
    let mut scanner = Scanner::new(source);
    scanner.scan_tokens()
}

#[test]
fn it_works() {
    let test_input = "abcdefg=hi+jk".to_string();
    let mut scanner = Scanner::new(&test_input);
    scanner.scan_tokens();
    assert_eq!(4, 2 * 2);
}

#[test]
fn single_punct_round_trip() {
    let cases: Vec<(&str, TokenType)> = vec![
        ("(", TokenType::LeftParen),
        (")", TokenType::RightParen),
        ("{", TokenType::LeftBrace),
        ("}", TokenType::RightBrace),
        (",", TokenType::Comma),
        (".", TokenType::Dot),
        ("+", TokenType::Plus),
        ("-", TokenType::Minus),
        (";", TokenType::Semicolon),
    ];
    for (source, kind) in cases {
        let tokens = scan(source);
        assert_eq!(tokens.len(), 2);
        assert_eq!(tokens[0].token_type, kind);
        assert_eq!(tokens[0].lexeme, source);
        assert_eq!(tokens[0].line, 1);
        assert_eq!(tokens[0].col, 0);
        assert_eq!(tokens[1].token_type, TokenType::EOF);
    }
}

#[test]
fn equal_equal_is_one_token() {
    let tokens = scan("==");
    assert_eq!(tokens.len(), 2);
    assert_eq!(tokens[0].token_type, TokenType::EqualEqual);
    assert_eq!(tokens[0].lexeme, "==");
    assert_eq!(tokens[1].token_type, TokenType::EOF);
}

#[test]
fn equal_then_other_continues() {
    let tokens = scan("=a");
    assert_eq!(tokens.len(), 3);
    assert_eq!(tokens[0].token_type, TokenType::Equal);
    assert_eq!(tokens[0].lexeme, "=");
    assert_eq!(tokens[1].token_type, TokenType::Identifier);
    assert_eq!(tokens[1].lexeme, "a");
    assert_eq!(tokens[1].col, 1);
    assert_eq!(tokens[2].token_type, TokenType::EOF);
}

#[test]
fn two_character_operators() {
    let cases: Vec<(&str, TokenType)> = vec![
        ("!=", TokenType::BangEqual),
        (">=", TokenType::GreaterEqual),
        ("<=", TokenType::LessEqual),
        ("**", TokenType::StarStar),
    ];
    for (source, kind) in cases {
        let tokens = scan(source);
        assert_eq!(tokens.len(), 2);
        assert_eq!(tokens[0].token_type, kind);
        assert_eq!(tokens[0].lexeme, source);
        assert_eq!(tokens[1].token_type, TokenType::EOF);
    }
}

#[test]
fn single_character_operators() {
    let cases: Vec<(&str, TokenType)> = vec![
        ("!", TokenType::Bang),
        (">", TokenType::Greater),
        ("<", TokenType::Less),
        ("*", TokenType::Star),
        ("=", TokenType::Equal),
        ("/", TokenType::Slash),
    ];
    for (source, kind) in cases {
        let tokens = scan(source);
        assert_eq!(tokens.len(), 2);
        assert_eq!(tokens[0].token_type, kind);
        assert_eq!(tokens[0].lexeme, source);
        assert_eq!(tokens[1].token_type, TokenType::EOF);
    }
}

#[test]
fn string_literal() {
    let tokens = scan("\"hi\"");
    assert_eq!(tokens.len(), 2);
    assert_eq!(tokens[0].token_type, TokenType::String);
    assert_eq!(tokens[0].lexeme, "hi");
    assert_eq!(tokens[0].line, 1);
    assert_eq!(tokens[0].col, 0);
    assert_eq!(tokens[1].token_type, TokenType::EOF);
}

#[test]
fn unterminated_string_is_recoverable() {
    let mut scanner = Scanner::new("\"hi");
    let tokens = scanner.scan_tokens();
    assert_eq!(tokens.len(), 2);
    assert_eq!(tokens[0].token_type, TokenType::Invalid);
    assert_eq!(tokens[0].lexeme, "hi");
    assert_eq!(tokens[1].token_type, TokenType::EOF);
    let errors = scanner.errors();
    assert_eq!(errors.len(), 1);
    assert_eq!(errors[0].error_type, ErrorType::Scanner);
    assert_eq!(errors[0].message, "unterminated string");
    assert_eq!(errors[0].line, 1);
    assert_eq!(errors[0].column, 0);
}

#[test]
fn multi_line_string_tracks_lines() {
    let tokens = scan("\"a\nb\"c");
    assert_eq!(tokens.len(), 3);
    assert_eq!(tokens[0].token_type, TokenType::String);
    assert_eq!(tokens[0].lexeme, "a\nb");
    assert_eq!(tokens[0].line, 1);
    assert_eq!(tokens[1].token_type, TokenType::Identifier);
    assert_eq!(tokens[1].lexeme, "c");
    assert_eq!(tokens[1].line, 2);
    assert_eq!(tokens[1].col, 3);
    assert_eq!(tokens[2].token_type, TokenType::EOF);
    assert_eq!(tokens[2].line, 2);
    assert_eq!(tokens[2].col, 4);
}

#[test]
fn number_literal() {
    let tokens = scan("3.14");
    assert_eq!(tokens.len(), 2);
    assert_eq!(tokens[0].token_type, TokenType::Number);
    assert_eq!(tokens[0].lexeme, "3.14");
}

#[test]
fn number_stops_at_second_dot() {
    let tokens = scan("3.14.5");
    assert_eq!(tokens.len(), 4);
    assert_eq!(tokens[0].token_type, TokenType::Number);
    assert_eq!(tokens[0].lexeme, "3.14");
    assert_eq!(tokens[1].token_type, TokenType::Dot);
    assert_eq!(tokens[2].token_type, TokenType::Number);
    assert_eq!(tokens[2].lexeme, "5");
    assert_eq!(tokens[3].token_type, TokenType::EOF);
}

#[test]
fn single_digit_number() {
    let tokens = scan("7");
    assert_eq!(tokens.len(), 2);
    assert_eq!(tokens[0].token_type, TokenType::Number);
    assert_eq!(tokens[0].lexeme, "7");
}

#[test]
fn trailing_dot_stays_in_number() {
    let tokens = scan("5.");
    assert_eq!(tokens.len(), 2);
    assert_eq!(tokens[0].token_type, TokenType::Number);
    assert_eq!(tokens[0].lexeme, "5.");
}

#[test]
fn keyword_for_vs_identifier_forx() {
    let tokens = scan("for");
    assert_eq!(tokens.len(), 2);
    assert_eq!(tokens[0].token_type, TokenType::For);
    let tokens = scan("forx");
    assert_eq!(tokens.len(), 2);
    assert_eq!(tokens[0].token_type, TokenType::Identifier);
    assert_eq!(tokens[0].lexeme, "forx");
}

#[test]
fn all_keywords_hit_the_table() {
    let cases: Vec<(&str, TokenType)> = vec![
        ("and", TokenType::And),
        ("class", TokenType::Class),
        ("else", TokenType::Else),
        ("false", TokenType::False),
        ("fn", TokenType::Fn),
        ("for", TokenType::For),
        ("if", TokenType::If),
        ("nil", TokenType::Nil),
        ("or", TokenType::Or),
        ("print", TokenType::Print),
        ("return", TokenType::Return),
        ("super", TokenType::Super),
        ("this", TokenType::This),
        ("true", TokenType::True),
        ("var", TokenType::Var),
        ("while", TokenType::While),
    ];
    for (source, kind) in cases {
        let tokens = scan(source);
        assert_eq!(tokens.len(), 2);
        assert_eq!(tokens[0].token_type, kind);
        assert_eq!(tokens[0].lexeme, source);
    }
}

#[test]
fn comment_and_whitespace_suppressed() {
    let tokens = scan("a // comment\nb");
    assert_eq!(tokens.len(), 3);
    assert_eq!(tokens[0].token_type, TokenType::Identifier);
    assert_eq!(tokens[0].lexeme, "a");
    assert_eq!(tokens[0].line, 1);
    assert_eq!(tokens[1].token_type, TokenType::Identifier);
    assert_eq!(tokens[1].lexeme, "b");
    assert_eq!(tokens[1].line, 2);
    assert_eq!(tokens[2].token_type, TokenType::EOF);
}

#[test]
fn comment_alone_yields_only_the_end_marker() {
    let tokens = scan("// only a comment");
    assert_eq!(tokens.len(), 1);
    assert_eq!(tokens[0].token_type, TokenType::EOF);
}

#[test]
fn whitespace_alone_yields_only_the_end_marker() {
    let tokens = scan(" \r\t");
    assert_eq!(tokens.len(), 1);
    assert_eq!(tokens[0].token_type, TokenType::EOF);
}

#[test]
fn line_tracking() {
    let tokens = scan("a\nb");
    assert_eq!(tokens.len(), 3);
    assert_eq!(tokens[0].lexeme, "a");
    assert_eq!(tokens[0].line, 1);
    assert_eq!(tokens[1].lexeme, "b");
    assert_eq!(tokens[1].line, 2);
}

#[test]
fn invalid_character_reports_diagnostic() {
    let mut scanner = Scanner::new("@");
    let tokens = scanner.scan_tokens();
    assert_eq!(tokens.len(), 2);
    assert_eq!(tokens[0].token_type, TokenType::Invalid);
    assert_eq!(tokens[0].lexeme, "@");
    let errors = scanner.errors();
    assert_eq!(errors.len(), 1);
    assert_eq!(errors[0].error_type, ErrorType::Scanner);
    assert_eq!(errors[0].message, "invalid token");
    assert_eq!(errors[0].line, 1);
    assert_eq!(errors[0].column, 0);
}

#[test]
fn scanning_continues_after_invalid_character() {
    let tokens = scan("@+");
    assert_eq!(tokens.len(), 3);
    assert_eq!(tokens[0].token_type, TokenType::Invalid);
    assert_eq!(tokens[1].token_type, TokenType::Plus);
    assert_eq!(tokens[2].token_type, TokenType::EOF);
}

#[test]
fn scanning_twice_yields_identical_sequences() {
    let source = "var x = 3.14; // pi\nprint \"x\" == x";
    let first = scan(source);
    let second = scan(source);
    assert_eq!(first, second);
}

#[test]
fn output_no_longer_than_input() {
    // the length bound reads over the scanned tokens; the one sentinel
    // closing the sequence stands outside it
    let sources: Vec<&str> = vec![
        "",
        "(",
        "var x = 1;",
        "\"unterminated",
        "a // comment\nb",
        "@#$%",
    ];
    for source in sources {
        let tokens = scan(source);
        assert!(tokens.len() - 1 <= source.chars().count());
        assert_eq!(tokens[tokens.len() - 1].token_type, TokenType::EOF);
    }
}

#[test]
fn empty_input_yields_only_the_end_marker() {
    let tokens = scan("");
    assert_eq!(tokens.len(), 1);
    assert_eq!(tokens[0].token_type, TokenType::EOF);
    assert_eq!(tokens[0].lexeme, "");
    assert_eq!(tokens[0].line, 1);
    assert_eq!(tokens[0].col, 0);
}

#[test]
fn eof_sentinel_is_appended() {
    let tokens = scan("a");
    assert_eq!(tokens.len(), 2);
    assert_eq!(tokens[0].token_type, TokenType::Identifier);
    assert_eq!(tokens[1].token_type, TokenType::EOF);
    assert_eq!(tokens[1].lexeme, "");
    assert_eq!(tokens[1].line, 1);
    assert_eq!(tokens[1].col, 1);
}

#[test]
fn eof_sentinel_stands_exactly_once_at_the_end() {
    let tokens = scan("var x = 1; // set\n\"s\" 2.5 @");
    let sentinel_count = tokens
        .iter()
        .filter(|t| t.token_type == TokenType::EOF)
        .count();
    assert_eq!(sentinel_count, 1);
    assert_eq!(tokens[tokens.len() - 1].token_type, TokenType::EOF);
}

#[test]
fn mixed_statement() {
    let tokens = scan("var answer = 42;");
    let kinds: Vec<TokenType> = tokens.iter().map(|t| t.token_type).collect();
    assert_eq!(
        kinds,
        vec![
            TokenType::Var,
            TokenType::Identifier,
            TokenType::Equal,
            TokenType::Number,
            TokenType::Semicolon,
            TokenType::EOF,
        ]
    );
    assert_eq!(tokens[1].lexeme, "answer");
    assert_eq!(tokens[3].lexeme, "42");
    assert_eq!(tokens[4].col, 15);
}

#[test]
fn columns_count_from_line_start() {
    let tokens = scan("( )\n(");
    assert_eq!(tokens.len(), 4);
    assert_eq!(tokens[0].col, 0);
    assert_eq!(tokens[1].col, 2);
    assert_eq!(tokens[2].line, 2);
    // the newline itself is the reference offset, so the next line's
    // first character stands one past it
    assert_eq!(tokens[2].col, 1);
    assert_eq!(tokens[3].token_type, TokenType::EOF);
    assert_eq!(tokens[3].line, 2);
    assert_eq!(tokens[3].col, 2);
}
