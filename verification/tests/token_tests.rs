use rune::token::{Token, TokenType};

#[test]
fn build_token() {
    let raw_string = String::from("54");
    let row: usize = 3;
    let column: usize = 5;
    let token = Token::new(TokenType::String, &raw_string, row, column);

    assert_eq!(token.token_type, TokenType::String);
    assert_eq!(token.lexeme, raw_string);
    assert_eq!(token.line, row);
    assert_eq!(token.col, column);
}

#[test]
fn token_clone_keeps_fields() {
    let lexeme = String::from("while");
    let token = Token::new(TokenType::While, &lexeme, 7, 2);
    let copy = token.clone();
    assert_eq!(copy, token);
}

#[test]
fn render_reproduces_every_field() {
    let lexeme = String::from("54");
    let token = Token::new(TokenType::String, &lexeme, 3, 5);
    assert_eq!(
        token.render(),
        "Token: { type: String, lexeme: \"54\", line: 3, col: 5}"
    );
}

#[test]
fn render_spells_multi_digit_positions() {
    let lexeme = String::from("==");
    let token = Token::new(TokenType::EqualEqual, &lexeme, 120, 40);
    assert_eq!(
        token.render(),
        "Token: { type: EqualEqual, lexeme: \"==\", line: 120, col: 40}"
    );
}
