use oli::expression::Expression;
use oli::lexer::Lexer;
use oli::parser::Parser;
use oli::token::{LiteralValue, Token, TokenType};

fn token(token_type: TokenType, lexeme: &str, literal: Option<LiteralValue>) -> Token {
    Token { token_type, lexeme: lexeme.to_string(), literal, line_number: 0 }
}

fn parse_source(source: &str) -> Result<Expression, String> {
    let mut lexer = Lexer::new(source);
    let tokens = lexer.scan_tokens().unwrap();
    let mut parser = Parser::new(tokens);
    parser.parse()
}

fn render(source: &str) -> String {
    parse_source(source).unwrap().to_string()
}

fn parse_error(source: &str) -> String {
    match parse_source(source) {
        Err(msg) => msg,
        Ok(e) => panic!("unexpected expression {}", e.to_string()),
    }
}

#[test]
fn test_addition() {
    let one = token(TokenType::Number, "1", Some(LiteralValue::IntValue(1)));
    let two = token(TokenType::Number, "2", Some(LiteralValue::IntValue(2)));
    let plus = token(TokenType::Plus, "+", None);
    let semi_colon = token(TokenType::SemiColon, ";", None);
    let tokens = vec![one, plus, two, semi_colon];
    let mut parser = Parser::new(tokens);
    let parsed_expression = parser.parse().unwrap();
    let string_expression = parsed_expression.to_string();
    assert_eq!(string_expression, "(+ 1 2)");
}

#[test]
fn test_comparison() {
    let source = "1 + 2 == 5 + 7";
    let mut lexer = Lexer::new(source);
    let tokens = lexer.scan_tokens().unwrap();
    let mut parser = Parser::new(tokens);
    let parsed_expression = parser.parse().unwrap();
    let string_expression = parsed_expression.to_string();
    assert_eq!(string_expression, "(== (+ 1 2) (+ 5 7))");
}

#[test]
fn test_eq_with_paren() {
    let source = "1 == (2 + 2);";
    let mut lexer = Lexer::new(source);
    let tokens = lexer.scan_tokens().unwrap();
    let mut parser = Parser::new(tokens);
    let parsed_expression = parser.parse().unwrap();
    let string_expression = parsed_expression.to_string();
    assert_eq!(string_expression, "(== 1 (group (+ 2 2)))");
}

#[test]
fn operators_chain_to_the_left() {
    assert_eq!(render("1 - 2 - 3"), "(- (- 1 2) 3)");
    assert_eq!(render("8 / 4 * 2"), "(* (/ 8 4) 2)");
    assert_eq!(render("1 < 2 <= 3"), "(<= (< 1 2) 3)");
    assert_eq!(render("1 == 2 != 3"), "(!= (== 1 2) 3)");
}

#[test]
fn precedence_levels_nest() {
    assert_eq!(render("1 + 2 * 3 > 4 == True"), "(== (> (+ 1 (* 2 3)) 4) True)");
    assert_eq!(render("1 * 2 + 3"), "(+ (* 1 2) 3)");
}

#[test]
fn groups_are_kept() {
    assert_eq!(render("(1 + 2) * 3"), "(* (group (+ 1 2)) 3)");
    assert_eq!(render("((Nil))"), "(group (group Nil))");
}

#[test]
fn prefix_operators() {
    assert_eq!(render("!!True"), "(! (! True))");
    assert_eq!(render("!= 1"), "(!= 1)");
    assert_eq!(render("!False == \"s\""), "(== (! False) s)");
}

#[test]
fn literals_render() {
    assert_eq!(render("2.50"), "2.5");
    assert_eq!(render("3.0"), "3");
    assert_eq!(render("\"hi there\""), "hi there");
}

#[test]
fn trailing_operator_is_an_error() {
    assert_eq!(parse_error("1 +"), "Expected expression");
    assert_eq!(parse_error("1 *"), "Expected expression");
    assert_eq!(parse_error("1 =="), "Expected expression");
    assert_eq!(parse_error("1 <"), "Expected expression");
}

#[test]
fn unclosed_group_is_an_error() {
    assert_eq!(parse_error("(1 + 2"), "Expected ')'");
    assert_eq!(parse_error("(1 2)"), "Expected ')'");
}

#[test]
fn empty_input_is_an_error() {
    assert_eq!(parse_error(""), "Expected expression");
    assert_eq!(parse_error("var"), "Expected expression");
}

#[test]
fn parsing_stops_before_unused_tokens() {
    assert_eq!(render("1 2"), "1");
}

#[test]
fn hand_built_tokens_without_end_marker() {
    let tokens = vec![
        token(TokenType::Minus, "-", None),
        token(TokenType::Number, "4", Some(LiteralValue::IntValue(-4))),
    ];
    let mut parser = Parser::new(tokens);
    assert_eq!(parser.parse().unwrap_err(), "Expected expression");

    let tokens = vec![token(TokenType::Number, "4", Some(LiteralValue::IntValue(-4)))];
    let mut parser = Parser::new(tokens);
    assert_eq!(parser.parse().unwrap().to_string(), "-4");
}

#[test]
fn synchronize_skips_to_statement_boundary() {
    let mut lexer = Lexer::new("+ 1; 2");
    let tokens = lexer.scan_tokens().unwrap();
    let mut parser = Parser::new(tokens);
    assert_eq!(parser.parse().unwrap_err(), "Expected expression");
    parser.synchronize();
    assert_eq!(parser.parse().unwrap().to_string(), "2");

    let mut lexer = Lexer::new("+ 1 var");
    let tokens = lexer.scan_tokens().unwrap();
    let mut parser = Parser::new(tokens);
    assert!(parser.parse().is_err());
    parser.synchronize();
    assert_eq!(parser.parse().unwrap_err(), "Expected expression");
}
