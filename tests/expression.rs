use oli::expression::{decimal_string, Expression, LiteralValue};
use oli::token::LiteralValue as TokenLiteral;
use oli::token::{Decimal, Token, TokenType};

#[test]
fn test_pretty_print() {
    let minus_token = Token {
        token_type: TokenType::Minus,
        lexeme: "-".to_string(),
        literal: None,
        line_number: 0,
    };
    let one_two_three = Expression::Literal {
        value: LiteralValue::Number(Decimal { negative: false, digits: "123".to_string(), scale: 0 }),
    };
    let group = Expression::Grouping {
        expression: Box::new(Expression::Literal {
            value: LiteralValue::Number(Decimal {
                negative: false,
                digits: "4567".to_string(),
                scale: 2,
            }),
        }),
    };
    let multi = Token {
        token_type: TokenType::Star,
        lexeme: "*".to_string(),
        literal: None,
        line_number: 0,
    };
    let ast = Expression::Binary {
        left: Box::new(Expression::Unary { operator: minus_token, right: Box::new(one_two_three) }),
        operator: multi,
        right: Box::new(group),
    };

    assert_eq!(ast.to_string(), "(* (- 123) (group 45.67))".to_string())
}

#[test]
fn decimal_forms() {
    let d = |negative: bool, digits: &str, scale: usize| Decimal {
        negative,
        digits: digits.to_string(),
        scale,
    };
    assert_eq!(decimal_string(&d(false, "5", 3)), "0.005");
    assert_eq!(decimal_string(&d(false, "0005", 3)), "0.005");
    assert_eq!(decimal_string(&d(false, "1230", 2)), "12.3");
    assert_eq!(decimal_string(&d(false, "1200", 2)), "12");
    assert_eq!(decimal_string(&d(false, "0", 0)), "0");
    assert_eq!(decimal_string(&d(false, "0000", 4)), "0");
    assert_eq!(decimal_string(&d(true, "000", 1)), "0");
    assert_eq!(decimal_string(&d(false, "007", 0)), "7");
    assert_eq!(decimal_string(&d(true, "7", 0)), "-7");
    assert_eq!(decimal_string(&d(true, "25", 1)), "-2.5");
    assert_eq!(decimal_string(&d(false, "10", 3)), "0.01");
    assert_eq!(
        decimal_string(&d(false, "99999999999999999999", 0)),
        "99999999999999999999"
    );
}

#[test]
fn literal_texts() {
    assert_eq!(LiteralValue::True.to_string(), "True");
    assert_eq!(LiteralValue::False.to_string(), "False");
    assert_eq!(LiteralValue::Nil.to_string(), "Nil");
    assert_eq!(LiteralValue::StringValue("a b".to_string()).to_string(), "a b");
}

#[test]
fn literal_from_tokens() {
    let t = Token {
        token_type: TokenType::Number,
        lexeme: "x".to_string(),
        literal: Some(TokenLiteral::IntValue(i64::MIN)),
        line_number: 1,
    };
    assert_eq!(LiteralValue::from_token(t).to_string(), "-9223372036854775808");
    let t = Token {
        token_type: TokenType::StringLiteral,
        lexeme: "\"q\"".to_string(),
        literal: Some(TokenLiteral::IdentifierValue("q".to_string())),
        line_number: 1,
    };
    assert_eq!(LiteralValue::from_token(t).to_string(), "q");
}
