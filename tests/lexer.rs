use oli::lexer::Lexer;
use oli::token::{Decimal, LiteralValue, TokenType};

fn as_f64(d: &Decimal) -> f64 {
    let v = d.digits.parse::<f64>().unwrap() / 10f64.powi(d.scale as i32);
    if d.negative {
        -v
    } else {
        v
    }
}

#[test]
fn handle_one_char_tokens() {
    let source = "(( )) }{";
    let mut lexer = Lexer::new(source);
    let _ = lexer.scan_tokens();
    let tokens = lexer.tokens();

    assert_eq!(tokens.len(), 7);
    assert_eq!(tokens[0].token_type, TokenType::LeftParen);
    assert_eq!(tokens[1].token_type, TokenType::LeftParen);
    assert_eq!(tokens[2].token_type, TokenType::RightParen);
    assert_eq!(tokens[3].token_type, TokenType::RightParen);
    assert_eq!(tokens[4].token_type, TokenType::RightBrace);
    assert_eq!(tokens[5].token_type, TokenType::LeftBrace);
    assert_eq!(tokens[6].token_type, TokenType::Eof);
}

#[test]
fn handle_two_char_tokens() {
    let source = "! != == >= <=";
    let mut lexer = Lexer::new(source);
    let _ = lexer.scan_tokens();
    let tokens = lexer.tokens();

    assert_eq!(tokens.len(), 6);
    assert_eq!(tokens[0].token_type, TokenType::Bang);
    assert_eq!(tokens[1].token_type, TokenType::BangEqual);
    assert_eq!(tokens[2].token_type, TokenType::EqualEqual);
    assert_eq!(tokens[3].token_type, TokenType::GreaterEqual);
    assert_eq!(tokens[4].token_type, TokenType::LessEqual);
    assert_eq!(tokens[5].token_type, TokenType::Eof);
}

#[test]
fn handle_string_literal() {
    let source = r#""ABC""#;
    let mut lexer = Lexer::new(source);
    let _ = lexer.scan_tokens().unwrap();
    let tokens = lexer.tokens();

    assert_eq!(tokens.len(), 2);
    assert_eq!(tokens[0].token_type, TokenType::StringLiteral);
    assert_eq!(tokens[1].token_type, TokenType::Eof);

    match tokens[0].literal.as_ref().unwrap() {
        LiteralValue::StringValue(val) => assert_eq!(val, "ABC"),
        _ => panic!("Incorrect literal type"),
    }
}

#[test]
fn handle_unterminated_string() {
    let source = r#""ABC"#;
    let mut lexer = Lexer::new(source);
    let result = lexer.scan_tokens();
    match result {
        Err(_) => (),
        _ => panic!("Should have recognised unterminated string."),
    }
}

#[test]
fn handle_multiline_string() {
    let source = "\"ABC\ndef\"";
    let mut lexer = Lexer::new(source);
    let _ = lexer.scan_tokens().unwrap();
    let tokens = lexer.tokens();

    assert_eq!(tokens.len(), 2);
    assert_eq!(tokens[0].token_type, TokenType::StringLiteral);
    match tokens[0].literal.as_ref().unwrap() {
        LiteralValue::StringValue(val) => assert_eq!(*val, "ABC\ndef"),
        _ => panic!("Incorrect literal type"),
    }
}

#[test]
fn handle_number_literals() {
    let source = "123.123\n321.0\n5";
    let mut lexer = Lexer::new(source);
    lexer.scan_tokens().unwrap();
    let tokens = lexer.tokens();
    assert_eq!(tokens.len(), 4);

    for i in 0..3 {
        assert_eq!(tokens[i].token_type, TokenType::Number);
    }

    match tokens[0].literal.clone().unwrap() {
        LiteralValue::FValue(val) => assert_eq!(as_f64(&val), 123.123),
        _ => panic!("Incorrect literal type"),
    }
    match tokens[1].literal.clone().unwrap() {
        LiteralValue::FValue(val) => assert_eq!(as_f64(&val), 321.0),
        _ => panic!("Incorrect literal type"),
    }
    match tokens[2].literal.clone().unwrap() {
        LiteralValue::FValue(val) => assert_eq!(as_f64(&val), 5.0),
        _ => panic!("Incorrect literal type"),
    }
}

#[test]
fn handle_identifier() {
    let source = "this_is_a_variable = 12;";
    let mut lexer = Lexer::new(source);
    lexer.scan_tokens().unwrap();
    let tokens = lexer.tokens();

    assert_eq!(tokens.len(), 5);

    assert_eq!(tokens[0].token_type, TokenType::Identifier);
    assert_eq!(tokens[1].token_type, TokenType::Equal);
    assert_eq!(tokens[2].token_type, TokenType::Number);
    assert_eq!(tokens[3].token_type, TokenType::SemiColon);
    assert_eq!(tokens[4].token_type, TokenType::Eof);
}

#[test]
fn handle_reserved_keywords() {
    let source = "var this_is_a_var = 12;\n while True { say 3};";
    let mut lexer = Lexer::new(source);
    lexer.scan_tokens().unwrap();
    let tokens = lexer.tokens();

    assert_eq!(tokens.len(), 13);

    assert_eq!(tokens[0].token_type, TokenType::Variable);
    assert_eq!(tokens[1].token_type, TokenType::Identifier);
    assert_eq!(tokens[2].token_type, TokenType::Equal);
    assert_eq!(tokens[3].token_type, TokenType::Number);
    assert_eq!(tokens[4].token_type, TokenType::SemiColon);

    assert_eq!(tokens[5].token_type, TokenType::While);
    assert_eq!(tokens[6].token_type, TokenType::True);
    assert_eq!(tokens[7].token_type, TokenType::LeftBrace);
    assert_eq!(tokens[8].token_type, TokenType::Say);
    assert_eq!(tokens[9].token_type, TokenType::Number);
    assert_eq!(tokens[10].token_type, TokenType::RightBrace);
    assert_eq!(tokens[11].token_type, TokenType::SemiColon);

    assert_eq!(tokens[12].token_type, TokenType::Eof);
}

#[test]
fn each_punctuation_char_alone_is_one_token() {
    let cases = [
        ("(", TokenType::LeftParen),
        (")", TokenType::RightParen),
        ("{", TokenType::LeftBrace),
        ("}", TokenType::RightBrace),
        (",", TokenType::Comma),
        (".", TokenType::Dot),
        ("-", TokenType::Minus),
        ("+", TokenType::Plus),
        (";", TokenType::SemiColon),
        ("*", TokenType::Star),
        ("/", TokenType::Slash),
    ];
    for (source, kind) in cases {
        let mut lexer = Lexer::new(source);
        let tokens = lexer.scan_tokens().unwrap();
        assert_eq!(tokens.len(), 2);
        assert_eq!(tokens[0].token_type, kind);
        assert_eq!(tokens[0].lexeme, source);
        assert_eq!(tokens[0].line_number, 1);
        assert!(tokens[0].literal.is_none());
        assert_eq!(tokens[1].token_type, TokenType::Eof);
        assert_eq!(tokens[1].lexeme, "");
    }
}

#[test]
fn two_char_operators_are_not_split() {
    let mut lexer = Lexer::new("<=>=!===");
    let tokens = lexer.scan_tokens().unwrap();
    let kinds: Vec<TokenType> = tokens.iter().map(|t| t.token_type).collect();
    assert_eq!(
        kinds,
        vec![
            TokenType::LessEqual,
            TokenType::GreaterEqual,
            TokenType::BangEqual,
            TokenType::EqualEqual,
            TokenType::Eof
        ]
    );
    assert_eq!(tokens[0].lexeme, "<=");
    assert_eq!(tokens[3].lexeme, "==");
}

#[test]
fn one_char_operator_leaves_next_char() {
    let mut lexer = Lexer::new("!a<1>(=-");
    let tokens = lexer.scan_tokens().unwrap();
    let kinds: Vec<TokenType> = tokens.iter().map(|t| t.token_type).collect();
    assert_eq!(
        kinds,
        vec![
            TokenType::Bang,
            TokenType::Identifier,
            TokenType::Less,
            TokenType::Number,
            TokenType::Greater,
            TokenType::LeftParen,
            TokenType::Equal,
            TokenType::Minus,
            TokenType::Eof
        ]
    );
    assert_eq!(tokens[1].lexeme, "a");
}

#[test]
fn string_payload_is_text_between_quotes() {
    let mut lexer = Lexer::new("\"a\n// b\n\" x");
    let tokens = lexer.scan_tokens().unwrap();
    assert_eq!(tokens.len(), 3);
    match tokens[0].literal.as_ref().unwrap() {
        LiteralValue::StringValue(val) => assert_eq!(val, "a\n// b\n"),
        _ => panic!("Incorrect literal type"),
    }
    assert_eq!(tokens[0].lexeme, "\"a\n// b\n\"");
    assert_eq!(tokens[0].line_number, 1);
    assert_eq!(tokens[1].token_type, TokenType::Identifier);
    assert_eq!(tokens[1].line_number, 3);
    assert_eq!(tokens[2].line_number, 3);
}

#[test]
fn unterminated_string_message_and_no_token() {
    let mut lexer = Lexer::new("\"abc\ndef");
    match lexer.scan_tokens() {
        Err(msg) => assert_eq!(msg, "Unterminated string.\n"),
        Ok(_) => panic!("Should have recognised unterminated string."),
    }
    assert_eq!(lexer.tokens().len(), 1);
    assert_eq!(lexer.tokens()[0].token_type, TokenType::Eof);
    assert_eq!(lexer.tokens()[0].line_number, 2);
}

#[test]
fn number_value_is_exact() {
    let mut lexer = Lexer::new("12.50 007");
    let tokens = lexer.scan_tokens().unwrap();
    match tokens[0].literal.clone().unwrap() {
        LiteralValue::FValue(val) => {
            assert_eq!(val, Decimal { negative: false, digits: "1250".to_string(), scale: 2 })
        }
        _ => panic!("Incorrect literal type"),
    }
    match tokens[1].literal.clone().unwrap() {
        LiteralValue::FValue(val) => {
            assert_eq!(val, Decimal { negative: false, digits: "007".to_string(), scale: 0 })
        }
        _ => panic!("Incorrect literal type"),
    }
    assert_eq!(tokens[1].lexeme, "007");
}

#[test]
fn trailing_point_is_not_part_of_number() {
    let mut lexer = Lexer::new("7.");
    let tokens = lexer.scan_tokens().unwrap();
    assert_eq!(tokens.len(), 3);
    assert_eq!(tokens[0].token_type, TokenType::Number);
    assert_eq!(tokens[0].lexeme, "7");
    assert_eq!(tokens[1].token_type, TokenType::Dot);
    assert_eq!(tokens[2].token_type, TokenType::Eof);
}

#[test]
fn keywords_are_case_sensitive() {
    let mut lexer = Lexer::new("True true False false Nil nil class Class");
    let tokens = lexer.scan_tokens().unwrap();
    let kinds: Vec<TokenType> = tokens.iter().map(|t| t.token_type).collect();
    assert_eq!(
        kinds,
        vec![
            TokenType::True,
            TokenType::Identifier,
            TokenType::False,
            TokenType::Identifier,
            TokenType::Nil,
            TokenType::Identifier,
            TokenType::Class,
            TokenType::Identifier,
            TokenType::Eof
        ]
    );
}

#[test]
fn comments_and_whitespace_are_skipped() {
    let mut lexer = Lexer::new("// note (\n\t+ \r/");
    let tokens = lexer.scan_tokens().unwrap();
    assert_eq!(tokens.len(), 3);
    assert_eq!(tokens[0].token_type, TokenType::Plus);
    assert_eq!(tokens[0].line_number, 2);
    assert_eq!(tokens[1].token_type, TokenType::Slash);
}

#[test]
fn errors_are_collected_and_scanning_goes_on() {
    let mut lexer = Lexer::new("1 @\n# 2");
    match lexer.scan_tokens() {
        Err(msg) => assert_eq!(
            msg,
            "Unrecognized char at line 1: @\nUnrecognized char at line 2: #\n"
        ),
        Ok(_) => panic!("Should have reported the unknown characters."),
    }
    let kinds: Vec<TokenType> = lexer.tokens().iter().map(|t| t.token_type).collect();
    assert_eq!(kinds, vec![TokenType::Number, TokenType::Number, TokenType::Eof]);
}

#[test]
fn long_numerals_are_kept_exactly() {
    let mut lexer = Lexer::new("99999999999999999999 123456789012345678901234567890.000000000000000000001");
    let tokens = lexer.scan_tokens().unwrap();
    assert_eq!(tokens.len(), 3);
    assert_eq!(tokens[0].token_type, TokenType::Number);
    assert_eq!(tokens[0].lexeme, "99999999999999999999");
    match tokens[0].literal.clone().unwrap() {
        LiteralValue::FValue(val) => assert_eq!(
            val,
            Decimal { negative: false, digits: "99999999999999999999".to_string(), scale: 0 }
        ),
        _ => panic!("Incorrect literal type"),
    }
    match tokens[1].literal.clone().unwrap() {
        LiteralValue::FValue(val) => {
            assert_eq!(
                val.digits,
                "123456789012345678901234567890000000000000000000001"
            );
            assert_eq!(val.scale, 21);
        }
        _ => panic!("Incorrect literal type"),
    }
}

#[test]
fn empty_source_gives_only_end_of_input() {
    let mut lexer = Lexer::new("");
    let tokens = lexer.scan_tokens().unwrap();
    assert_eq!(tokens.len(), 1);
    assert_eq!(tokens[0].token_type, TokenType::Eof);
    assert_eq!(tokens[0].line_number, 1);
}
