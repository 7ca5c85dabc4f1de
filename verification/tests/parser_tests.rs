use platypus::literal_value::LiteralValue::IntegerValue;
use platypus::parser::Parser;
use platypus::scanner::Scanner;
use platypus::token::Token;
use platypus::token_type::TokenType;

#[test]
fn test_addition() {
    let one = Token {
        token_type: TokenType::Number,
        lexeme: "1".to_string(),
        literal: Some(IntegerValue(1)),
        line_number: 0,
    };
    let plus = Token {
        token_type: TokenType::Plus,
        lexeme: "+".to_string(),
        literal: None,
        line_number: 0,
    };
    let two = Token {
        token_type: TokenType::Number,
        lexeme: "2".to_string(),
        literal: Some(IntegerValue(2)),
        line_number: 0,
    };
    let semicolon = Token {
        token_type: TokenType::Number,
        lexeme: "2".to_string(),
        literal: Some(IntegerValue(2)),
        line_number: 0,
    };

    let tokens = vec![one, plus, two, semicolon];
    let mut parser = Parser::new(tokens);

    let parsed_expression = parser.parse().unwrap();
    let string_expr = parsed_expression.to_string();

    println!("{}", parsed_expression.to_string());
    assert_eq!(string_expr, "(+ 1 2)")
}

#[test]
fn test_comparison() {
    let source = "1 + 2 == 5 + 7";
    let mut scanner = Scanner::new(source);
    let mut parser = Parser::new(scanner.scan_tokens().unwrap());
    let string_expression = parser.parse().unwrap().to_string();

    assert_eq!(string_expression, "(== (+ 1 2) (+ 5 7))")
}
