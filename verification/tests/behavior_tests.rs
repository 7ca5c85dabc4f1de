use platypus::exception::Exception;
use platypus::expr::Expr;
use platypus::literal_value::Decimal;
use platypus::literal_value::LiteralValue;
use platypus::parser::tokens_well_formed;
use platypus::parser::Parser;
use platypus::scanner::Scanner;
use platypus::token::Token;
use platypus::token_type::TokenType;

fn parse_source(source: &str) -> Result<Expr, String> {
    let mut scanner = Scanner::new(source);
    let tokens = scanner.scan_tokens()?;
    let mut parser = Parser::new(tokens);
    parser.parse()
}

#[test]
fn empty_source_scans_to_single_eof() {
    let mut scanner = Scanner::new("");
    let tokens = scanner.scan_tokens().unwrap();
    assert_eq!(tokens.len(), 1);
    assert_eq!(tokens[0].token_type, TokenType::Eof);
}

#[test]
fn every_scan_ends_with_exactly_one_eof() {
    for source in ["", "1 + 2", "{(( ))}", "let x = 5; // done", "/* quiet */"] {
        let mut scanner = Scanner::new(source);
        let tokens = scanner.scan_tokens().unwrap();
        let eof_count = tokens.iter().filter(|t| t.token_type == TokenType::Eof).count();
        assert_eq!(eof_count, 1);
        assert_eq!(tokens.last().unwrap().token_type, TokenType::Eof);
    }
}

#[test]
fn keywords_scan_to_reserved_kinds() {
    let source = "true false null if else for while let print return this extends fn class and or";
    let mut scanner = Scanner::new(source);
    let tokens = scanner.scan_tokens().unwrap();
    let expected = [
        TokenType::True,
        TokenType::False,
        TokenType::Null,
        TokenType::If,
        TokenType::Else,
        TokenType::For,
        TokenType::While,
        TokenType::Let,
        TokenType::Print,
        TokenType::Return,
        TokenType::This,
        TokenType::Extends,
        TokenType::Fn,
        TokenType::Class,
        TokenType::And,
        TokenType::Or,
    ];
    assert_eq!(tokens.len(), expected.len() + 1);
    for (i, kind) in expected.iter().enumerate() {
        assert_eq!(tokens[i].token_type, *kind);
        assert_ne!(tokens[i].token_type, TokenType::Identifier);
    }
}

#[test]
fn keyword_prefix_is_still_an_identifier() {
    let mut scanner = Scanner::new("trueish lettuce");
    let tokens = scanner.scan_tokens().unwrap();
    assert_eq!(tokens[0].token_type, TokenType::Identifier);
    assert_eq!(tokens[1].token_type, TokenType::Identifier);
}

#[test]
fn symbol_alias_characters_are_lexical_errors() {
    let mut scanner = Scanner::new("&&");
    let result = scanner.scan_tokens();
    assert_eq!(
        result.unwrap_err(),
        "Unrecognizable token at line 1\nUnrecognizable token at line 1\n"
    );
}

#[test]
fn unrecognizable_token_message_carries_line() {
    let mut scanner = Scanner::new("\n@");
    let result = scanner.scan_tokens();
    assert_eq!(result.unwrap_err(), "Unrecognizable token at line 2\n");
}

#[test]
fn unterminated_string_message() {
    let mut scanner = Scanner::new("\"abc");
    let result = scanner.scan_tokens();
    assert_eq!(result.unwrap_err(), "Error at line 1: Unterminated string\n");
}

#[test]
fn unterminated_string_reports_its_opening_line() {
    let mut scanner = Scanner::new("(\n\"a\nbc");
    let result = scanner.scan_tokens();
    assert_eq!(result.unwrap_err(), "Error at line 2: Unterminated string\n");
}

#[test]
fn lexical_errors_are_aggregated() {
    let mut scanner = Scanner::new("@ \"x");
    let result = scanner.scan_tokens();
    assert_eq!(
        result.unwrap_err(),
        "Unrecognizable token at line 1\nError at line 1: Unterminated string\n"
    );
}

#[test]
fn number_token_carries_its_digits() {
    let mut scanner = Scanner::new("420 69 420.69");
    let tokens = scanner.scan_tokens().unwrap();
    assert_eq!(tokens[0].lexeme, "420");
    assert_eq!(tokens[2].lexeme, "420.69");
    match tokens[2].literal.as_ref().unwrap() {
        LiteralValue::NumberValue(d) => {
            assert!(!d.negative);
            assert_eq!(d.int_part, "420");
            assert_eq!(d.frac_part, "69");
        },
        _ => panic!("Incorrect literal"),
    }
}

#[test]
fn string_token_lexeme_keeps_quotes() {
    let mut scanner = Scanner::new("\"hi\"");
    let tokens = scanner.scan_tokens().unwrap();
    assert_eq!(tokens[0].lexeme, "\"hi\"");
    match tokens[0].literal.as_ref().unwrap() {
        LiteralValue::StringValue(val) => assert_eq!(val, "hi"),
        _ => panic!("Incorrect literal"),
    }
}

#[test]
fn newlines_advance_the_line_counter() {
    let mut scanner = Scanner::new("(\n)");
    let tokens = scanner.scan_tokens().unwrap();
    assert_eq!(tokens[0].line_number, 1);
    assert_eq!(tokens[1].line_number, 2);
    assert_eq!(tokens[2].line_number, 0);
}

#[test]
fn multiline_string_counts_embedded_newlines() {
    let mut scanner = Scanner::new("\"a\nb\" c");
    let tokens = scanner.scan_tokens().unwrap();
    assert_eq!(tokens[0].token_type, TokenType::String);
    assert_eq!(tokens[0].line_number, 2);
    assert_eq!(tokens[1].token_type, TokenType::Identifier);
    assert_eq!(tokens[1].line_number, 2);
}

#[test]
fn precedence_shapes_the_tree() {
    let printed = parse_source("1 + 2 == 5 + 7").unwrap().to_string();
    assert_eq!(printed, "(== (+ 1 2) (+ 5 7))");
}

#[test]
fn same_level_chains_fold_left() {
    let printed = parse_source("1 - 2 - 3").unwrap().to_string();
    assert_eq!(printed, "(- (- 1 2) 3)");
}

#[test]
fn unary_chains_recurse_right() {
    let printed = parse_source("- - 5").unwrap().to_string();
    assert_eq!(printed, "(- (- 5))");
}

#[test]
fn addition_parses_from_source() {
    let printed = parse_source("1 + 2").unwrap().to_string();
    assert_eq!(printed, "(+ 1 2)");
}

#[test]
fn grouping_prints_as_group() {
    let printed = parse_source("(1 + 2) * 3").unwrap().to_string();
    assert_eq!(printed, "(* (group (+ 1 2)) 3)");
}

#[test]
fn literal_keywords_print_their_words() {
    assert_eq!(parse_source("true").unwrap().to_string(), "true");
    assert_eq!(parse_source("false").unwrap().to_string(), "false");
    assert_eq!(parse_source("null").unwrap().to_string(), "null");
    assert_eq!(parse_source("\"word\"").unwrap().to_string(), "word");
}

#[test]
fn number_literals_print_canonically() {
    assert_eq!(parse_source("007").unwrap().to_string(), "7");
    assert_eq!(parse_source("1.0").unwrap().to_string(), "1");
    assert_eq!(parse_source("420.690").unwrap().to_string(), "420.69");
    assert_eq!(parse_source("0.5").unwrap().to_string(), "0.5");
}

#[test]
fn missing_close_paren_is_a_parse_error() {
    assert_eq!(parse_source("(1").unwrap_err(), "Expected ')'");
}

#[test]
fn operator_without_operand_is_a_parse_error() {
    assert_eq!(parse_source("+").unwrap_err(), "Expected expression");
}

#[test]
fn trailing_tokens_are_left_unconsumed() {
    let printed = parse_source("1 2").unwrap().to_string();
    assert_eq!(printed, "1");
}

#[test]
fn exception_throw_formats_the_line() {
    let result = Exception::throw("boom".to_string(), 7);
    assert_eq!(result.unwrap_err(), "Error at line 7: boom");
}

#[test]
fn token_to_string_shows_kind_lexeme_and_literal() {
    let t = Token::new(
        TokenType::Number,
        "1".to_string(),
        Some(LiteralValue::IntegerValue(1)),
        1,
    );
    assert_eq!(t.to_string(), "Number 1 1");
    let p = Token::new(TokenType::LeftParen, "(".to_string(), None, 3);
    assert_eq!(p.to_string(), "LeftParen ( None");
}

#[test]
fn integer_decimals_render_with_sign() {
    assert_eq!(Decimal::from_integer(0).render(), "0");
    assert_eq!(Decimal::from_integer(42).render(), "42");
    assert_eq!(Decimal::from_integer(-5).render(), "-5");
}

#[test]
fn well_formed_checker_matches_scanner_output() {
    let mut scanner = Scanner::new("1 + \"two\" == three");
    let tokens = scanner.scan_tokens().unwrap();
    assert!(tokens_well_formed(&tokens));

    let bad = vec![Token::new(TokenType::Number, "1".to_string(), None, 1)];
    assert!(!tokens_well_formed(&bad));
}

#[test]
fn comments_produce_no_tokens() {
    let mut scanner = Scanner::new("// only a comment");
    let tokens = scanner.scan_tokens().unwrap();
    assert_eq!(tokens.len(), 1);

    let mut scanner = Scanner::new("/* quiet */ 1");
    let tokens = scanner.scan_tokens().unwrap();
    assert_eq!(tokens.len(), 2);
    assert_eq!(tokens[0].token_type, TokenType::Number);
}
