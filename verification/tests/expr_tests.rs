use platypus::expr::Expr::{Binary, Grouping, Literal, Unary};
use platypus::expr::ExpressionLiteralValue;
use platypus::literal_value::Decimal;
use platypus::token::Token;
use platypus::token_type::TokenType;

#[test]
fn pretty_print_ast() {
    let minus = Token {
        token_type: TokenType::Minus,
        lexeme: "-".to_string(),
        literal: None,
        line_number: 0,
    };
    let number = Box::from(Literal {
        value: ExpressionLiteralValue::Number(Decimal {
            negative: false,
            int_part: "123".to_string(),
            frac_part: "".to_string(),
        }),
    });
    let multiplication = Token {
        token_type: TokenType::Star,
        lexeme: "*".to_string(),
        literal: None,
        line_number: 0,
    };
    let group = Box::from(Grouping {
        expression: Box::from(Literal {
            value: ExpressionLiteralValue::Number(Decimal {
                negative: false,
                int_part: "420".to_string(),
                frac_part: "69".to_string(),
            }),
        }),
    });

    let ast = Binary {
        left: Box::from(Unary { operator: minus, right: number }),
        operator: multiplication,
        right: group,
    };

    assert_eq!(ast.to_string(), "(* (- 123) (group 420.69))".to_string());
}
