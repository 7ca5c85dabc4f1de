//! The expression tree: immutable nodes built by the parser, each node
//! exclusively owning its children, with a canonical fully-parenthesized
//! prefix printer used for debugging and equality-based testing.

use vstd::prelude::*;
use vstd::string::StringExecFns;
use crate::literal_value::Decimal;
use crate::literal_value::DecimalV;
use crate::literal_value::LiteralValue;
use crate::literal_value::LiteralValueV;
use crate::token::Token;
use crate::token::TokenV;
use crate::token_type::TokenType;

verus! {

/// Mathematical value of an [`ExpressionLiteralValue`].
pub enum ExpressionLiteralValueV {
    Number(DecimalV),
    StringValue(Seq<char>),
    True,
    False,
    Null,
}

/// The rendering-oriented literal tag of a literal AST node, distinct from
/// the scanner's token payload.
#[derive(Debug)]
pub enum ExpressionLiteralValue {
    Number(Decimal),
    StringValue(String),
    True,
    False,
    Null,
}

impl View for ExpressionLiteralValue {
    type V = ExpressionLiteralValueV;

    open spec fn view(&self) -> ExpressionLiteralValueV {
        match self {
            ExpressionLiteralValue::Number(d) => ExpressionLiteralValueV::Number(d@),
            ExpressionLiteralValue::StringValue(s) => ExpressionLiteralValueV::StringValue(s@),
            ExpressionLiteralValue::True => ExpressionLiteralValueV::True,
            ExpressionLiteralValue::False => ExpressionLiteralValueV::False,
            ExpressionLiteralValue::Null => ExpressionLiteralValueV::Null,
        }
    }
}

impl ExpressionLiteralValueV {
    /// Canonical text of a literal: a number in its canonical decimal form,
    /// a string verbatim, and the words `true`, `false` and `null`.
    pub open spec fn display(self) -> Seq<char> {
        match self {
            ExpressionLiteralValueV::Number(d) => d.display(),
            ExpressionLiteralValueV::StringValue(s) => s,
            ExpressionLiteralValueV::True => "true"@,
            ExpressionLiteralValueV::False => "false"@,
            ExpressionLiteralValueV::Null => "null"@,
        }
    }
}

/// A token's literal payload matches its category: number tokens carry a
/// numeric payload, string tokens a textual one. The scanner establishes
/// this; the parser relies on it when building literal nodes.
pub open spec fn token_literal_wf(t: TokenV) -> bool {
    &&& t.token_type == TokenType::Number ==> (t.literal matches Some(l) && (l is IntegerValue
        || l is NumberValue))
    &&& t.token_type == TokenType::String ==> (t.literal matches Some(l) && (l is StringValue
        || l is IdentifierValue))
}

/// The literal tag that a literal token stands for. Meaningful only for
/// well-formed tokens of the literal categories.
pub open spec fn spec_from_token(t: TokenV) -> ExpressionLiteralValueV {
    match t.token_type {
        TokenType::Number => match t.literal {
            Some(LiteralValueV::IntegerValue(i)) => ExpressionLiteralValueV::Number(
                Decimal::spec_of_integer(i),
            ),
            Some(LiteralValueV::NumberValue(d)) => ExpressionLiteralValueV::Number(d),
            _ => arbitrary(),
        },
        TokenType::String => match t.literal {
            Some(LiteralValueV::StringValue(s)) => ExpressionLiteralValueV::StringValue(s),
            Some(LiteralValueV::IdentifierValue(s)) => ExpressionLiteralValueV::StringValue(s),
            _ => arbitrary(),
        },
        TokenType::False => ExpressionLiteralValueV::False,
        TokenType::True => ExpressionLiteralValueV::True,
        TokenType::Null => ExpressionLiteralValueV::Null,
        _ => arbitrary(),
    }
}

fn unwrap_as_string(literal: Option<LiteralValue>) -> (r: String)
    requires
        literal.deep_view() matches Some(l) && (l is StringValue || l is IdentifierValue),
    ensures
        Some(LiteralValueV::StringValue(r@)) == literal.deep_view() || Some(
            LiteralValueV::IdentifierValue(r@),
        ) == literal.deep_view(),
{
    match literal {
        Some(LiteralValue::StringValue(s)) => s,
        Some(LiteralValue::IdentifierValue(s)) => s,
        _ => {
            proof {
                assert(false);
            }
            String::new()
        },
    }
}

fn unwrap_as_decimal(literal: Option<LiteralValue>) -> (r: Decimal)
    requires
        literal.deep_view() matches Some(l) && (l is IntegerValue || l is NumberValue),
    ensures
        ({
            let d = r@;
            match literal.deep_view() {
                Some(LiteralValueV::IntegerValue(i)) => d == Decimal::spec_of_integer(i),
                Some(LiteralValueV::NumberValue(n)) => d == n,
                _ => false,
            }
        }),
{
    match literal {
        Some(LiteralValue::NumberValue(d)) => d,
        Some(LiteralValue::IntegerValue(i)) => Decimal::from_integer(i),
        _ => {
            proof {
                assert(false);
            }
            Decimal { negative: false, int_part: String::new(), frac_part: String::new() }
        },
    }
}

impl ExpressionLiteralValue {
    /// Renders the canonical text described by
    /// [`ExpressionLiteralValueV::display`].
    pub fn to_string(&self) -> (r: String)
        ensures
            r@ == self@.display(),
    {
        match self {
            ExpressionLiteralValue::Number(d) => d.render(),
            ExpressionLiteralValue::StringValue(s) => s.clone(),
            ExpressionLiteralValue::True => String::from_str("true"),
            ExpressionLiteralValue::False => String::from_str("false"),
            ExpressionLiteralValue::Null => String::from_str("null"),
        }
    }

    /// Builds the literal tag for a literal token. The token's category must
    /// be one of the literal categories and its payload must match the
    /// category: a mismatch is an internal invariant violation between
    /// scanner and parser, not a recoverable parse error, so such tokens are
    /// ruled out here rather than mapped to an error result.
    pub fn from_token(token: Token) -> (r: ExpressionLiteralValue)
        requires
            token@.token_type == TokenType::Number || token@.token_type == TokenType::String
                || token@.token_type == TokenType::False || token@.token_type == TokenType::True
                || token@.token_type == TokenType::Null,
            token_literal_wf(token@),
        ensures
            r@ == spec_from_token(token@),
    {
        match token.token_type {
            TokenType::Number => ExpressionLiteralValue::Number(unwrap_as_decimal(token.literal)),
            TokenType::String => ExpressionLiteralValue::StringValue(
                unwrap_as_string(token.literal),
            ),
            TokenType::False => ExpressionLiteralValue::False,
            TokenType::True => ExpressionLiteralValue::True,
            TokenType::Null => ExpressionLiteralValue::Null,
            _ => {
                proof {
                    assert(false);
                }
                ExpressionLiteralValue::Null
            },
        }
    }
}

/// Mathematical value of an [`Expr`] tree.
pub enum ExprV {
    Binary { left: Box<ExprV>, operator: TokenV, right: Box<ExprV> },
    Grouping { expression: Box<ExprV> },
    Literal { value: ExpressionLiteralValueV },
    Unary { operator: TokenV, right: Box<ExprV> },
}

/// An expression node: a binary or unary application of an operator token,
/// a parenthesized group, or a literal.
#[derive(Debug)]
pub enum Expr {
    Binary { left: Box<Expr>, operator: Token, right: Box<Expr> },
    Grouping { expression: Box<Expr> },
    Literal { value: ExpressionLiteralValue },
    Unary { operator: Token, right: Box<Expr> },
}

/// The value of an expression tree, node for node.
pub open spec fn expr_view(e: Expr) -> ExprV
    decreases e,
{
    match e {
        Expr::Binary { left, operator, right } => ExprV::Binary {
            left: Box::new(expr_view(*left)),
            operator: operator@,
            right: Box::new(expr_view(*right)),
        },
        Expr::Grouping { expression } => ExprV::Grouping {
            expression: Box::new(expr_view(*expression)),
        },
        Expr::Literal { value } => ExprV::Literal { value: value@ },
        Expr::Unary { operator, right } => ExprV::Unary {
            operator: operator@,
            right: Box::new(expr_view(*right)),
        },
    }
}

impl View for Expr {
    type V = ExprV;

    open spec fn view(&self) -> ExprV {
        expr_view(*self)
    }
}

impl ExprV {
    /// Canonical fully-parenthesized prefix form: `(<operator> <left>
    /// <right>)` for a binary node, `(<operator> <right>)` for a unary node,
    /// `(group <inner>)` for a grouping, and a literal's own text.
    pub open spec fn display(self) -> Seq<char>
        decreases self,
    {
        match self {
            ExprV::Binary { left, operator, right } => "("@ + operator.lexeme + " "@
                + (*left).display() + " "@ + (*right).display() + ")"@,
            ExprV::Grouping { expression } => "(group "@ + (*expression).display() + ")"@,
            ExprV::Literal { value } => value.display(),
            ExprV::Unary { operator, right } => "("@ + operator.lexeme + " "@ + (*right).display()
                + ")"@,
        }
    }
}

impl Expr {
    /// Renders the canonical form described by [`ExprV::display`].
    pub fn to_string(&self) -> (r: String)
        ensures
            r@ == self@.display(),
        decreases *self,
    {
        match self {
            Expr::Binary { left, operator, right } => {
                let mut out = String::from_str("(");
                out.append(operator.lexeme.as_str());
                out.append(" ");
                let l = left.to_string();
                out.append(l.as_str());
                out.append(" ");
                let rr = right.to_string();
                out.append(rr.as_str());
                out.append(")");
                out
            },
            Expr::Grouping { expression } => {
                let mut out = String::from_str("(group ");
                let inner = expression.to_string();
                out.append(inner.as_str());
                out.append(")");
                out
            },
            Expr::Literal { value } => value.to_string(),
            Expr::Unary { operator, right } => {
                let mut out = String::from_str("(");
                out.append(operator.lexeme.as_str());
                out.append(" ");
                let rr = right.to_string();
                out.append(rr.as_str());
                out.append(")");
                out
            },
        }
    }
}

} // verus!
