//! The recursive-descent expression parser: a cursor over an EOF-terminated
//! token sequence, one procedure per precedence level, each level
//! left-associative, with single-token lookahead and no backtracking.
//!
//! The grammar is modelled by the mutually recursive spec functions
//! [`p_expression`], [`p_binary`], [`p_unary`] and [`p_primary`]; the
//! executable [`Parser`] is proved to return exactly their result. The
//! precedence cascade, lowest to highest: equality (level 4) → comparison
//! (level 3) → term (level 2) → factor (level 1) → unary → primary.

use vstd::prelude::*;
use vstd::string::StringExecFns;
use crate::expr::spec_from_token;
use crate::expr::token_literal_wf;
use crate::expr::Expr;
use crate::expr::ExpressionLiteralValue;
use crate::expr::ExprV;
use crate::literal_value::LiteralValue;
use crate::scanner::eof_token;
use crate::token::Token;
use crate::token::TokenV;
use crate::token_type::TokenType;

verus! {

/// Result of a parse at one grammar level: the tree built and the cursor
/// after it, or the message of the first syntax error.
pub enum PResult {
    Parsed { expr: ExprV, next: int },
    Failed { message: Seq<char> },
}

/// The token at `i`, taken as the EOF sentinel outside the sequence: the
/// scanner always supplies the sentinel, and the parser never reads past it.
pub open spec fn tok_at(t: Seq<TokenV>, i: int) -> TokenV {
    if 0 <= i < t.len() {
        t[i]
    } else {
        eof_token()
    }
}

/// The binary operator categories recognized at each precedence level:
/// factor (1), term (2), comparison (3) and equality (4).
pub open spec fn is_level_op(level: int, tt: TokenType) -> bool {
    if level == 1 {
        tt == TokenType::Slash || tt == TokenType::Star
    } else if level == 2 {
        tt == TokenType::Minus || tt == TokenType::Plus
    } else if level == 3 {
        tt == TokenType::Greater || tt == TokenType::GreaterEqual || tt == TokenType::Less
            || tt == TokenType::LessEqual
    } else if level == 4 {
        tt == TokenType::BangEqual || tt == TokenType::EqualEqual
    } else {
        false
    }
}

/// The message of a parse aborted where an expression was owed.
pub open spec fn expected_expression_message() -> Seq<char> {
    "Expected expression"@
}

/// The message of a parenthesized expression missing its close parenthesis.
pub open spec fn expected_paren_message() -> Seq<char> {
    "Expected ')'"@
}

/// Ordering key that puts each binary level above the one it descends into.
pub open spec fn level_rank(level: int) -> int {
    if level < 1 {
        2
    } else {
        level + 1
    }
}

/// `next` clamped into `[lo, hi]`; the progress lemmas show the clamp never
/// acts on a parse result, it only makes termination of the definitions
/// plain.
pub open spec fn clamp_pos(next: int, lo: int, hi: int) -> int {
    let a = if next < lo {
        lo
    } else {
        next
    };
    if a > hi {
        hi
    } else {
        a
    }
}

/// Primary: a parenthesized expression, which must be followed by the
/// matching close parenthesis, or a single literal token; anything else is
/// the `expected expression` error.
pub open spec fn p_primary(t: Seq<TokenV>, pos: int) -> PResult
    decreases t.len() - pos, 0int, 0int,
{
    if !(0 <= pos < t.len()) {
        PResult::Failed { message: expected_expression_message() }
    } else {
        let token = t[pos];
        if token.token_type == TokenType::LeftParen {
            match p_expression(t, pos + 1) {
                PResult::Parsed { expr, next } => {
                    if tok_at(t, next).token_type == TokenType::RightParen {
                        PResult::Parsed {
                            expr: ExprV::Grouping { expression: Box::new(expr) },
                            next: next + 1,
                        }
                    } else {
                        PResult::Failed { message: expected_paren_message() }
                    }
                },
                PResult::Failed { message } => PResult::Failed { message },
            }
        } else if token.token_type == TokenType::False || token.token_type == TokenType::True
            || token.token_type == TokenType::Null || token.token_type == TokenType::Number
            || token.token_type == TokenType::String {
            PResult::Parsed {
                expr: ExprV::Literal { value: spec_from_token(token) },
                next: pos + 1,
            }
        } else {
            PResult::Failed { message: expected_expression_message() }
        }
    }
}

/// Unary: arbitrarily chained right-recursive `!` and `-` prefixes over a
/// primary.
pub open spec fn p_unary(t: Seq<TokenV>, pos: int) -> PResult
    decreases t.len() - pos, 1int, 0int,
{
    if pos < 0 || pos > t.len() {
        PResult::Failed { message: expected_expression_message() }
    } else if pos < t.len() && (t[pos].token_type == TokenType::Bang || t[pos].token_type
        == TokenType::Minus) {
        let operator = t[pos];
        match p_unary(t, pos + 1) {
            PResult::Parsed { expr, next } => PResult::Parsed {
                expr: ExprV::Unary { operator, right: Box::new(expr) },
                next,
            },
            PResult::Failed { message } => PResult::Failed { message },
        }
    } else {
        p_primary(t, pos)
    }
}

/// One binary precedence level: one operand at the next-higher level, then a
/// left-associative fold over the level's operators.
pub open spec fn p_binary(t: Seq<TokenV>, pos: int, level: int) -> PResult
    decreases t.len() - pos, level_rank(level), 1int,
{
    if pos < 0 || pos > t.len() {
        PResult::Failed { message: expected_expression_message() }
    } else {
        let operand = if level <= 1 {
            p_unary(t, pos)
        } else {
            p_binary(t, pos, level - 1)
        };
        match operand {
            PResult::Parsed { expr, next } => p_binary_tail(
                t,
                clamp_pos(next, pos + 1, t.len() as int),
                level,
                expr,
            ),
            PResult::Failed { message } => PResult::Failed { message },
        }
    }
}

/// The left-associative fold of one binary level: while the current token is
/// one of the level's operators, consume it, parse another operand at the
/// next-higher level, and fold into a left-leaning binary node.
pub open spec fn p_binary_tail(t: Seq<TokenV>, pos: int, level: int, acc: ExprV) -> PResult
    decreases t.len() - pos, level_rank(level), 0int,
{
    if 0 <= pos < t.len() && is_level_op(level, t[pos].token_type) {
        let operator = t[pos];
        let operand = if level <= 1 {
            p_unary(t, pos + 1)
        } else {
            p_binary(t, pos + 1, level - 1)
        };
        match operand {
            PResult::Parsed { expr, next } => p_binary_tail(
                t,
                clamp_pos(next, pos + 2, t.len() as int),
                level,
                ExprV::Binary { left: Box::new(acc), operator, right: Box::new(expr) },
            ),
            PResult::Failed { message } => PResult::Failed { message },
        }
    } else {
        PResult::Parsed { expr: acc, next: pos }
    }
}

/// A whole expression: the lowest precedence level, equality.
pub open spec fn p_expression(t: Seq<TokenV>, pos: int) -> PResult
    decreases t.len() - pos, 6int, 1int,
{
    if pos < 0 || pos > t.len() {
        PResult::Failed { message: expected_expression_message() }
    } else {
        p_binary(t, pos, 4)
    }
}

/// The equality level, `==` and `!=`.
pub open spec fn p_equality(t: Seq<TokenV>, pos: int) -> PResult {
    p_binary(t, pos, 4)
}

/// The comparison level, `<`, `<=`, `>` and `>=`.
pub open spec fn p_comparison(t: Seq<TokenV>, pos: int) -> PResult {
    p_binary(t, pos, 3)
}

/// The term level, `+` and `-`.
pub open spec fn p_term(t: Seq<TokenV>, pos: int) -> PResult {
    p_binary(t, pos, 2)
}

/// The factor level, `*` and `/`.
pub open spec fn p_factor(t: Seq<TokenV>, pos: int) -> PResult {
    p_binary(t, pos, 1)
}

/// A successful parse consumes at least one token and stays inside the
/// sequence.
pub proof fn lemma_primary_progress(t: Seq<TokenV>, pos: int)
    ensures
        p_primary(t, pos) matches PResult::Parsed { next, .. } ==> pos < next <= t.len(),
    decreases t.len() - pos, 0int, 0int,
{
    if 0 <= pos < t.len() && t[pos].token_type == TokenType::LeftParen {
        lemma_expression_progress(t, pos + 1);
    }
}

pub proof fn lemma_unary_progress(t: Seq<TokenV>, pos: int)
    ensures
        p_unary(t, pos) matches PResult::Parsed { next, .. } ==> pos < next <= t.len(),
    decreases t.len() - pos, 1int, 0int,
{
    if pos < 0 || pos > t.len() {
    } else if pos < t.len() && (t[pos].token_type == TokenType::Bang || t[pos].token_type
        == TokenType::Minus) {
        lemma_unary_progress(t, pos + 1);
    } else {
        lemma_primary_progress(t, pos);
    }
}

pub proof fn lemma_binary_progress(t: Seq<TokenV>, pos: int, level: int)
    ensures
        p_binary(t, pos, level) matches PResult::Parsed { next, .. } ==> pos < next <= t.len(),
    decreases t.len() - pos, level_rank(level), 1int,
{
    if 0 <= pos <= t.len() {
        if level <= 1 {
            lemma_unary_progress(t, pos);
        } else {
            lemma_binary_progress(t, pos, level - 1);
        }
        let operand = if level <= 1 {
            p_unary(t, pos)
        } else {
            p_binary(t, pos, level - 1)
        };
        match operand {
            PResult::Parsed { expr, next } => {
                assert(clamp_pos(next, pos + 1, t.len() as int) == next);
                lemma_binary_tail_progress(t, next, level, expr);
            },
            PResult::Failed { .. } => {},
        }
    }
}

pub proof fn lemma_binary_tail_progress(t: Seq<TokenV>, pos: int, level: int, acc: ExprV)
    requires
        0 <= pos <= t.len(),
    ensures
        p_binary_tail(t, pos, level, acc) matches PResult::Parsed { next, .. } ==> pos <= next
            <= t.len(),
    decreases t.len() - pos, level_rank(level), 0int,
{
    if 0 <= pos < t.len() && is_level_op(level, t[pos].token_type) {
        if level <= 1 {
            lemma_unary_progress(t, pos + 1);
        } else {
            lemma_binary_progress(t, pos + 1, level - 1);
        }
        let operand = if level <= 1 {
            p_unary(t, pos + 1)
        } else {
            p_binary(t, pos + 1, level - 1)
        };
        match operand {
            PResult::Parsed { expr, next } => {
                assert(clamp_pos(next, pos + 2, t.len() as int) == next);
                lemma_binary_tail_progress(
                    t,
                    next,
                    level,
                    ExprV::Binary {
                        left: Box::new(acc),
                        operator: t[pos],
                        right: Box::new(expr),
                    },
                );
            },
            PResult::Failed { .. } => {},
        }
    }
}

pub proof fn lemma_expression_progress(t: Seq<TokenV>, pos: int)
    ensures
        p_expression(t, pos) matches PResult::Parsed { next, .. } ==> pos < next <= t.len(),
    decreases t.len() - pos, 6int, 1int,
{
    if 0 <= pos <= t.len() {
        lemma_binary_progress(t, pos, 4);
    }
}

/// Every token's literal payload matches its category (see
/// [`token_literal_wf`]): what the scanner guarantees and the parser needs
/// to build literal nodes.
pub open spec fn tokens_wf(t: Seq<TokenV>) -> bool {
    forall|i: int| 0 <= i < t.len() ==> token_literal_wf(#[trigger] t[i])
}

/// Checks that every token's literal payload matches its category, so that
/// unverified callers can establish what [`Parser::parse`] requires.
pub fn tokens_well_formed(tokens: &Vec<Token>) -> (b: bool)
    ensures
        b == tokens_wf(tokens.deep_view()),
{
    let mut i: usize = 0;
    while i < tokens.len()
        invariant
            i <= tokens.len(),
            forall|j: int| 0 <= j < i ==> token_literal_wf(#[trigger] tokens.deep_view()[j]),
        decreases tokens.len() - i,
    {
        let t = &tokens[i];
        let ok = match (&t.token_type, &t.literal) {
            (TokenType::Number, Some(LiteralValue::IntegerValue(_))) => true,
            (TokenType::Number, Some(LiteralValue::NumberValue(_))) => true,
            (TokenType::Number, _) => false,
            (TokenType::String, Some(LiteralValue::StringValue(_))) => true,
            (TokenType::String, Some(LiteralValue::IdentifierValue(_))) => true,
            (TokenType::String, _) => false,
            _ => true,
        };
        if !ok {
            proof {
                assert(!token_literal_wf(tokens.deep_view()[i as int]));
            }
            return false;
        }
        proof {
            assert(token_literal_wf(tokens.deep_view()[i as int]));
        }
        i = i + 1;
    }
    true
}

/// Mathematical state of a [`Parser`].
pub struct ParserV {
    pub tokens: Seq<TokenV>,
    pub current: int,
}

/// The parser: a token sequence and a cursor, consumed from position 0
/// forward.
pub struct Parser {
    tokens: Vec<Token>,
    current: usize,
}

impl View for Parser {
    type V = ParserV;

    closed spec fn view(&self) -> ParserV {
        ParserV { tokens: self.tokens.deep_view(), current: self.current as int }
    }
}

impl Parser {
    /// Cursor inside the sequence, and every literal payload matching its
    /// token's category.
    pub open spec fn wf(self) -> bool {
        &&& 0 <= self@.current <= self@.tokens.len()
        &&& tokens_wf(self@.tokens)
    }

    /// A parser over `tokens`, at position 0.
    pub fn new(tokens: Vec<Token>) -> (p: Parser)
        ensures
            p@.tokens == tokens.deep_view(),
            p@.current == 0,
    {
        Parser { tokens, current: 0 }
    }

    fn peek(&self) -> (t: Token)
        requires
            self@.current <= self@.tokens.len(),
        ensures
            t@ == tok_at(self@.tokens, self@.current),
    {
        if self.current < self.tokens.len() {
            let t = self.tokens[self.current].duplicate();
            proof {
                assert(t.deep_view() == self@.tokens[self@.current]);
            }
            t
        } else {
            let t = Token {
                token_type: TokenType::Eof,
                lexeme: String::new(),
                literal: None,
                line_number: 0,
            };
            proof {
                assert(t@ == eof_token());
            }
            t
        }
    }

    fn is_at_end(&self) -> (r: bool)
        requires
            self@.current <= self@.tokens.len(),
        ensures
            r == (tok_at(self@.tokens, self@.current).token_type == TokenType::Eof),
    {
        self.peek().token_type == TokenType::Eof
    }

    fn previous(&self) -> (t: Token)
        requires
            0 < self@.current <= self@.tokens.len(),
        ensures
            t@ == self@.tokens[self@.current - 1],
    {
        let t = self.tokens[self.current - 1].duplicate();
        proof {
            assert(t.deep_view() == self@.tokens[self@.current - 1]);
        }
        t
    }

    fn advance(&mut self) -> (t: Token)
        requires
            old(self).wf(),
            tok_at(old(self)@.tokens, old(self)@.current).token_type != TokenType::Eof,
        ensures
            final(self).wf(),
            final(self)@.tokens == old(self)@.tokens,
            final(self)@.current == old(self)@.current + 1,
            t@ == old(self)@.tokens[old(self)@.current],
    {
        let n = self.tokens.len();
        if !self.is_at_end() {
            proof {
                assert(self@.current < self@.tokens.len());
                assert(n == self.tokens@.len());
            }
            self.current = self.current + 1;
        }
        self.previous()
    }

    fn check(&self, token: TokenType) -> (r: bool)
        requires
            self@.current <= self@.tokens.len(),
        ensures
            r == (tok_at(self@.tokens, self@.current).token_type == token && token
                != TokenType::Eof),
    {
        if self.is_at_end() {
            return false;
        }
        self.peek().token_type == token
    }

    fn match_token_type(&mut self, tokens: Vec<TokenType>) -> (r: bool)
        requires
            old(self).wf(),
        ensures
            final(self).wf(),
            final(self)@.tokens == old(self)@.tokens,
            ({
                let k = tok_at(old(self)@.tokens, old(self)@.current).token_type;
                if k != TokenType::Eof && tokens@.contains(k) {
                    r && final(self)@.current == old(self)@.current + 1
                } else {
                    !r && final(self)@.current == old(self)@.current
                }
            }),
    {
        let ghost k = tok_at(old(self)@.tokens, old(self)@.current).token_type;
        let mut i: usize = 0;
        while i < tokens.len()
            invariant
                self@ == old(self)@,
                self.wf(),
                i <= tokens.len(),
                k == tok_at(self@.tokens, self@.current).token_type,
                forall|j: int| 0 <= j < i ==> !(k != TokenType::Eof && tokens@[j] == k),
            decreases tokens.len() - i,
        {
            if self.check(tokens[i]) {
                self.advance();
                return true;
            }
            i = i + 1;
        }
        false
    }

    fn consume_token(&mut self, token_type: TokenType, message: &str) -> (r: Result<(), String>)
        requires
            old(self).wf(),
            token_type != TokenType::Eof,
        ensures
            final(self).wf(),
            final(self)@.tokens == old(self)@.tokens,
            if tok_at(old(self)@.tokens, old(self)@.current).token_type == token_type {
                r is Ok && final(self)@.current == old(self)@.current + 1
            } else {
                (r matches Err(m) && m@ == message@) && final(self)@.current == old(self)@.current
            },
    {
        let token = self.peek();
        if token.token_type != token_type {
            return Err(message.to_owned());
        }
        self.advance();
        Ok(())
    }

    fn primary(&mut self) -> (r: Result<Expr, String>)
        requires
            old(self).wf(),
        ensures
            final(self).wf(),
            final(self)@.tokens == old(self)@.tokens,
            match r {
                Ok(e) => p_primary(old(self)@.tokens, old(self)@.current) == (PResult::Parsed {
                    expr: e@,
                    next: final(self)@.current,
                }),
                Err(m) => p_primary(old(self)@.tokens, old(self)@.current) == (PResult::Failed {
                    message: m@,
                }),
            },
        decreases self@.tokens.len() - self@.current, 0int,
    {
        let token = self.peek();
        match token.token_type {
            TokenType::LeftParen => {
                self.advance();
                let expr = match self.expression() {
                    Ok(e) => e,
                    Err(m) => {
                        return Err(m);
                    },
                };
                match self.consume_token(TokenType::RightParen, "Expected ')'") {
                    Ok(_) => {},
                    Err(m) => {
                        return Err(m);
                    },
                }
                Ok(Expr::Grouping { expression: Box::new(expr) })
            },
            TokenType::False
            | TokenType::True
            | TokenType::Null
            | TokenType::Number
            | TokenType::String => {
                self.advance();
                proof {
                    assert(token_literal_wf(
                        old(self)@.tokens[old(self)@.current],
                    ));
                }
                Ok(Expr::Literal { value: ExpressionLiteralValue::from_token(token) })
            },
            _ => Err(String::from_str("Expected expression")),
        }
    }

    fn unary(&mut self) -> (r: Result<Expr, String>)
        requires
            old(self).wf(),
        ensures
            final(self).wf(),
            final(self)@.tokens == old(self)@.tokens,
            match r {
                Ok(e) => p_unary(old(self)@.tokens, old(self)@.current) == (PResult::Parsed {
                    expr: e@,
                    next: final(self)@.current,
                }),
                Err(m) => p_unary(old(self)@.tokens, old(self)@.current) == (PResult::Failed {
                    message: m@,
                }),
            },
        decreases self@.tokens.len() - self@.current, 1int,
    {
        if self.match_token_type(vec![TokenType::Bang, TokenType::Minus]) {
            let operator = self.previous();
            let right = match self.unary() {
                Ok(e) => e,
                Err(m) => {
                    return Err(m);
                },
            };
            return Ok(Expr::Unary { operator, right: Box::new(right) });
        }
        self.primary()
    }

    fn factor(&mut self) -> (r: Result<Expr, String>)
        requires
            old(self).wf(),
        ensures
            final(self).wf(),
            final(self)@.tokens == old(self)@.tokens,
            match r {
                Ok(e) => p_factor(old(self)@.tokens, old(self)@.current) == (PResult::Parsed {
                    expr: e@,
                    next: final(self)@.current,
                }),
                Err(m) => p_factor(old(self)@.tokens, old(self)@.current) == (PResult::Failed {
                    message: m@,
                }),
            },
        decreases self@.tokens.len() - self@.current, 2int,
    {
        let ghost t0 = old(self)@.tokens;
        let ghost pos0 = old(self)@.current;
        let mut expr = match self.unary() {
            Ok(e) => e,
            Err(m) => {
                return Err(m);
            },
        };
        proof {
            lemma_unary_progress(t0, pos0);
        }
        loop
            invariant
                self.wf(),
                self@.tokens == old(self)@.tokens,
                old(self)@.current <= self@.current,
                p_binary(old(self)@.tokens, old(self)@.current, 1) == p_binary_tail(
                    old(self)@.tokens,
                    self@.current,
                    1,
                    expr@,
                ),
            ensures
                self.wf(),
                self@.tokens == old(self)@.tokens,
                p_binary(old(self)@.tokens, old(self)@.current, 1) == (PResult::Parsed {
                    expr: expr@,
                    next: self@.current,
                }),
            decreases self@.tokens.len() - self@.current,
        {
            let ghost cur_i = self@.current;
            if !self.match_token_type(vec![TokenType::Slash, TokenType::Star]) {
                break;
            }
            let operator = self.previous();
            let right = match self.unary() {
                Ok(e) => e,
                Err(m) => {
                    return Err(m);
                },
            };
            proof {
                lemma_unary_progress(old(self)@.tokens, cur_i + 1);
            }
            expr = Expr::Binary { left: Box::new(expr), operator, right: Box::new(right) };
        }
        Ok(expr)
    }

    fn term(&mut self) -> (r: Result<Expr, String>)
        requires
            old(self).wf(),
        ensures
            final(self).wf(),
            final(self)@.tokens == old(self)@.tokens,
            match r {
                Ok(e) => p_term(old(self)@.tokens, old(self)@.current) == (PResult::Parsed {
                    expr: e@,
                    next: final(self)@.current,
                }),
                Err(m) => p_term(old(self)@.tokens, old(self)@.current) == (PResult::Failed {
                    message: m@,
                }),
            },
        decreases self@.tokens.len() - self@.current, 3int,
    {
        let ghost t0 = old(self)@.tokens;
        let ghost pos0 = old(self)@.current;
        let mut expr = match self.factor() {
            Ok(e) => e,
            Err(m) => {
                return Err(m);
            },
        };
        proof {
            lemma_binary_progress(t0, pos0, 1);
        }
        loop
            invariant
                self.wf(),
                self@.tokens == old(self)@.tokens,
                old(self)@.current <= self@.current,
                p_binary(old(self)@.tokens, old(self)@.current, 2) == p_binary_tail(
                    old(self)@.tokens,
                    self@.current,
                    2,
                    expr@,
                ),
            ensures
                self.wf(),
                self@.tokens == old(self)@.tokens,
                p_binary(old(self)@.tokens, old(self)@.current, 2) == (PResult::Parsed {
                    expr: expr@,
                    next: self@.current,
                }),
            decreases self@.tokens.len() - self@.current,
        {
            let ghost cur_i = self@.current;
            if !self.match_token_type(vec![TokenType::Minus, TokenType::Plus]) {
                break;
            }
            let operator = self.previous();
            let right = match self.factor() {
                Ok(e) => e,
                Err(m) => {
                    return Err(m);
                },
            };
            proof {
                lemma_binary_progress(old(self)@.tokens, cur_i + 1, 1);
            }
            expr = Expr::Binary { left: Box::new(expr), operator, right: Box::new(right) };
        }
        Ok(expr)
    }

    fn comparison(&mut self) -> (r: Result<Expr, String>)
        requires
            old(self).wf(),
        ensures
            final(self).wf(),
            final(self)@.tokens == old(self)@.tokens,
            match r {
                Ok(e) => p_comparison(old(self)@.tokens, old(self)@.current) == (PResult::Parsed {
                    expr: e@,
                    next: final(self)@.current,
                }),
                Err(m) => p_comparison(old(self)@.tokens, old(self)@.current) == (PResult::Failed {
                    message: m@,
                }),
            },
        decreases self@.tokens.len() - self@.current, 4int,
    {
        let ghost t0 = old(self)@.tokens;
        let ghost pos0 = old(self)@.current;
        let mut expr = match self.term() {
            Ok(e) => e,
            Err(m) => {
                return Err(m);
            },
        };
        proof {
            lemma_binary_progress(t0, pos0, 2);
        }
        loop
            invariant
                self.wf(),
                self@.tokens == old(self)@.tokens,
                old(self)@.current <= self@.current,
                p_binary(old(self)@.tokens, old(self)@.current, 3) == p_binary_tail(
                    old(self)@.tokens,
                    self@.current,
                    3,
                    expr@,
                ),
            ensures
                self.wf(),
                self@.tokens == old(self)@.tokens,
                p_binary(old(self)@.tokens, old(self)@.current, 3) == (PResult::Parsed {
                    expr: expr@,
                    next: self@.current,
                }),
            decreases self@.tokens.len() - self@.current,
        {
            let ghost cur_i = self@.current;
            if !self.match_token_type(
                vec![
                    TokenType::Greater,
                    TokenType::GreaterEqual,
                    TokenType::Less,
                    TokenType::LessEqual,
                ],
            ) {
                break;
            }
            let operator = self.previous();
            let right = match self.term() {
                Ok(e) => e,
                Err(m) => {
                    return Err(m);
                },
            };
            proof {
                lemma_binary_progress(old(self)@.tokens, cur_i + 1, 2);
            }
            expr = Expr::Binary { left: Box::new(expr), operator, right: Box::new(right) };
        }
        Ok(expr)
    }

    fn equality(&mut self) -> (r: Result<Expr, String>)
        requires
            old(self).wf(),
        ensures
            final(self).wf(),
            final(self)@.tokens == old(self)@.tokens,
            match r {
                Ok(e) => p_equality(old(self)@.tokens, old(self)@.current) == (PResult::Parsed {
                    expr: e@,
                    next: final(self)@.current,
                }),
                Err(m) => p_equality(old(self)@.tokens, old(self)@.current) == (PResult::Failed {
                    message: m@,
                }),
            },
        decreases self@.tokens.len() - self@.current, 5int,
    {
        let ghost t0 = old(self)@.tokens;
        let ghost pos0 = old(self)@.current;
        let mut expr = match self.comparison() {
            Ok(e) => e,
            Err(m) => {
                return Err(m);
            },
        };
        proof {
            lemma_binary_progress(t0, pos0, 3);
        }
        loop
            invariant
                self.wf(),
                self@.tokens == old(self)@.tokens,
                old(self)@.current <= self@.current,
                p_binary(old(self)@.tokens, old(self)@.current, 4) == p_binary_tail(
                    old(self)@.tokens,
                    self@.current,
                    4,
                    expr@,
                ),
            ensures
                self.wf(),
                self@.tokens == old(self)@.tokens,
                p_binary(old(self)@.tokens, old(self)@.current, 4) == (PResult::Parsed {
                    expr: expr@,
                    next: self@.current,
                }),
            decreases self@.tokens.len() - self@.current,
        {
            let ghost cur_i = self@.current;
            if !self.match_token_type(vec![TokenType::BangEqual, TokenType::EqualEqual]) {
                break;
            }
            let operator = self.previous();
            let right = match self.comparison() {
                Ok(e) => e,
                Err(m) => {
                    return Err(m);
                },
            };
            proof {
                lemma_binary_progress(old(self)@.tokens, cur_i + 1, 3);
            }
            expr = Expr::Binary { left: Box::new(expr), operator, right: Box::new(right) };
        }
        Ok(expr)
    }

    fn expression(&mut self) -> (r: Result<Expr, String>)
        requires
            old(self).wf(),
        ensures
            final(self).wf(),
            final(self)@.tokens == old(self)@.tokens,
            match r {
                Ok(e) => p_expression(old(self)@.tokens, old(self)@.current) == (PResult::Parsed {
                    expr: e@,
                    next: final(self)@.current,
                }),
                Err(m) => p_expression(old(self)@.tokens, old(self)@.current) == (PResult::Failed {
                    message: m@,
                }),
            },
        decreases self@.tokens.len() - self@.current, 6int,
    {
        self.equality()
    }

    /// Parses one expression from the cursor forward. Trailing tokens after
    /// the expression are left unconsumed.
    pub fn parse(&mut self) -> (r: Result<Expr, String>)
        requires
            old(self).wf(),
        ensures
            final(self).wf(),
            final(self)@.tokens == old(self)@.tokens,
            match r {
                Ok(e) => p_expression(old(self)@.tokens, old(self)@.current) == (PResult::Parsed {
                    expr: e@,
                    next: final(self)@.current,
                }),
                Err(m) => p_expression(old(self)@.tokens, old(self)@.current) == (PResult::Failed {
                    message: m@,
                }),
            },
    {
        self.expression()
    }

    /// Discards tokens up to the next likely statement boundary: just past a
    /// semicolon, at a statement-starting keyword, or at the end of input.
    /// Meant for error recovery once statement-level parsing drives the
    /// parser; nothing invokes it yet.
    #[allow(dead_code)]
    fn synchronize(&mut self)
        requires
            old(self).wf(),
        ensures
            final(self).wf(),
            final(self)@.tokens == old(self)@.tokens,
            old(self)@.current <= final(self)@.current,
            tok_at(final(self)@.tokens, final(self)@.current).token_type == TokenType::Eof || (
            final(self)@.current >= 1 && final(self)@.tokens[final(self)@.current - 1].token_type
                == TokenType::Semicolon) || is_sync_start(
                tok_at(final(self)@.tokens, final(self)@.current).token_type,
            ),
    {
        if self.is_at_end() {
            return;
        }
        self.advance();
        while !self.is_at_end()
            invariant
                self.wf(),
                self@.tokens == old(self)@.tokens,
                old(self)@.current < self@.current,
            decreases self@.tokens.len() - self@.current,
        {
            if self.previous().token_type == TokenType::Semicolon {
                return;
            }
            match self.peek().token_type {
                TokenType::Class
                | TokenType::Fn
                | TokenType::Let
                | TokenType::For
                | TokenType::If
                | TokenType::While
                | TokenType::Print
                | TokenType::Return => {
                    return;
                },
                _ => {},
            }
            self.advance();
        }
    }
}

/// A token category that opens a statement: where error recovery may resume.
pub open spec fn is_sync_start(tt: TokenType) -> bool {
    tt == TokenType::Class || tt == TokenType::Fn || tt == TokenType::Let || tt == TokenType::For
        || tt == TokenType::If || tt == TokenType::While || tt == TokenType::Print || tt
        == TokenType::Return
}

} // verus!
