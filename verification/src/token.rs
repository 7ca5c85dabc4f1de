//! The classified, positioned unit of lexical input: a category, the exact
//! source substring it was matched from, an optional literal payload, and the
//! 1-based source line it ended on.

use vstd::prelude::*;
use vstd::string::StringExecFns;
use crate::literal_value::LiteralValue;
use crate::literal_value::LiteralValueV;
use crate::text::i64_magnitude_to_string;
use crate::text::spec_int_magnitude_digits;
use crate::token_type::TokenType;

verus! {

/// Mathematical value of a [`Token`].
pub struct TokenV {
    pub token_type: TokenType,
    pub lexeme: Seq<char>,
    pub literal: Option<LiteralValueV>,
    pub line_number: nat,
}

/// A lexical token. Created by the scanner, read-only afterwards.
#[derive(Debug)]
pub struct Token {
    pub token_type: TokenType,
    pub lexeme: String,
    pub literal: Option<LiteralValue>,
    pub line_number: usize,
}

impl View for Token {
    type V = TokenV;

    open spec fn view(&self) -> TokenV {
        TokenV {
            token_type: self.token_type,
            lexeme: self.lexeme@,
            literal: match self.literal {
                Option::Some(l) => Option::Some(l@),
                Option::None => Option::None,
            },
            line_number: self.line_number as nat,
        }
    }
}

impl DeepView for Token {
    type V = TokenV;

    open spec fn deep_view(&self) -> TokenV {
        self.view()
    }
}

/// Rendering of a literal payload inside a token's display form.
pub open spec fn spec_literal_summary(l: LiteralValueV) -> Seq<char> {
    match l {
        LiteralValueV::IntegerValue(i) => if i < 0 {
            seq!['-'] + spec_int_magnitude_digits(i)
        } else {
            spec_int_magnitude_digits(i)
        },
        LiteralValueV::NumberValue(d) => d.display(),
        LiteralValueV::StringValue(s) => s,
        LiteralValueV::IdentifierValue(s) => s,
    }
}

impl TokenV {
    /// Display form of a token: category name, lexeme and literal payload,
    /// separated by single spaces, with `None` for an absent payload.
    pub open spec fn display(self) -> Seq<char> {
        self.token_type.spec_name() + seq![' '] + self.lexeme + seq![' '] + match self.literal {
            Option::Some(l) => spec_literal_summary(l),
            Option::None => "None"@,
        }
    }
}

impl Token {
    /// Builds a token from its parts.
    pub fn new(
        token_type: TokenType,
        lexeme: String,
        literal: Option<LiteralValue>,
        line_number: usize,
    ) -> (t: Token)
        ensures
            t == (Token { token_type, lexeme, literal, line_number }),
    {
        Token { token_type, lexeme, literal, line_number }
    }

    /// An exact copy.
    pub fn duplicate(&self) -> (t: Token)
        ensures
            t == *self,
    {
        Token {
            token_type: self.token_type,
            lexeme: self.lexeme.clone(),
            literal: match &self.literal {
                Option::Some(l) => Option::Some(l.duplicate()),
                Option::None => Option::None,
            },
            line_number: self.line_number,
        }
    }

    /// Renders the display form described by [`TokenV::display`].
    pub fn to_string(&self) -> (r: String)
        ensures
            r@ == self@.display(),
    {
        let mut out = String::new();
        out.append(self.token_type.name());
        out.append(" ");
        out.append(self.lexeme.as_str());
        out.append(" ");
        proof {
            reveal_strlit(" ");
            assert(" "@ =~= seq![' ']);
        }
        match &self.literal {
            Option::None => {
                out.append("None");
            },
            Option::Some(LiteralValue::IntegerValue(n)) => {
                if *n < 0 {
                    out.append("-");
                    proof {
                        reveal_strlit("-");
                        assert("-"@ =~= seq!['-']);
                    }
                }
                let mag = i64_magnitude_to_string(*n);
                out.append(mag.as_str());
            },
            Option::Some(LiteralValue::NumberValue(d)) => {
                let r = d.render();
                out.append(r.as_str());
            },
            Option::Some(LiteralValue::StringValue(s)) => {
                out.append(s.as_str());
            },
            Option::Some(LiteralValue::IdentifierValue(s)) => {
                out.append(s.as_str());
            },
        }
        out
    }
}

} // verus!
