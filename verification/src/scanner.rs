//! The lexical scanner: a single left-to-right pass that turns source text
//! into an ordered, EOF-terminated token sequence, collecting every lexical
//! error it meets and failing with all of them at once.
//!
//! The pass is modelled by [`spec_step`], which says for every cursor
//! position what the scanner consumes and emits there, and by [`spec_scan`],
//! which folds the steps over the whole text. The executable [`Scanner`] is
//! proved to produce exactly that token and error sequence.

use vstd::prelude::*;
use vstd::string::StrSliceExecFns;
use vstd::string::StringExecFns;
use crate::exception::spec_error_message;
use crate::exception::Exception;
use crate::literal_value::Decimal;
use crate::literal_value::DecimalV;
use crate::literal_value::LiteralValue;
use crate::literal_value::LiteralValueV;
use crate::text::is_alpha_char;
use crate::text::is_alpha_numeric_char;
use crate::text::is_digit_char;
use crate::text::spec_nat_digits;
use crate::text::str_eq;
use crate::text::u64_to_string;
use crate::token::Token;
use crate::token::TokenV;
use crate::token_type::TokenType;

verus! {

/// A decimal digit.
pub fn is_digit(ch: char) -> (r: bool)
    ensures
        r == is_digit_char(ch),
{
    let u = ch as u32;
    48 <= u && u <= 57
}

/// An ASCII letter or underscore: the characters that open an identifier.
pub fn is_alpha(ch: char) -> (r: bool)
    ensures
        r == is_alpha_char(ch),
{
    let u = ch as u32;
    (97 <= u && u <= 122) || (65 <= u && u <= 90) || ch == '_'
}

/// A character that continues an identifier.
pub fn is_alpha_numeric(ch: char) -> (r: bool)
    ensures
        r == is_alpha_numeric_char(ch),
{
    is_digit(ch) || is_alpha(ch)
}

/// The fixed keyword table: reserved lexemes and their token categories,
/// including the symbol aliases of the word operators.
pub open spec fn spec_keyword_kind(s: Seq<char>) -> Option<TokenType> {
    if s == "and"@ || s == "&&"@ {
        Some(TokenType::And)
    } else if s == "or"@ || s == "||"@ {
        Some(TokenType::Or)
    } else if s == "true"@ {
        Some(TokenType::True)
    } else if s == "false"@ {
        Some(TokenType::False)
    } else if s == "null"@ {
        Some(TokenType::Null)
    } else if s == "if"@ {
        Some(TokenType::If)
    } else if s == "else"@ {
        Some(TokenType::Else)
    } else if s == "return"@ {
        Some(TokenType::Return)
    } else if s == "print"@ {
        Some(TokenType::Print)
    } else if s == "while"@ {
        Some(TokenType::While)
    } else if s == "for"@ {
        Some(TokenType::For)
    } else if s == "let"@ {
        Some(TokenType::Let)
    } else if s == "this"@ {
        Some(TokenType::This)
    } else if s == "extends"@ {
        Some(TokenType::Extends)
    } else if s == "fn"@ {
        Some(TokenType::Fn)
    } else if s == "class"@ {
        Some(TokenType::Class)
    } else {
        None
    }
}

/// Looks a lexeme up in the fixed keyword table.
pub fn keyword_kind(lexeme: &str) -> (r: Option<TokenType>)
    ensures
        r == spec_keyword_kind(lexeme@),
{
    if str_eq(lexeme, "and") || str_eq(lexeme, "&&") {
        Some(TokenType::And)
    } else if str_eq(lexeme, "or") || str_eq(lexeme, "||") {
        Some(TokenType::Or)
    } else if str_eq(lexeme, "true") {
        Some(TokenType::True)
    } else if str_eq(lexeme, "false") {
        Some(TokenType::False)
    } else if str_eq(lexeme, "null") {
        Some(TokenType::Null)
    } else if str_eq(lexeme, "if") {
        Some(TokenType::If)
    } else if str_eq(lexeme, "else") {
        Some(TokenType::Else)
    } else if str_eq(lexeme, "return") {
        Some(TokenType::Return)
    } else if str_eq(lexeme, "print") {
        Some(TokenType::Print)
    } else if str_eq(lexeme, "while") {
        Some(TokenType::While)
    } else if str_eq(lexeme, "for") {
        Some(TokenType::For)
    } else if str_eq(lexeme, "let") {
        Some(TokenType::Let)
    } else if str_eq(lexeme, "this") {
        Some(TokenType::This)
    } else if str_eq(lexeme, "extends") {
        Some(TokenType::Extends)
    } else if str_eq(lexeme, "fn") {
        Some(TokenType::Fn)
    } else if str_eq(lexeme, "class") {
        Some(TokenType::Class)
    } else {
        None
    }
}

/// First position at or after `i` whose character is not a digit, or the end
/// of the text.
pub open spec fn digits_end(s: Seq<char>, i: int) -> int
    decreases s.len() - i,
{
    if 0 <= i < s.len() && is_digit_char(s[i]) {
        digits_end(s, i + 1)
    } else {
        i
    }
}

pub proof fn lemma_digits_end(s: Seq<char>, i: int)
    requires
        0 <= i <= s.len(),
    ensures
        i <= digits_end(s, i) <= s.len(),
        forall|j: int| i <= j < digits_end(s, i) ==> is_digit_char(#[trigger] s[j]),
        digits_end(s, i) == s.len() || !is_digit_char(s[digits_end(s, i)]),
    decreases s.len() - i,
{
    if i < s.len() && is_digit_char(s[i]) {
        lemma_digits_end(s, i + 1);
    }
}

/// First position at or after `i` whose character does not continue an
/// identifier, or the end of the text.
pub open spec fn ident_end(s: Seq<char>, i: int) -> int
    decreases s.len() - i,
{
    if 0 <= i < s.len() && is_alpha_numeric_char(s[i]) {
        ident_end(s, i + 1)
    } else {
        i
    }
}

pub proof fn lemma_ident_end(s: Seq<char>, i: int)
    requires
        0 <= i <= s.len(),
    ensures
        i <= ident_end(s, i) <= s.len(),
        forall|j: int| i <= j < ident_end(s, i) ==> is_alpha_numeric_char(#[trigger] s[j]),
        ident_end(s, i) == s.len() || !is_alpha_numeric_char(s[ident_end(s, i)]),
    decreases s.len() - i,
{
    if i < s.len() && is_alpha_numeric_char(s[i]) {
        lemma_ident_end(s, i + 1);
    }
}

/// First newline at or after `i`, or the end of the text: where a line
/// comment stops consuming.
pub open spec fn line_comment_end(s: Seq<char>, i: int) -> int
    decreases s.len() - i,
{
    if 0 <= i < s.len() && s[i] != '\n' {
        line_comment_end(s, i + 1)
    } else {
        i
    }
}

pub proof fn lemma_line_comment_end(s: Seq<char>, i: int)
    requires
        0 <= i <= s.len(),
    ensures
        i <= line_comment_end(s, i) <= s.len(),
        forall|j: int| i <= j < line_comment_end(s, i) ==> #[trigger] s[j] != '\n',
        line_comment_end(s, i) == s.len() || s[line_comment_end(s, i)] == '\n',
    decreases s.len() - i,
{
    if i < s.len() && s[i] != '\n' {
        lemma_line_comment_end(s, i + 1);
    }
}

/// First double quote at or after `i`, or the end of the text.
pub open spec fn quote_end(s: Seq<char>, i: int) -> int
    decreases s.len() - i,
{
    if 0 <= i < s.len() && s[i] != '"' {
        quote_end(s, i + 1)
    } else {
        i
    }
}

pub proof fn lemma_quote_end(s: Seq<char>, i: int)
    requires
        0 <= i <= s.len(),
    ensures
        i <= quote_end(s, i) <= s.len(),
        forall|j: int| i <= j < quote_end(s, i) ==> #[trigger] s[j] != '"',
        quote_end(s, i) == s.len() || s[quote_end(s, i)] == '"',
    decreases s.len() - i,
{
    if i < s.len() && s[i] != '"' {
        lemma_quote_end(s, i + 1);
    }
}

/// Position of the first `*/` at or after `i`, or the length of the text when
/// no closing marker follows.
pub open spec fn block_comment_close(s: Seq<char>, i: int) -> int
    decreases s.len() - i,
{
    if 0 <= i && i + 1 < s.len() {
        if s[i] == '*' && s[i + 1] == '/' {
            i
        } else {
            block_comment_close(s, i + 1)
        }
    } else {
        s.len() as int
    }
}

pub proof fn lemma_block_comment_close(s: Seq<char>, i: int)
    requires
        0 <= i <= s.len(),
    ensures
        i <= block_comment_close(s, i) <= s.len(),
        block_comment_close(s, i) < s.len() ==> block_comment_close(s, i) + 1 < s.len()
            && s[block_comment_close(s, i)] == '*' && s[block_comment_close(s, i) + 1] == '/',
        forall|j: int|
            i <= j < block_comment_close(s, i) ==> !(j + 1 < s.len() && #[trigger] s[j] == '*'
                && s[j + 1] == '/'),
    decreases s.len() - i,
{
    if i + 1 < s.len() && !(s[i] == '*' && s[i + 1] == '/') {
        lemma_block_comment_close(s, i + 1);
    }
}

/// Number of newline characters in `s[i..j)`.
pub open spec fn newline_count(s: Seq<char>, i: int, j: int) -> nat
    decreases j - i,
{
    if i < j {
        newline_count(s, i, j - 1) + (if 0 <= j - 1 < s.len() && s[j - 1] == '\n' {
            1nat
        } else {
            0nat
        })
    } else {
        0
    }
}

/// The EOF sentinel appended once to every scan, whatever the input.
pub open spec fn eof_token() -> TokenV {
    TokenV {
        token_type: TokenType::Eof,
        lexeme: Seq::empty(),
        literal: None,
        line_number: 0,
    }
}

/// A token without a literal payload, with the lexeme `s[start..end)`.
pub open spec fn simple_token(
    s: Seq<char>,
    start: int,
    end: int,
    token_type: TokenType,
    line: nat,
) -> TokenV {
    TokenV { token_type, lexeme: s.subrange(start, end), literal: None, line_number: line }
}

/// The message reported for a character no token class accepts.
pub open spec fn unrecognizable_message(line: nat) -> Seq<char> {
    "Unrecognizable token at line "@ + spec_nat_digits(line)
}

/// The message reported for a string literal still open at end of input.
pub open spec fn unterminated_message(line: nat) -> Seq<char> {
    spec_error_message("Unterminated string"@, line)
}

/// What one scanner step produces: a token, a lexical error, or nothing
/// (discarded whitespace or comment text).
pub enum StepOut {
    Emit(TokenV),
    Reject(Seq<char>),
    Skip,
}

/// One scanner step: the cursor and line after it, and what it produced.
pub struct Step {
    pub next: int,
    pub line: nat,
    pub out: StepOut,
}

/// A one- or two-character operator, the two-character form taken when the
/// next character is `=`.
pub open spec fn two_char_step(
    s: Seq<char>,
    pos: int,
    line: nat,
    single: TokenType,
    double: TokenType,
) -> Step {
    if pos + 1 < s.len() && s[pos + 1] == '=' {
        Step { next: pos + 2, line, out: StepOut::Emit(simple_token(s, pos, pos + 2, double, line)) }
    } else {
        Step { next: pos + 1, line, out: StepOut::Emit(simple_token(s, pos, pos + 1, single, line)) }
    }
}

/// The line counter after the string literal opened at `pos`: the opening
/// line plus the newlines inside the literal's body.
pub open spec fn string_line(s: Seq<char>, pos: int, line: nat) -> nat {
    (line + newline_count(s, pos + 1, quote_end(s, pos + 1))) as nat
}

/// The string token for the literal opened by the quote at `pos`, which must
/// have a closing quote: lexeme with both quotes, payload without them.
pub open spec fn string_token(s: Seq<char>, pos: int, line: nat) -> TokenV {
    let q = quote_end(s, pos + 1);
    TokenV {
        token_type: TokenType::String,
        lexeme: s.subrange(pos, q + 1),
        literal: Some(LiteralValueV::StringValue(s.subrange(pos + 1, q))),
        line_number: string_line(s, pos, line),
    }
}

/// A string literal opened by the quote at `pos`: consumed to the matching
/// quote, with embedded newlines counted into the line number; reaching end
/// of input first is the unterminated-string error, tagged with the line on
/// which the string began.
pub open spec fn string_step(s: Seq<char>, pos: int, line: nat) -> Step {
    let q = quote_end(s, pos + 1);
    if q == s.len() {
        Step {
            next: s.len() as int,
            line: string_line(s, pos, line),
            out: StepOut::Reject(unterminated_message(line)),
        }
    } else {
        Step { next: q + 1, line: string_line(s, pos, line), out: StepOut::Emit(string_token(s, pos, line)) }
    }
}

/// Whether the number literal opened at `pos` carries a fractional part: its
/// digit run is followed by a `.` and at least one more digit.
pub open spec fn number_has_frac(s: Seq<char>, pos: int) -> bool {
    let i1 = digits_end(s, pos + 1);
    i1 + 1 < s.len() && s[i1] == '.' && is_digit_char(s[i1 + 1])
}

/// End of the number literal opened by the digit at `pos`.
pub open spec fn number_end(s: Seq<char>, pos: int) -> int {
    let i1 = digits_end(s, pos + 1);
    if number_has_frac(s, pos) {
        digits_end(s, i1 + 1)
    } else {
        i1
    }
}

/// The number token for the literal opened by the digit at `pos`, carrying
/// its digits as a decimal payload.
pub open spec fn number_token(s: Seq<char>, pos: int, line: nat) -> TokenV {
    let i1 = digits_end(s, pos + 1);
    let end = number_end(s, pos);
    TokenV {
        token_type: TokenType::Number,
        lexeme: s.subrange(pos, end),
        literal: Some(
            LiteralValueV::NumberValue(
                DecimalV {
                    negative: false,
                    int_part: s.subrange(pos, i1),
                    frac_part: if number_has_frac(s, pos) {
                        s.subrange(i1 + 1, end)
                    } else {
                        Seq::empty()
                    },
                },
            ),
        ),
        line_number: line,
    }
}

/// A number literal opened by the digit at `pos`: the digit run, and a
/// fractional part when a `.` followed by a digit comes next.
pub open spec fn number_step(s: Seq<char>, pos: int, line: nat) -> Step {
    Step { next: number_end(s, pos), line, out: StepOut::Emit(number_token(s, pos, line)) }
}

/// The token for the identifier opened at `pos`, classified through the
/// keyword table first.
pub open spec fn identifier_token(s: Seq<char>, pos: int, line: nat) -> TokenV {
    let lex = s.subrange(pos, ident_end(s, pos + 1));
    let tt = match spec_keyword_kind(lex) {
        Some(k) => k,
        None => TokenType::Identifier,
    };
    TokenV { token_type: tt, lexeme: lex, literal: None, line_number: line }
}

/// An identifier opened by the letter or underscore at `pos`, classified
/// through the keyword table first.
pub open spec fn identifier_step(s: Seq<char>, pos: int, line: nat) -> Step {
    Step {
        next: ident_end(s, pos + 1),
        line,
        out: StepOut::Emit(identifier_token(s, pos, line)),
    }
}

/// One scanner step at position `pos` (which must be inside the text): the
/// character-class dispatch of the scan.
pub open spec fn spec_step(s: Seq<char>, pos: int, line: nat) -> Step {
    let c = s[pos];
    if c == '(' {
        Step {
            next: pos + 1,
            line,
            out: StepOut::Emit(simple_token(s, pos, pos + 1, TokenType::LeftParen, line)),
        }
    } else if c == ')' {
        Step {
            next: pos + 1,
            line,
            out: StepOut::Emit(simple_token(s, pos, pos + 1, TokenType::RightParen, line)),
        }
    } else if c == '{' {
        Step {
            next: pos + 1,
            line,
            out: StepOut::Emit(simple_token(s, pos, pos + 1, TokenType::LeftBrace, line)),
        }
    } else if c == '}' {
        Step {
            next: pos + 1,
            line,
            out: StepOut::Emit(simple_token(s, pos, pos + 1, TokenType::RightBrace, line)),
        }
    } else if c == ',' {
        Step {
            next: pos + 1,
            line,
            out: StepOut::Emit(simple_token(s, pos, pos + 1, TokenType::Comma, line)),
        }
    } else if c == '.' {
        Step {
            next: pos + 1,
            line,
            out: StepOut::Emit(simple_token(s, pos, pos + 1, TokenType::Dot, line)),
        }
    } else if c == '-' {
        Step {
            next: pos + 1,
            line,
            out: StepOut::Emit(simple_token(s, pos, pos + 1, TokenType::Minus, line)),
        }
    } else if c == '+' {
        Step {
            next: pos + 1,
            line,
            out: StepOut::Emit(simple_token(s, pos, pos + 1, TokenType::Plus, line)),
        }
    } else if c == ';' {
        Step {
            next: pos + 1,
            line,
            out: StepOut::Emit(simple_token(s, pos, pos + 1, TokenType::Semicolon, line)),
        }
    } else if c == '*' {
        Step {
            next: pos + 1,
            line,
            out: StepOut::Emit(simple_token(s, pos, pos + 1, TokenType::Star, line)),
        }
    } else if c == '!' {
        two_char_step(s, pos, line, TokenType::Bang, TokenType::BangEqual)
    } else if c == '=' {
        two_char_step(s, pos, line, TokenType::Equal, TokenType::EqualEqual)
    } else if c == '<' {
        two_char_step(s, pos, line, TokenType::Less, TokenType::LessEqual)
    } else if c == '>' {
        two_char_step(s, pos, line, TokenType::Greater, TokenType::GreaterEqual)
    } else if c == '/' {
        if pos + 1 < s.len() && s[pos + 1] == '/' {
            Step { next: line_comment_end(s, pos + 2), line, out: StepOut::Skip }
        } else if pos + 1 < s.len() && s[pos + 1] == '*' {
            let close = block_comment_close(s, pos + 2);
            Step {
                next: if close == s.len() {
                    s.len() as int
                } else {
                    close + 2
                },
                line,
                out: StepOut::Skip,
            }
        } else {
            Step {
                next: pos + 1,
                line,
                out: StepOut::Emit(simple_token(s, pos, pos + 1, TokenType::Slash, line)),
            }
        }
    } else if c == ' ' || c == '\r' || c == '\t' {
        Step { next: pos + 1, line, out: StepOut::Skip }
    } else if c == '\n' {
        Step { next: pos + 1, line: line + 1, out: StepOut::Skip }
    } else if c == '"' {
        string_step(s, pos, line)
    } else if is_digit_char(c) {
        number_step(s, pos, line)
    } else if is_alpha_char(c) {
        identifier_step(s, pos, line)
    } else {
        Step { next: pos + 1, line, out: StepOut::Reject(unrecognizable_message(line)) }
    }
}

/// Every step consumes at least one character and stays inside the text.
pub proof fn lemma_step_bounds(s: Seq<char>, pos: int, line: nat)
    requires
        0 <= pos < s.len(),
    ensures
        pos < spec_step(s, pos, line).next <= s.len(),
{
    lemma_digits_end(s, pos + 1);
    let i1 = digits_end(s, pos + 1);
    if i1 + 1 < s.len() && is_digit_char(s[i1 + 1]) {
        lemma_digits_end(s, i1 + 1);
        assert(digits_end(s, i1 + 1) == digits_end(s, i1 + 2));
    }
    lemma_ident_end(s, pos + 1);
    lemma_quote_end(s, pos + 1);
    if pos + 2 <= s.len() {
        lemma_line_comment_end(s, pos + 2);
        lemma_block_comment_close(s, pos + 2);
    }
}

/// The tokens and the error messages of the scan of `s` from position `pos`
/// on, with the line counter at `line`.
pub open spec fn spec_scan(s: Seq<char>, pos: int, line: nat) -> (Seq<TokenV>, Seq<Seq<char>>)
    decreases s.len() - pos,
{
    if !(0 <= pos < s.len()) {
        (Seq::empty(), Seq::empty())
    } else {
        let st = spec_step(s, pos, line);
        let np = if st.next <= pos {
            pos + 1
        } else if st.next > s.len() {
            s.len() as int
        } else {
            st.next
        };
        let rest = spec_scan(s, np, st.line);
        match st.out {
            StepOut::Emit(t) => (seq![t] + rest.0, rest.1),
            StepOut::Reject(m) => (rest.0, seq![m] + rest.1),
            StepOut::Skip => rest,
        }
    }
}

/// Unfolds one scan step: from a position inside the text, the scan is the
/// step there followed by the scan from the step's successor.
pub proof fn lemma_scan_unfold(s: Seq<char>, pos: int, line: nat)
    requires
        0 <= pos < s.len(),
    ensures
        ({
            let st = spec_step(s, pos, line);
            let rest = spec_scan(s, st.next, st.line);
            spec_scan(s, pos, line) == match st.out {
                StepOut::Emit(t) => (seq![t] + rest.0, rest.1),
                StepOut::Reject(m) => (rest.0, seq![m] + rest.1),
                StepOut::Skip => rest,
            }
        }),
{
    lemma_step_bounds(s, pos, line);
}

/// The token sequence of a scan of `src`: the scanned tokens followed by the
/// single EOF sentinel.
pub open spec fn scanned_tokens(src: Seq<char>) -> Seq<TokenV> {
    spec_scan(src, 0, 1).0.push(eof_token())
}

/// The lexical error messages of a scan of `src`, in source order.
pub open spec fn scan_errors(src: Seq<char>) -> Seq<Seq<char>> {
    spec_scan(src, 0, 1).1
}

/// The aggregated failure text: every collected message, each followed by a
/// newline.
pub open spec fn spec_error_report(errs: Seq<Seq<char>>) -> Seq<char>
    decreases errs.len(),
{
    if errs.len() == 0 {
        Seq::empty()
    } else {
        errs[0] + "\n"@ + spec_error_report(errs.drop_first())
    }
}

pub proof fn lemma_error_report_push(errs: Seq<Seq<char>>, m: Seq<char>)
    ensures
        spec_error_report(errs.push(m)) == spec_error_report(errs) + m + "\n"@,
    decreases errs.len(),
{
    let p = errs.push(m);
    assert(p.len() == errs.len() + 1);
    assert(p[0] == if errs.len() == 0 { m } else { errs[0] });
    assert(spec_error_report(p) == p[0] + "\n"@ + spec_error_report(p.drop_first()));
    if errs.len() == 0 {
        assert(p.drop_first() =~= Seq::<Seq<char>>::empty());
        assert(spec_error_report(p.drop_first()) == Seq::<char>::empty());
        assert(m + "\n"@ + Seq::<char>::empty() =~= m + "\n"@);
        assert(spec_error_report(errs) + m + "\n"@ =~= m + "\n"@);
    } else {
        assert(p.drop_first() =~= errs.drop_first().push(m));
        lemma_error_report_push(errs.drop_first(), m);
        assert(spec_error_report(errs) == errs[0] + "\n"@ + spec_error_report(errs.drop_first()));
        assert(errs[0] + "\n"@ + (spec_error_report(errs.drop_first()) + m + "\n"@) =~= (errs[0]
            + "\n"@ + spec_error_report(errs.drop_first())) + m + "\n"@);
        assert(spec_error_report(p) =~= spec_error_report(errs) + m + "\n"@);
    }
}

/// Mathematical state of a [`Scanner`].
pub struct ScannerV {
    pub source: Seq<char>,
    pub tokens: Seq<TokenV>,
    pub start: int,
    pub current: int,
    pub line: nat,
}

/// The lexer: private cursor state for exactly one pass over one source
/// text.
pub struct Scanner {
    source: String,
    tokens: Vec<Token>,
    start: usize,
    current: usize,
    line: usize,
}

impl View for Scanner {
    type V = ScannerV;

    closed spec fn view(&self) -> ScannerV {
        ScannerV {
            source: self.source@,
            tokens: self.tokens.deep_view(),
            start: self.start as int,
            current: self.current as int,
            line: self.line as nat,
        }
    }
}

impl Scanner {
    /// Cursor and lexeme start inside the text, and a line counter that
    /// cannot outrun the characters consumed.
    pub open spec fn wf(self) -> bool {
        &&& 0 <= self@.start <= self@.current <= self@.source.len()
        &&& self@.source.len() < usize::MAX
        &&& 1 <= self@.line <= self@.current + 1
    }

    /// A fresh scanner over `source`, at the first character of line 1.
    pub fn new(source: &str) -> (s: Scanner)
        requires
            source@.len() < usize::MAX,
        ensures
            s.wf(),
            s@.source == source@,
            s@.tokens == Seq::<TokenV>::empty(),
            s@.start == 0,
            s@.current == 0,
            s@.line == 1,
    {
        let s = Scanner {
            source: source.to_owned(),
            tokens: Vec::new(),
            start: 0,
            current: 0,
            line: 1,
        };
        proof {
            assert(s@.tokens =~= Seq::<TokenV>::empty());
        }
        s
    }

    fn is_at_end(&self) -> (r: bool)
        ensures
            r == (self@.current >= self@.source.len()),
    {
        self.current >= self.source.as_str().unicode_len()
    }

    fn advance(&mut self) -> (c: char)
        requires
            old(self).wf(),
            old(self)@.current < old(self)@.source.len(),
        ensures
            final(self).wf(),
            c == old(self)@.source[old(self)@.current],
            final(self)@ == (ScannerV { current: old(self)@.current + 1, ..old(self)@ }),
    {
        let c = self.source.as_str().get_char(self.current);
        self.current = self.current + 1;
        c
    }

    fn peek(&self) -> (c: char)
        requires
            self.wf(),
        ensures
            c == if self@.current < self@.source.len() {
                self@.source[self@.current]
            } else {
                '\0'
            },
    {
        if self.is_at_end() {
            return '\0';
        }
        self.source.as_str().get_char(self.current)
    }

    fn peek_next(&self) -> (c: char)
        requires
            self.wf(),
        ensures
            c == if self@.current + 1 < self@.source.len() {
                self@.source[self@.current + 1]
            } else {
                '\n'
            },
    {
        if self.current + 1 >= self.source.as_str().unicode_len() {
            return '\n';
        }
        self.source.as_str().get_char(self.current + 1)
    }

    fn char_match(&mut self, expected: char) -> (r: bool)
        requires
            old(self).wf(),
        ensures
            final(self).wf(),
            if old(self)@.current < old(self)@.source.len() && old(self)@.source[old(self)@.current]
                == expected {
                r && final(self)@ == (ScannerV { current: old(self)@.current + 1, ..old(self)@ })
            } else {
                !r && final(self)@ == old(self)@
            },
    {
        if self.is_at_end() {
            return false;
        }
        if self.peek() != expected {
            return false;
        }
        self.current = self.current + 1;
        true
    }

    fn text(&self, start: usize, end: usize) -> (r: String)
        requires
            start <= end <= self@.source.len(),
        ensures
            r@ == self@.source.subrange(start as int, end as int),
    {
        self.source.as_str().substring_char(start, end).to_owned()
    }

    fn current_text(&self) -> (r: String)
        requires
            self.wf(),
        ensures
            r@ == self@.source.subrange(self@.start, self@.current),
    {
        self.text(self.start, self.current)
    }

    fn add_token_literal(&mut self, token_type: TokenType, literal: Option<LiteralValue>) -> (r:
        Result<(), String>)
        requires
            old(self).wf(),
        ensures
            final(self).wf(),
            r is Ok,
            final(self)@ == (ScannerV {
                tokens: old(self)@.tokens.push(
                    TokenV {
                        token_type,
                        lexeme: old(self)@.source.subrange(old(self)@.start, old(self)@.current),
                        literal: literal.deep_view(),
                        line_number: old(self)@.line,
                    },
                ),
                ..old(self)@
            }),
    {
        let lexeme = self.current_text();
        let ghost t_v = TokenV {
            token_type,
            lexeme: old(self)@.source.subrange(old(self)@.start, old(self)@.current),
            literal: literal.deep_view(),
            line_number: old(self)@.line,
        };
        let token = Token { token_type, lexeme, literal, line_number: self.line };
        proof {
            assert(token@ == t_v);
        }
        self.tokens.push(token);
        proof {
            assert(self.tokens.deep_view() =~= old(self).tokens.deep_view().push(t_v));
        }
        Ok(())
    }

    fn add_token(&mut self, token_type: TokenType) -> (r: Result<(), String>)
        requires
            old(self).wf(),
        ensures
            final(self).wf(),
            r is Ok,
            final(self)@ == (ScannerV {
                tokens: old(self)@.tokens.push(
                    simple_token(
                        old(self)@.source,
                        old(self)@.start,
                        old(self)@.current,
                        token_type,
                        old(self)@.line,
                    ),
                ),
                ..old(self)@
            }),
    {
        self.add_token_literal(token_type, None)
    }

    fn single_line_comment(&mut self) -> (r: Result<(), String>)
        requires
            old(self).wf(),
        ensures
            final(self).wf(),
            r is Ok,
            final(self)@ == (ScannerV {
                current: line_comment_end(old(self)@.source, old(self)@.current),
                ..old(self)@
            }),
    {
        while !self.is_at_end() && self.peek() != '\n'
            invariant
                self.wf(),
                self@ == (ScannerV { current: self@.current, ..old(self)@ }),
                old(self)@.current <= self@.current,
                line_comment_end(self@.source, self@.current) == line_comment_end(
                    old(self)@.source,
                    old(self)@.current,
                ),
            decreases self@.source.len() - self@.current,
        {
            self.advance();
        }
        Ok(())
    }

    fn multi_line_comment(&mut self) -> (r: Result<(), String>)
        requires
            old(self).wf(),
        ensures
            final(self).wf(),
            r is Ok,
            final(self)@ == (ScannerV {
                current: ({
                    let close = block_comment_close(old(self)@.source, old(self)@.current);
                    if close == old(self)@.source.len() {
                        old(self)@.source.len() as int
                    } else {
                        close + 2
                    }
                }),
                ..old(self)@
            }),
    {
        proof {
            lemma_block_comment_close(old(self)@.source, old(self)@.current);
        }
        while !self.is_at_end()
            invariant
                self.wf(),
                self@ == (ScannerV { current: self@.current, ..old(self)@ }),
                old(self)@.current <= self@.current,
                block_comment_close(self@.source, self@.current) == block_comment_close(
                    old(self)@.source,
                    old(self)@.current,
                ),
            decreases self@.source.len() - self@.current,
        {
            if self.peek() == '*' && self.peek_next() == '/' {
                proof {
                    assert(block_comment_close(self@.source, self@.current) == self@.current);
                }
                self.advance();
                self.advance();
                return Ok(());
            }
            self.advance();
        }
        Ok(())
    }

    fn string(&mut self) -> (r: Result<(), String>)
        requires
            old(self).wf(),
            old(self)@.start + 1 == old(self)@.current,
            old(self)@.source[old(self)@.start] == '"',
        ensures
            final(self).wf(),
            ({
                let src = old(self)@.source;
                let q = quote_end(src, old(self)@.current);
                let line2 = string_line(src, old(self)@.start, old(self)@.line);
                if q == src.len() {
                    &&& (r matches Err(m) && m@ == unterminated_message(old(self)@.line))
                    &&& final(self)@ == (ScannerV {
                        current: src.len() as int,
                        line: line2,
                        ..old(self)@
                    })
                } else {
                    &&& r is Ok
                    &&& final(self)@ == (ScannerV {
                        current: q + 1,
                        line: line2,
                        tokens: old(self)@.tokens.push(
                            string_token(src, old(self)@.start, old(self)@.line),
                        ),
                        ..old(self)@
                    })
                }
            }),
    {
        let opening_line = self.line;
        proof {
            lemma_quote_end(old(self)@.source, old(self)@.current);
        }
        while !self.is_at_end() && self.peek() != '"'
            invariant
                self.wf(),
                self@ == (ScannerV { current: self@.current, line: self@.line, ..old(self)@ }),
                old(self)@.current <= self@.current,
                quote_end(self@.source, self@.current) == quote_end(
                    old(self)@.source,
                    old(self)@.current,
                ),
                self@.line == old(self)@.line + newline_count(
                    old(self)@.source,
                    old(self)@.current,
                    self@.current,
                ),
            decreases self@.source.len() - self@.current,
        {
            let c = self.advance();
            if c == '\n' {
                self.line = self.line + 1;
            }
        }
        if self.is_at_end() {
            return Exception::throw(unterminated_text(), opening_line);
        }
        self.advance();
        let value = self.text(self.start + 1, self.current - 1);
        self.add_token_literal(TokenType::String, Some(LiteralValue::StringValue(value)))
    }

    fn number(&mut self) -> (r: Result<(), String>)
        requires
            old(self).wf(),
            old(self)@.start + 1 == old(self)@.current,
            is_digit_char(old(self)@.source[old(self)@.start]),
        ensures
            final(self).wf(),
            r is Ok,
            final(self)@ == (ScannerV {
                current: number_end(old(self)@.source, old(self)@.start),
                tokens: old(self)@.tokens.push(
                    number_token(old(self)@.source, old(self)@.start, old(self)@.line),
                ),
                ..old(self)@
            }),
    {
        proof {
            lemma_digits_end(old(self)@.source, old(self)@.current);
        }
        while is_digit(self.peek())
            invariant
                self.wf(),
                self@ == (ScannerV { current: self@.current, ..old(self)@ }),
                old(self)@.current <= self@.current,
                digits_end(self@.source, self@.current) == digits_end(
                    old(self)@.source,
                    old(self)@.current,
                ),
            decreases self@.source.len() - self@.current,
        {
            self.advance();
        }
        let int_end = self.current;
        proof {
            assert(int_end == digits_end(old(self)@.source, old(self)@.current));
        }
        let int_part = self.text(self.start, int_end);
        let frac_part: String;
        if self.peek() == '.' && is_digit(self.peek_next()) {
            self.advance();
            proof {
                lemma_digits_end(old(self)@.source, int_end + 1);
            }
            while is_digit(self.peek())
                invariant
                    self.wf(),
                    self@ == (ScannerV { current: self@.current, ..old(self)@ }),
                    int_end + 1 <= self@.current,
                    digits_end(self@.source, self@.current) == digits_end(
                        old(self)@.source,
                        int_end + 1,
                    ),
                decreases self@.source.len() - self@.current,
            {
                self.advance();
            }
            frac_part = self.text(int_end + 1, self.current);
        } else {
            frac_part = String::new();
        }
        let literal = Decimal { negative: false, int_part, frac_part };
        self.add_token_literal(TokenType::Number, Some(LiteralValue::NumberValue(literal)))
    }

    fn identifier(&mut self) -> (r: Result<(), String>)
        requires
            old(self).wf(),
            old(self)@.start + 1 == old(self)@.current,
            is_alpha_char(old(self)@.source[old(self)@.start]),
        ensures
            final(self).wf(),
            r is Ok,
            final(self)@ == (ScannerV {
                current: ident_end(old(self)@.source, old(self)@.current),
                tokens: old(self)@.tokens.push(
                    identifier_token(old(self)@.source, old(self)@.start, old(self)@.line),
                ),
                ..old(self)@
            }),
    {
        proof {
            lemma_ident_end(old(self)@.source, old(self)@.current);
        }
        while is_alpha_numeric(self.peek())
            invariant
                self.wf(),
                self@ == (ScannerV { current: self@.current, ..old(self)@ }),
                old(self)@.current <= self@.current,
                ident_end(self@.source, self@.current) == ident_end(
                    old(self)@.source,
                    old(self)@.current,
                ),
            decreases self@.source.len() - self@.current,
        {
            self.advance();
        }
        let lexeme = self.current_text();
        let kind = match keyword_kind(lexeme.as_str()) {
            Some(k) => k,
            None => TokenType::Identifier,
        };
        self.add_token(kind)
    }

    fn scan_token(&mut self) -> (r: Result<(), String>)
        requires
            old(self).wf(),
            old(self)@.current < old(self)@.source.len(),
            old(self)@.start == old(self)@.current,
        ensures
            final(self).wf(),
            ({
                let st = spec_step(old(self)@.source, old(self)@.current, old(self)@.line);
                &&& final(self)@.source == old(self)@.source
                &&& final(self)@.start == old(self)@.start
                &&& final(self)@.current == st.next
                &&& final(self)@.line == st.line
                &&& match st.out {
                    StepOut::Emit(t) => r is Ok && final(self)@.tokens == old(self)@.tokens.push(t),
                    StepOut::Reject(m) => (r matches Err(e) && e@ == m) && final(self)@.tokens
                        == old(self)@.tokens,
                    StepOut::Skip => r is Ok && final(self)@.tokens == old(self)@.tokens,
                }
            }),
    {
        let c = self.advance();
        match c {
            '(' => self.add_token(TokenType::LeftParen),
            ')' => self.add_token(TokenType::RightParen),
            '{' => self.add_token(TokenType::LeftBrace),
            '}' => self.add_token(TokenType::RightBrace),
            ',' => self.add_token(TokenType::Comma),
            '.' => self.add_token(TokenType::Dot),
            '-' => self.add_token(TokenType::Minus),
            '+' => self.add_token(TokenType::Plus),
            ';' => self.add_token(TokenType::Semicolon),
            '*' => self.add_token(TokenType::Star),
            '!' => {
                let token = if self.char_match('=') {
                    TokenType::BangEqual
                } else {
                    TokenType::Bang
                };
                self.add_token(token)
            },
            '=' => {
                let token = if self.char_match('=') {
                    TokenType::EqualEqual
                } else {
                    TokenType::Equal
                };
                self.add_token(token)
            },
            '<' => {
                let token = if self.char_match('=') {
                    TokenType::LessEqual
                } else {
                    TokenType::Less
                };
                self.add_token(token)
            },
            '>' => {
                let token = if self.char_match('=') {
                    TokenType::GreaterEqual
                } else {
                    TokenType::Greater
                };
                self.add_token(token)
            },
            '/' => {
                if self.char_match('/') {
                    return self.single_line_comment();
                }
                if self.char_match('*') {
                    return self.multi_line_comment();
                }
                self.add_token(TokenType::Slash)
            },
            ' ' | '\r' | '\t' => Ok(()),
            '\n' => {
                self.line = self.line + 1;
                Ok(())
            },
            '"' => self.string(),
            c => {
                if is_digit(c) {
                    return self.number();
                }
                if is_alpha(c) {
                    return self.identifier();
                }
                let mut msg = String::from_str("Unrecognizable token at line ");
                let digits = u64_to_string(self.line as u64);
                msg.append(digits.as_str());
                Err(msg)
            },
        }
    }

    /// Scans the whole remaining text. The tokens found are appended to the
    /// scanner's token list, which always receives the single EOF sentinel at
    /// its end. With no lexical error the full token list is returned; with
    /// any, the aggregated failure text is returned instead and no token
    /// sequence is handed out.
    pub fn scan_tokens(&mut self) -> (r: Result<Vec<Token>, String>)
        requires
            old(self).wf(),
        ensures
            final(self).wf(),
            ({
                let (tks, errs) = spec_scan(
                    old(self)@.source,
                    old(self)@.current,
                    old(self)@.line,
                );
                &&& final(self)@.source == old(self)@.source
                &&& final(self)@.current == old(self)@.source.len()
                &&& final(self)@.tokens == (old(self)@.tokens + tks).push(eof_token())
                &&& match r {
                    Ok(v) => errs.len() == 0 && v.deep_view() == final(self)@.tokens,
                    Err(m) => errs.len() > 0 && m@ == spec_error_report(errs),
                }
            }),
    {
        let mut errors: Vec<String> = Vec::new();
        while !self.is_at_end()
            invariant
                self.wf(),
                self@.source == old(self)@.source,
                self@.line >= 1,
                self@.tokens.len() >= old(self)@.tokens.len(),
                self@.tokens.subrange(0, old(self)@.tokens.len() as int) == old(self)@.tokens,
                spec_scan(old(self)@.source, old(self)@.current, old(self)@.line).0
                    == self@.tokens.skip(old(self)@.tokens.len() as int) + spec_scan(
                    self@.source,
                    self@.current,
                    self@.line,
                ).0,
                spec_scan(old(self)@.source, old(self)@.current, old(self)@.line).1
                    == errors.deep_view() + spec_scan(self@.source, self@.current, self@.line).1,
            decreases self@.source.len() - self@.current,
        {
            self.start = self.current;
            let ghost at = self@;
            proof {
                lemma_scan_unfold(at.source, at.current, at.line);
                lemma_step_bounds(at.source, at.current, at.line);
            }
            let step_result = self.scan_token();
            proof {
                let st = spec_step(at.source, at.current, at.line);
                let rest = spec_scan(at.source, st.next, st.line);
                match st.out {
                    StepOut::Emit(t) => {
                        assert(self@.tokens.skip(old(self)@.tokens.len() as int) =~= at.tokens.skip(
                            old(self)@.tokens.len() as int,
                        ).push(t));
                        assert(at.tokens.skip(old(self)@.tokens.len() as int) + (seq![t] + rest.0)
                            =~= self@.tokens.skip(old(self)@.tokens.len() as int) + rest.0);
                        assert(self@.tokens.subrange(0, old(self)@.tokens.len() as int)
                            =~= at.tokens.subrange(0, old(self)@.tokens.len() as int));
                    },
                    StepOut::Reject(m) => {},
                    StepOut::Skip => {},
                }
            }
            match step_result {
                Ok(_) => {},
                Err(msg) => {
                    let ghost errs_before = errors.deep_view();
                    errors.push(msg);
                    proof {
                        let st = spec_step(at.source, at.current, at.line);
                        let rest = spec_scan(at.source, st.next, st.line);
                        assert(errors.deep_view() =~= errs_before.push(st.out->Reject_0));
                        assert(errs_before + (seq![st.out->Reject_0] + rest.1) =~= errors.deep_view()
                            + rest.1);
                    }
                },
            }
        }
        proof {
            assert(spec_scan(self@.source, self@.current, self@.line).0 =~= Seq::<TokenV>::empty());
            assert(spec_scan(self@.source, self@.current, self@.line).1 =~= Seq::<
                Seq<char>,
            >::empty());
            assert(spec_scan(old(self)@.source, old(self)@.current, old(self)@.line).0
                =~= self@.tokens.skip(old(self)@.tokens.len() as int));
            assert(spec_scan(old(self)@.source, old(self)@.current, old(self)@.line).1
                =~= errors.deep_view());
        }
        let ghost scanned = self@.tokens;
        let eof = Token {
            token_type: TokenType::Eof,
            lexeme: String::new(),
            literal: None,
            line_number: 0,
        };
        proof {
            assert(eof@ == eof_token());
        }
        self.tokens.push(eof);
        proof {
            assert(self@.tokens =~= scanned.push(eof_token()));
            assert(self@.tokens =~= (old(self)@.tokens + self@.tokens.subrange(
                old(self)@.tokens.len() as int,
                self@.tokens.len() as int - 1,
            )).push(eof_token()));
            assert(scanned.skip(old(self)@.tokens.len() as int) =~= self@.tokens.subrange(
                old(self)@.tokens.len() as int,
                self@.tokens.len() as int - 1,
            ));
        }
        if errors.len() > 0 {
            let mut message = String::new();
            let mut i: usize = 0;
            while i < errors.len()
                invariant
                    i <= errors.len(),
                    message@ == spec_error_report(errors.deep_view().take(i as int)),
                decreases errors.len() - i,
            {
                proof {
                    assert(errors.deep_view().take(i as int + 1) =~= errors.deep_view().take(
                        i as int,
                    ).push(errors.deep_view()[i as int]));
                    lemma_error_report_push(
                        errors.deep_view().take(i as int),
                        errors.deep_view()[i as int],
                    );
                }
                message.append(errors[i].as_str());
                message.append("\n");
                i = i + 1;
            }
            proof {
                assert(errors.deep_view().take(errors.deep_view().len() as int) =~= errors.deep_view());
            }
            return Err(message);
        }
        let mut out: Vec<Token> = Vec::new();
        let mut i: usize = 0;
        while i < self.tokens.len()
            invariant
                i <= self.tokens.len(),
                out.deep_view() == self@.tokens.take(i as int),
            decreases self.tokens.len() - i,
        {
            let t = self.tokens[i].duplicate();
            proof {
                assert(t == self.tokens@[i as int]);
                assert(t.deep_view() == self@.tokens[i as int]);
            }
            let ghost dv0 = out.deep_view();
            out.push(t);
            proof {
                assert(out.deep_view() =~= dv0.push(t.deep_view()));
                assert(self@.tokens.take(i as int + 1) =~= self@.tokens.take(i as int).push(
                    self@.tokens[i as int],
                ));
                assert(out.deep_view() =~= self@.tokens.take(i as int + 1));
            }
            i = i + 1;
        }
        proof {
            assert(self@.tokens.take(self@.tokens.len() as int) =~= self@.tokens);
        }
        Ok(out)
    }
}

/// The unterminated-string message body.
fn unterminated_text() -> (r: String)
    ensures
        r@ == "Unterminated string"@,
{
    String::from_str("Unterminated string")
}

/// A token agrees with the keyword table: when its lexeme is a reserved
/// word, its category is the reserved category.
pub open spec fn keyword_consistent(t: TokenV) -> bool {
    match spec_keyword_kind(t.lexeme) {
        Some(k) => t.token_type == k,
        None => true,
    }
}

proof fn lemma_keyword_first_char(lex: Seq<char>)
    ensures
        spec_keyword_kind(lex) is Some ==> lex.len() >= 2 && (is_alpha_char(lex[0]) || lex[0] == '&'
            || lex[0] == '|'),
{
    reveal_strlit("and");
    reveal_strlit("&&");
    reveal_strlit("or");
    reveal_strlit("||");
    reveal_strlit("true");
    reveal_strlit("false");
    reveal_strlit("null");
    reveal_strlit("if");
    reveal_strlit("else");
    reveal_strlit("return");
    reveal_strlit("print");
    reveal_strlit("while");
    reveal_strlit("for");
    reveal_strlit("let");
    reveal_strlit("this");
    reveal_strlit("extends");
    reveal_strlit("fn");
    reveal_strlit("class");
}

proof fn lemma_scan_tokens_classified(s: Seq<char>, pos: int, line: nat)
    ensures
        forall|i: int|
            0 <= i < spec_scan(s, pos, line).0.len() ==> {
                let t = #[trigger] spec_scan(s, pos, line).0[i];
                &&& t.token_type != TokenType::Eof
                &&& keyword_consistent(t)
            },
    decreases s.len() - pos,
{
    if 0 <= pos < s.len() {
        let st = spec_step(s, pos, line);
        lemma_step_bounds(s, pos, line);
        lemma_scan_tokens_classified(s, st.next, st.line);
        match st.out {
            StepOut::Emit(t) => {
                assert(t.token_type != TokenType::Eof);
                assert(keyword_consistent(t)) by {
                    lemma_keyword_first_char(t.lexeme);
                    let c = s[pos];
                    if c == '"' {
                        lemma_quote_end(s, pos + 1);
                    } else if is_digit_char(c) {
                        lemma_digits_end(s, pos + 1);
                    }
                }
                assert(spec_scan(s, pos, line).0 == seq![t] + spec_scan(s, st.next, st.line).0);
            },
            StepOut::Reject(_) => {
                assert(spec_scan(s, pos, line).0 == spec_scan(s, st.next, st.line).0);
            },
            StepOut::Skip => {
                assert(spec_scan(s, pos, line).0 == spec_scan(s, st.next, st.line).0);
            },
        }
    }
}

/// Law: for every input, the empty input included, the scanned token
/// sequence ends with exactly one EOF token: the sentinel at its end, and no
/// other EOF anywhere before it.
pub proof fn lemma_eof_sentinel(src: Seq<char>)
    ensures
        scanned_tokens(src).len() >= 1,
        scanned_tokens(src).last().token_type == TokenType::Eof,
        forall|i: int|
            0 <= i < scanned_tokens(src).len() - 1 ==> (#[trigger] scanned_tokens(
                src,
            )[i]).token_type != TokenType::Eof,
{
    lemma_scan_tokens_classified(src, 0, 1);
}

/// Law: keyword-table lookups take precedence over identifier
/// classification: every scanned token whose lexeme is in the keyword table
/// (the reserved words and the symbol aliases of the word operators) carries
/// the table's category, and so is never an identifier token.
pub proof fn lemma_keyword_precedence(src: Seq<char>, i: int)
    requires
        0 <= i < scanned_tokens(src).len(),
        spec_keyword_kind(scanned_tokens(src)[i].lexeme) is Some,
    ensures
        scanned_tokens(src)[i].token_type == spec_keyword_kind(
            scanned_tokens(src)[i].lexeme,
        )->Some_0,
        scanned_tokens(src)[i].token_type != TokenType::Identifier,
{
    lemma_scan_tokens_classified(src, 0, 1);
    if i < scanned_tokens(src).len() - 1 {
        assert(keyword_consistent(scanned_tokens(src)[i]));
    } else {
        // The EOF sentinel's empty lexeme is in no keyword entry.
        lemma_keyword_first_char(scanned_tokens(src)[i].lexeme);
    }
    assert forall|k: TokenType| spec_keyword_kind(scanned_tokens(src)[i].lexeme) == Some(k)
        implies k != TokenType::Identifier by {}
}

/// Where the step after position `pos` resumes. The cursor movement of a
/// step does not depend on the line counter.
pub open spec fn step_next(s: Seq<char>, pos: int) -> int {
    spec_step(s, pos, 1).next
}

proof fn lemma_step_line_irrelevant(s: Seq<char>, pos: int, l1: nat, l2: nat)
    requires
        0 <= pos < s.len(),
    ensures
        spec_step(s, pos, l1).next == spec_step(s, pos, l2).next,
        (spec_step(s, pos, l1).out is Emit) == (spec_step(s, pos, l2).out is Emit),
        (spec_step(s, pos, l1).out is Reject) == (spec_step(s, pos, l2).out is Reject),
{
}

proof fn lemma_scan_shape_line_irrelevant(s: Seq<char>, pos: int, l1: nat, l2: nat)
    ensures
        spec_scan(s, pos, l1).1.len() == spec_scan(s, pos, l2).1.len(),
    decreases s.len() - pos,
{
    if 0 <= pos < s.len() {
        lemma_step_line_irrelevant(s, pos, l1, l2);
        let st1 = spec_step(s, pos, l1);
        let st2 = spec_step(s, pos, l2);
        let np = if st1.next <= pos {
            pos + 1
        } else if st1.next > s.len() {
            s.len() as int
        } else {
            st1.next
        };
        lemma_scan_shape_line_irrelevant(s, np, st1.line, st2.line);
    }
}

/// The cursor of the scan of `s` after `k` steps, staying put once it passes
/// the end of the text.
pub open spec fn scan_position(s: Seq<char>, k: nat) -> int
    decreases k,
{
    if k == 0 {
        0
    } else {
        let prev = scan_position(s, (k - 1) as nat);
        if 0 <= prev < s.len() {
            let n = step_next(s, prev);
            if n <= prev {
                prev + 1
            } else if n > s.len() {
                s.len() as int
            } else {
                n
            }
        } else {
            prev
        }
    }
}

/// The scan of `s` visits position `pos` at some step.
pub open spec fn scan_reaches(s: Seq<char>, pos: int) -> bool {
    exists|k: nat| scan_position(s, k) == pos
}

proof fn lemma_errors_propagate(s: Seq<char>, k: nat, line: nat)
    requires
        spec_scan(s, scan_position(s, k), line).1.len() > 0,
    ensures
        spec_scan(s, 0, 1).1.len() > 0,
    decreases k,
{
    let q = scan_position(s, k);
    if k == 0 {
        lemma_scan_shape_line_irrelevant(s, 0, line, 1);
    } else {
        let p = scan_position(s, (k - 1) as nat);
        if 0 <= p < s.len() {
            let st = spec_step(s, p, 1);
            lemma_step_bounds(s, p, 1);
            lemma_scan_unfold(s, p, 1);
            assert(q == st.next);
            lemma_scan_shape_line_irrelevant(s, q, st.line, line);
            assert(spec_scan(s, p, 1).1.len() > 0);
            lemma_errors_propagate(s, (k - 1) as nat, 1);
        } else {
            // Past the end of the text nothing is scanned, so there can be
            // no error at this position.
            assert(spec_scan(s, q, line).1.len() == 0);
        }
    }
}

/// Law: an unterminated string literal always yields a failing scan result,
/// never a String token. A double quote at a position the scan visits, with
/// no closing quote anywhere after it, puts at least one message in the
/// scan's error list, so the scan returns the aggregated failure and no
/// token sequence at all.
pub proof fn lemma_unterminated_string_fails(src: Seq<char>, pos: int)
    requires
        0 <= pos < src.len(),
        scan_reaches(src, pos),
        src[pos] == '"',
        forall|j: int| pos < j < src.len() ==> src[j] != '"',
    ensures
        scan_errors(src).len() > 0,
{
    lemma_quote_end(src, pos + 1);
    let q = quote_end(src, pos + 1);
    assert(q == src.len());
    lemma_scan_unfold(src, pos, 1);
    assert(spec_step(src, pos, 1).out is Reject);
    assert(spec_scan(src, pos, 1).1.len() > 0);
    let k = choose|k: nat| scan_position(src, k) == pos;
    lemma_errors_propagate(src, k, 1);
}

} // verus!
