//! Literal payloads carried by tokens: integers, decimal numbers held digit
//! for digit as scanned, strings, and identifier names.

use vstd::prelude::*;
use vstd::string::StrSliceExecFns;
use vstd::string::StringExecFns;
use crate::text::is_digit_char;
use crate::text::lemma_nat_digits_are_digits;
use crate::text::spec_int_magnitude_digits;
use crate::text::i64_magnitude_to_string;

verus! {

/// Mathematical value of a decimal literal: a sign and the digit strings of
/// its integer and fractional parts.
pub struct DecimalV {
    pub negative: bool,
    pub int_part: Seq<char>,
    pub frac_part: Seq<char>,
}

/// A decimal number literal, held exactly as written: a sign, the digits of
/// the integer part, and the digits of the fractional part (empty when the
/// literal had none).
#[derive(Debug)]
pub struct Decimal {
    pub negative: bool,
    pub int_part: String,
    pub frac_part: String,
}

impl View for Decimal {
    type V = DecimalV;

    open spec fn view(&self) -> DecimalV {
        DecimalV { negative: self.negative, int_part: self.int_part@, frac_part: self.frac_part@ }
    }
}

impl DeepView for Decimal {
    type V = DecimalV;

    open spec fn deep_view(&self) -> DecimalV {
        self.view()
    }
}

impl DecimalV {
    /// A well-formed decimal has at least one integer digit and only digit
    /// characters in both parts.
    pub open spec fn wf(self) -> bool {
        &&& self.int_part.len() >= 1
        &&& forall|i: int| 0 <= i < self.int_part.len() ==> is_digit_char(#[trigger] self.int_part[i])
        &&& forall|i: int|
            0 <= i < self.frac_part.len() ==> is_digit_char(#[trigger] self.frac_part[i])
    }

    /// Canonical rendering: leading zeros of the integer part dropped (one
    /// digit always kept), trailing zeros of the fractional part dropped, and
    /// the decimal point dropped with an empty fractional part.
    pub open spec fn display(self) -> Seq<char> {
        let sign: Seq<char> = if self.negative {
            seq!['-']
        } else {
            Seq::empty()
        };
        let ip = trim_leading_zeros(self.int_part);
        let fp = trim_trailing_zeros(self.frac_part);
        if fp.len() > 0 {
            sign + ip + seq!['.'] + fp
        } else {
            sign + ip
        }
    }
}

/// Drops leading `'0'` characters, always keeping at least one character.
pub open spec fn trim_leading_zeros(s: Seq<char>) -> Seq<char>
    decreases s.len(),
{
    if s.len() > 1 && s[0] == '0' {
        trim_leading_zeros(s.subrange(1, s.len() as int))
    } else {
        s
    }
}

/// Drops trailing `'0'` characters, possibly leaving the string empty.
pub open spec fn trim_trailing_zeros(s: Seq<char>) -> Seq<char>
    decreases s.len(),
{
    if s.len() > 0 && s[s.len() - 1] == '0' {
        trim_trailing_zeros(s.take(s.len() - 1))
    } else {
        s
    }
}

proof fn lemma_trim_leading_at(s: Seq<char>, k: int)
    requires
        0 <= k < s.len(),
        forall|j: int| 0 <= j < k ==> s[j] == '0',
        k == s.len() - 1 || s[k] != '0',
    ensures
        trim_leading_zeros(s) == s.subrange(k, s.len() as int),
    decreases k,
{
    if k == 0 {
        if !(s.len() > 1 && s[0] == '0') {
            assert(s.subrange(0, s.len() as int) =~= s);
        } else {
            // s[0] == '0' forces k == s.len() - 1 == 0, so s.len() == 1.
            assert(false);
        }
    } else {
        let s1 = s.subrange(1, s.len() as int);
        lemma_trim_leading_at(s1, k - 1);
        assert(s1.subrange(k - 1, s1.len() as int) =~= s.subrange(k, s.len() as int));
    }
}

proof fn lemma_trim_trailing_at(s: Seq<char>, m: int)
    requires
        0 <= m <= s.len(),
        forall|j: int| m <= j < s.len() ==> s[j] == '0',
        m == 0 || s[m - 1] != '0',
    ensures
        trim_trailing_zeros(s) == s.take(m),
    decreases s.len() - m,
{
    if m == s.len() {
        if s.len() > 0 && s[s.len() - 1] == '0' {
            assert(false);
        } else {
            assert(s.take(m) =~= s);
        }
    } else {
        let s1 = s.take(s.len() - 1);
        lemma_trim_trailing_at(s1, m);
        assert(s1.take(m) =~= s.take(m));
    }
}

impl Decimal {
    /// The decimal value of an integer: its sign and magnitude digits, with
    /// an empty fractional part.
    pub open spec fn spec_of_integer(n: int) -> DecimalV {
        DecimalV {
            negative: n < 0,
            int_part: spec_int_magnitude_digits(n),
            frac_part: Seq::empty(),
        }
    }

    /// Builds the decimal value of an integer.
    pub fn from_integer(n: i64) -> (d: Decimal)
        ensures
            d@ == Decimal::spec_of_integer(n as int),
            d@.wf(),
    {
        proof {
            if n >= 0 {
                lemma_nat_digits_are_digits(n as nat);
            } else {
                lemma_nat_digits_are_digits((-(n as int)) as nat);
            }
        }
        Decimal { negative: n < 0, int_part: i64_magnitude_to_string(n), frac_part: String::new() }
    }

    /// An exact copy.
    pub fn duplicate(&self) -> (d: Decimal)
        ensures
            d == *self,
    {
        Decimal {
            negative: self.negative,
            int_part: self.int_part.clone(),
            frac_part: self.frac_part.clone(),
        }
    }

    /// Renders the canonical form described by [`DecimalV::display`].
    pub fn render(&self) -> (r: String)
        ensures
            r@ == self@.display(),
    {
        let int_len = self.int_part.as_str().unicode_len();
        let mut k: usize = 0;
        while k + 1 < int_len && self.int_part.as_str().get_char(k) == '0'
            invariant
                int_len == self.int_part@.len(),
                k <= int_len,
                k < int_len || int_len == 0,
                forall|j: int| 0 <= j < k ==> self.int_part@[j] == '0',
            decreases int_len - k,
        {
            k += 1;
        }
        let frac_len = self.frac_part.as_str().unicode_len();
        let mut m: usize = frac_len;
        while m > 0 && self.frac_part.as_str().get_char(m - 1) == '0'
            invariant
                frac_len == self.frac_part@.len(),
                m <= frac_len,
                forall|j: int| m <= j < frac_len ==> self.frac_part@[j] == '0',
            decreases m,
        {
            m -= 1;
        }
        let mut out = String::new();
        if self.negative {
            out.append("-");
            proof {
                reveal_strlit("-");
                assert("-"@ =~= seq!['-']);
            }
        }
        if int_len > 0 {
            out.append(self.int_part.as_str().substring_char(k, int_len));
            proof {
                lemma_trim_leading_at(self.int_part@, k as int);
            }
        } else {
            // An empty integer part is already its own trimmed form.
            proof {
                assert(trim_leading_zeros(self.int_part@) =~= self.int_part@.subrange(0, 0));
            }
        }
        if m > 0 {
            out.append(".");
            out.append(self.frac_part.as_str().substring_char(0, m));
            proof {
                reveal_strlit(".");
                assert("."@ =~= seq!['.']);
                lemma_trim_trailing_at(self.frac_part@, m as int);
            }
        } else {
            proof {
                lemma_trim_trailing_at(self.frac_part@, 0);
            }
        }
        out
    }
}

/// Mathematical value of a [`LiteralValue`].
pub enum LiteralValueV {
    IntegerValue(int),
    NumberValue(DecimalV),
    StringValue(Seq<char>),
    IdentifierValue(Seq<char>),
}

/// The literal payload a token may carry: produced by the scanner for number
/// and string tokens, read by the parser when it builds literal nodes.
#[derive(Debug)]
pub enum LiteralValue {
    IntegerValue(i64),
    NumberValue(Decimal),
    StringValue(String),
    IdentifierValue(String),
}

impl View for LiteralValue {
    type V = LiteralValueV;

    open spec fn view(&self) -> LiteralValueV {
        match self {
            LiteralValue::IntegerValue(n) => LiteralValueV::IntegerValue(*n as int),
            LiteralValue::NumberValue(d) => LiteralValueV::NumberValue(d@),
            LiteralValue::StringValue(s) => LiteralValueV::StringValue(s@),
            LiteralValue::IdentifierValue(s) => LiteralValueV::IdentifierValue(s@),
        }
    }
}

impl DeepView for LiteralValue {
    type V = LiteralValueV;

    open spec fn deep_view(&self) -> LiteralValueV {
        self.view()
    }
}

impl LiteralValue {
    /// An exact copy.
    pub fn duplicate(&self) -> (l: LiteralValue)
        ensures
            l == *self,
    {
        match self {
            LiteralValue::IntegerValue(n) => LiteralValue::IntegerValue(*n),
            LiteralValue::NumberValue(d) => LiteralValue::NumberValue(d.duplicate()),
            LiteralValue::StringValue(s) => LiteralValue::StringValue(s.clone()),
            LiteralValue::IdentifierValue(s) => LiteralValue::IdentifierValue(s.clone()),
        }
    }
}

} // verus!
