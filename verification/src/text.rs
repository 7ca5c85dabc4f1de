//! Small verified helpers for character and string handling: exact string
//! comparison and rendering of unsigned numbers as decimal digit strings.

use vstd::prelude::*;
use vstd::string::StrSliceExecFns;
use vstd::string::StringExecFns;

verus! {

/// A decimal digit character.
pub open spec fn is_digit_char(c: char) -> bool {
    48 <= c as u32 <= 57
}

/// An ASCII letter or underscore, the characters that may open an identifier.
pub open spec fn is_alpha_char(c: char) -> bool {
    (97 <= c as u32 <= 122) || (65 <= c as u32 <= 90) || c == '_'
}

/// A character that may continue an identifier.
pub open spec fn is_alpha_numeric_char(c: char) -> bool {
    is_digit_char(c) || is_alpha_char(c)
}

/// Exact character-for-character equality of two string slices.
pub fn str_eq(a: &str, b: &str) -> (r: bool)
    ensures
        r == (a@ == b@),
{
    let alen = a.unicode_len();
    let blen = b.unicode_len();
    if alen != blen {
        return false;
    }
    let mut i: usize = 0;
    while i < alen
        invariant
            alen == a@.len(),
            blen == b@.len(),
            alen == blen,
            i <= alen,
            forall|j: int| 0 <= j < i ==> a@[j] == b@[j],
        decreases alen - i,
    {
        if a.get_char(i) != b.get_char(i) {
            return false;
        }
        i += 1;
    }
    proof {
        assert(a@ =~= b@);
    }
    true
}

/// The decimal digit character for a single digit value.
pub open spec fn digit_char(d: int) -> char {
    if d == 0 {
        '0'
    } else if d == 1 {
        '1'
    } else if d == 2 {
        '2'
    } else if d == 3 {
        '3'
    } else if d == 4 {
        '4'
    } else if d == 5 {
        '5'
    } else if d == 6 {
        '6'
    } else if d == 7 {
        '7'
    } else if d == 8 {
        '8'
    } else {
        '9'
    }
}

/// The decimal digit string of a natural number, most significant digit
/// first, with no leading zeros (a single `'0'` for zero).
pub open spec fn spec_nat_digits(n: nat) -> Seq<char>
    decreases n,
{
    if n < 10 {
        seq![digit_char(n as int)]
    } else {
        spec_nat_digits(n / 10) + seq![digit_char((n % 10) as int)]
    }
}

/// The one-character string slice for a single digit value.
pub fn digit_str(d: u64) -> (r: &'static str)
    requires
        d < 10,
    ensures
        r@ == seq![digit_char(d as int)],
{
    proof {
        reveal_strlit("0");
        reveal_strlit("1");
        reveal_strlit("2");
        reveal_strlit("3");
        reveal_strlit("4");
        reveal_strlit("5");
        reveal_strlit("6");
        reveal_strlit("7");
        reveal_strlit("8");
        reveal_strlit("9");
    }
    if d == 0 {
        proof { assert("0"@ =~= seq![digit_char(0int)]); }
        "0"
    } else if d == 1 {
        proof { assert("1"@ =~= seq![digit_char(1int)]); }
        "1"
    } else if d == 2 {
        proof { assert("2"@ =~= seq![digit_char(2int)]); }
        "2"
    } else if d == 3 {
        proof { assert("3"@ =~= seq![digit_char(3int)]); }
        "3"
    } else if d == 4 {
        proof { assert("4"@ =~= seq![digit_char(4int)]); }
        "4"
    } else if d == 5 {
        proof { assert("5"@ =~= seq![digit_char(5int)]); }
        "5"
    } else if d == 6 {
        proof { assert("6"@ =~= seq![digit_char(6int)]); }
        "6"
    } else if d == 7 {
        proof { assert("7"@ =~= seq![digit_char(7int)]); }
        "7"
    } else if d == 8 {
        proof { assert("8"@ =~= seq![digit_char(8int)]); }
        "8"
    } else {
        proof { assert("9"@ =~= seq![digit_char(9int)]); }
        "9"
    }
}

/// Renders an unsigned number as its decimal digit string.
pub fn u64_to_string(n: u64) -> (r: String)
    ensures
        r@ == spec_nat_digits(n as nat),
    decreases n,
{
    if n < 10 {
        let mut s = String::new();
        s.append(digit_str(n));
        s
    } else {
        let mut s = u64_to_string(n / 10);
        s.append(digit_str(n % 10));
        s
    }
}

/// The decimal digit string of the magnitude of an integer.
pub open spec fn spec_int_magnitude_digits(n: int) -> Seq<char> {
    if n < 0 {
        spec_nat_digits((-n) as nat)
    } else {
        spec_nat_digits(n as nat)
    }
}

/// Renders the magnitude of a signed number as its decimal digit string.
pub fn i64_magnitude_to_string(n: i64) -> (r: String)
    ensures
        r@ == spec_int_magnitude_digits(n as int),
{
    if n >= 0 {
        u64_to_string(n as u64)
    } else {
        let mag: u64 = (-(n + 1)) as u64 + 1;
        proof {
            assert(mag as int == -(n as int));
        }
        u64_to_string(mag)
    }
}

/// Every character of a decimal digit string is a digit, and the string is
/// never empty.
pub proof fn lemma_nat_digits_are_digits(n: nat)
    ensures
        spec_nat_digits(n).len() >= 1,
        forall|i: int|
            0 <= i < spec_nat_digits(n).len() ==> is_digit_char(#[trigger] spec_nat_digits(n)[i]),
    decreases n,
{
    if n >= 10 {
        lemma_nat_digits_are_digits(n / 10);
    }
}

} // verus!
