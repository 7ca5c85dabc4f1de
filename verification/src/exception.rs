//! Construction of positioned error messages, shared by every component that
//! reports a failure tagged with a source line.

use vstd::prelude::*;
use vstd::string::StringExecFns;
use crate::text::spec_nat_digits;
use crate::text::u64_to_string;

verus! {

/// The message text `Error at line {line}: {message}`.
pub open spec fn spec_error_message(message: Seq<char>, line: nat) -> Seq<char> {
    "Error at line "@ + spec_nat_digits(line) + ": "@ + message
}

/// Namespace for raising positioned errors.
pub struct Exception {}

impl Exception {
    /// Wraps a message and its source line into a failing result.
    pub fn throw(message: String, line: usize) -> (r: Result<(), String>)
        ensures
            r matches Err(m) && m@ == spec_error_message(message@, line as nat),
    {
        let mut out = String::new();
        out.append("Error at line ");
        let digits = u64_to_string(line as u64);
        out.append(digits.as_str());
        out.append(": ");
        out.append(message.as_str());
        Err(out)
    }
}

} // verus!
