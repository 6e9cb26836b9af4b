//! The interface to the accelerated pipeline: the flags it is handed and
//! the line that reports what it found.

use crate::cli::{decimal, decimal_digits};
use vstd::prelude::*;

verus! {

/// The flags of a request as the accelerated pipeline takes them.
#[derive(Clone, Copy, Debug, PartialEq, Eq, Structural)]
pub struct CliFlags {
    pub count: bool,
    pub fixed_strings: bool,
    pub invert_match: bool,
    pub ignore_case: bool,
}

/// The line printed for the aggregate match count that the accelerated
/// pipeline returns: the bare number in count mode, a sentence otherwise.
pub open spec fn gpu_report(count_mode: bool, total_matches: nat) -> Seq<char> {
    if count_mode {
        decimal_digits(total_matches)
    } else {
        "Found "@ + decimal_digits(total_matches) + " matches via GPU."@
    }
}

/// Renders the pipeline's answer for the user.
pub fn report_gpu_matches(config: &CliFlags, total_matches: usize) -> (line: String)
    ensures
        line@ == gpu_report(config.count, total_matches as nat),
{
    let number = decimal(total_matches);
    if config.count {
        number
    } else {
        "Found ".to_owned().concat(number.as_str()).concat(" matches via GPU.")
    }
}

} // verus!
