//! Which panics are quiet.

use crate::text::starts_with;
use vstd::prelude::*;

verus! {

/// Whether the message of a panic is the one of a print macro that could not write.
pub fn is_output_write_failure(message: &str) -> (r: bool)
    ensures
        r == ("failed printing to stdout"@.is_prefix_of(message@)
            || "failed printing to stderr"@.is_prefix_of(message@)),
{
    starts_with(message, "failed printing to stdout") || starts_with(
        message,
        "failed printing to stderr",
    )
}

} // verus!
