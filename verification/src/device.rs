//! Recognition of gadget device names among Bluetooth scan results.

use vstd::prelude::*;
use crate::text::{contains_seq, lower_of, prefix_seq, str_contains, str_starts_with, to_lowercase};

verus! {

/// A lowercased device name belongs to this tool's gadget family: it
/// mentions `ccgadget`, starts with `ccg-`, or mentions `esp32-ccg`.
pub open spec fn spec_is_ccgadget_name(lowered: Seq<char>) -> bool {
    ||| contains_seq(lowered, "ccgadget"@)
    ||| prefix_seq(lowered, "ccg-"@)
    ||| contains_seq(lowered, "esp32-ccg"@)
}

/// Check if a device name matches the gadget name patterns,
/// case-insensitively.
pub fn is_ccgadget_device(name: &str) -> (r: bool)
    ensures
        r == spec_is_ccgadget_name(lower_of(name@)),
{
    let lowered = to_lowercase(name);
    let l = lowered.as_str();
    str_contains(l, "ccgadget") || str_starts_with(l, "ccg-") || str_contains(l, "esp32-ccg")
}

} // verus!
