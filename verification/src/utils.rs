use vstd::prelude::*;

verus! {

/// Checks if any of the specified `flags` are set in the given `value`.
pub fn is_any_flag_set(value: u32, flags: u32) -> (r: bool)
    ensures
        r == (value & flags != 0),
{
    (value & flags) != 0
}

} // verus!
