use vstd::prelude::*;

verus! {

/// Reads a flag passed as a C integer: any non-zero value is set.
pub fn int_to_bool(i: i32) -> (b: bool)
    ensures
        b == (i != 0),
{
    i != 0
}

} // verus!
