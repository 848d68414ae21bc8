use vstd::prelude::*;

verus! {

/// A `ScreenSize` is a region of the screen measured in whole pixels.
#[derive(Clone, Copy, Default, Debug, PartialEq, Eq)]
pub struct ScreenSize {
    pub _width: usize,
    pub _height: usize,
}

} // verus!
