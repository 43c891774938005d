use vstd::prelude::*;

verus! {

/// The number of columns a tab stop spans.
pub const TAB_SIZE: usize = 4;

} // verus!
