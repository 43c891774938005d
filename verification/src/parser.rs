use vstd::prelude::*;

verus! {

/// State shared between all tokenizers that work on one document.
#[derive(Debug)]
pub struct ParseState<'a> {
    /// The whole document, as bytes.
    pub bytes: &'a [u8],
}

} // verus!
