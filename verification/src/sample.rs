use vstd::prelude::*;

use crate::compress::zlib_of;

verus! {

/// One labeled training example. `text` holds the compression of `original`
/// computed once at ingestion, so that its length can be reused as the cached
/// compressed size of this sample.
pub struct Sample {
    /// The raw category code as read from the training data.
    pub klass: u8,
    /// The compressed form of `original`.
    pub text: Vec<u8>,
    /// The original text, kept because the distance to a query needs the
    /// compression of the concatenation of both.
    pub original: Vec<u8>,
}

impl Sample {
    /// `text` is the compression of exactly `original`.
    pub open spec fn wf(self) -> bool {
        self.text@ == zlib_of(self.original@)
    }

    pub fn new(klass: u8, text: Vec<u8>, original: Vec<u8>) -> (r: Self)
        ensures
            r.klass == klass,
            r.text == text,
            r.original == original,
    {
        Sample { klass, text, original }
    }
}

} // verus!
