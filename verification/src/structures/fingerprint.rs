use vstd::prelude::*;

use super::code_segment::CodeSegment;

verus! {

/// The codes computed for one piece of audio, in the order they were emitted.
pub struct Fingerprint {
    pub codes: Vec<CodeSegment>,
}

impl Fingerprint {
    /// A fingerprint made of exactly `codes`.
    pub fn new(codes: Vec<CodeSegment>) -> (f: Self)
        ensures
            f.codes@ == codes@,
    {
        Fingerprint { codes: codes }
    }
}

} // verus!
