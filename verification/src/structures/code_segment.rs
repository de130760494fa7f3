use vstd::prelude::*;

verus! {

/// One code of a fingerprint: a 20-bit hash and the quantized time it was
/// taken at.
#[derive(PartialEq, Eq, Structural, Debug, Clone, Copy)]
pub struct CodeSegment {
    pub code: i32,
    pub time: i32,
}

} // verus!
