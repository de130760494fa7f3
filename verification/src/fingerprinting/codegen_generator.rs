use vstd::prelude::*;

verus! {

/// The fewest samples that codes are computed from.
pub const MIN_SAMPLES: usize = 100;

/// Whether `len` samples can be fingerprinted when at most `max_samples - 1`
/// are accepted: too few samples are refused first, then too many.
pub fn check_sample_count(len: usize, max_samples: usize) -> (r: Result<(), &'static str>)
    ensures
        len < MIN_SAMPLES ==> r == Err::<(), &'static str>("Not enough samples"),
        MIN_SAMPLES <= len && len >= max_samples ==> r == Err::<(), &'static str>("File is too big"),
        MIN_SAMPLES <= len && len < max_samples ==> r == Ok::<(), &'static str>(()),
{
    if len < MIN_SAMPLES {
        return Err("Not enough samples");
    }
    if len >= max_samples {
        return Err("File is too big");
    }
    Ok(())
}

} // verus!
