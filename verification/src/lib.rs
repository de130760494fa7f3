pub mod fingerprinting;
pub mod structures;

pub use fingerprinting::fingerprint_calculations::{
    contact_step, fingerprint_from_quantized, hashed_code, onset_pairings, record_onset,
    ContactStep, OnsetPairing, QuantizedPairing, DEADTIME, HASH_BITMASK, SUBBANDS, TTARG,
};
pub use fingerprinting::codegen_generator::check_sample_count;
pub use fingerprinting::murmurhash2::murmurhash2;
pub use fingerprinting::onset_recording::record_onsets;
pub use structures::code_segment::CodeSegment;
pub use structures::fingerprint::Fingerprint;
pub use structures::matrix::Matrix;

use vstd::prelude::*;

verus! {

/// Fingerprint of an audio file. Decoding audio files is not supported yet:
/// the fingerprint is always empty.
pub fn calculate_for_audio_file<P>(_path: P) -> (r: Result<Fingerprint, String>)
    ensures
        r is Ok,
        r matches Ok(f) ==> f.codes@.len() == 0,
{
    Ok(Fingerprint::new(Vec::new()))
}

} // verus!
