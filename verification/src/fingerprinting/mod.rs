pub mod codegen_generator;
pub mod fingerprint_calculations;
pub mod laws;
pub mod murmurhash2;
pub mod onset_recording;
