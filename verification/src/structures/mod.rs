pub mod code_segment;
pub mod fingerprint;
pub mod matrix;
