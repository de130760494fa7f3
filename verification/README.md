# codegen

Audio fingerprint codes computed from raw 16-bit PCM sampled at
11025 Hz.

- `src/` is the verified library (Verus): the row-major `Matrix`, MurmurHash2,
  the recording of onsets with their dead time, the per-frame decisions of the
  onset detector, the pairing of onsets into code inputs, the sample-count
  checks and the hashing of quantized time deltas into 20-bit codes.
- `app/` holds the floating-point signal processing (whitening, onset
  detection on subband energies, time quantization) and the reading of PCM
  files, which call into the library.
- `tests/` holds the tests of the library.
