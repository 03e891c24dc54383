# open_mqa

High-resolution audio delivery on open formats (WAV, FLAC, DSD over PCM), as a
Verus-verified library.

- `src/` — the verified library:
  - `wav.rs`: WAV writing and reading, with the proof that reading a written file gives
    back every sample; DoP frames as 24-bit WAV.
  - `dop.rs`: DSD-over-PCM frame packing and unpacking, with both round-trip laws.
  - `dsd_modulate.rs`: DSD bits to bytes and back (most significant bit first).
  - `flac.rs`: FLAC through `flacenc` and `claxon`, behind two trusted wrappers.
  - `opus.rs`: the input checks and packet layout of Ogg Opus encoding.
  - `codec.rs`: lossless encoding and decoding by format, recognition of the container
    by its magic bytes, and DoP storage.
  - `text.rs`: decimal numbers in error messages.
- `app/` — what the library does not hold: the floating-point codecs (Opus through
  `opus-pure`, the delta-sigma modulator), `encode` / `decode` / `encode_dop` with Opus
  included, and error types with messages.
- `tests/` — tests on concrete values.
