# audio_codec_avs3

Decoding logic of AVS3-P3 (Audio Vivid) audio, written in Verus.

- `src/` is the library. It parses frame headers, side information, metadata, neural model files and
  ISO base media files, runs the range decoders and the lossless decoder, allocates bits, and plans
  in which order the stages of a frame run. Every function states what it returns in its contract.
  Numbers that later stages treat as binary32 are carried as bit patterns.
- `src/engine/` holds the engine: stream framing, model files, neural quantisation, metadata, and
  the mono, stereo and mixed decoders.
- `app/` runs the plans: it holds the floating-point stages, the file reader and the error texts of
  the standard library's traits. Networks and large tables are handed in through the traits of
  `app/stages.rs`.
- `tests/` runs the library on concrete streams.

Public proof functions that are not named `lemma_..` state laws of the library as a whole, such as
that every bit of a frame is accounted for, or that a refused frame leaves no trace.
