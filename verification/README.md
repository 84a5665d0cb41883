# muxide

A strict MP4 (ISO-BMFF) muxer core, verified with Verus. It turns
already-encoded H.264, H.265 or AV1 video and AAC/Opus audio samples into
the bytes of an MP4 file, in the standard layout (`ftyp`, `mdat`, `moov`) or
the fast-start layout (`ftyp`, `moov`, `mdat`).

The first video frame must be a keyframe that carries the codec's parameter
sets: SPS and PPS for H.264, VPS, SPS and PPS for H.265, a sequence header
OBU for AV1. Their configuration boxes (`avcC`, `hvcC`, `av1C`) are built
from it.

Layout:

- `src/` — the verified library.
  - `wire.rs`: big-endian fields and boxes.
  - `codec/`: Annex B NAL splitting, AV1 OBU framing, bit reading, and
    H.264/H.265/AV1/VP9/Opus parsing.
  - `muxer/`: header and sample-entry boxes, sample tables, metadata,
    the `moov`, the writer (`mp4.rs`), the file layout (`layout.rs`), and the
    properties that span the writer's operations (`laws.rs`,
    `interleave.rs`).
  - `hex.rs`, `inspect.rs`, `cli.rs`: the logic of the command-line tool
    (hex fixtures, a look inside MP4 files, accepted settings).
- `tests/` — tests run against the compiled library.
- `app/` — the command-line tool, the seconds-based muxing API (its
  timestamps are floating point) and the C ABI.
