# opus_rs (verified core)

Pieces of an Opus codec (RFC 6716) written in Verus:

- `src/range_coder.rs` — the decoding half of the range coder (section 4.1):
  start-up, ICDF symbol decoding and normalization, with a mathematical model
  of the decoder state and its invariant.
- `src/silk/` — decoding of the side information of a SILK frame (frame type,
  gains, NLSF indices, interpolation factor, pitch and LTP parameters, seed)
  and of the stereo prediction weights; the tables they read; NLSF selector
  unpacking; fixed-point multiply helpers. Each decoder has an exact contract
  over the symbols it reads, and the ranges of the decoded indices are proved.
- `src/compat.rs` — an insertion sort (proved to permute, sort and keep equal
  entries in order for consistent comparators; stable sorting is proved to
  have a single result) and a lazily initialized cell built on std's
  `OnceLock`, of which nothing is proved.

The library needs std: the cell rests on `std::sync::OnceLock`, and Verus
code links against std. It does not build as `#![no_std]`, and `OnceCell::new`
is not a `const fn`.

`app/` holds what stays outside the verified library: CPU feature probes and
float math routed through `libm`. `tests/` exercises the library on concrete
bitstreams.
