# oxideav_dts

A DTS Coherent Acoustics Core bit-stream library whose behaviour is stated
in `requires` / `ensures` contracts and proved with Verus.

## Layout

- `src/` — the verified library.
  - `bits.rs` — MSB-first bit reader over a byte slice, with the bit-stream
    model (`bits_of`, `fld`) every other contract is written against.
  - `header.rs` — sync detection, the frame-sync header parser for the raw
    big- and little-endian and the 14-bit-packed forms, and the big-endian
    encoder; the encode/parse round trip and the little-endian/big-endian and
    14-bit/unpacked equivalences are proved there.
  - `unpack14.rs` — 14-bit container unpacking.
  - `iter.rs` — sync scanning and the fail-fast and resynchronising frame
    walkers.
  - `side_info.rs`, `subframe.rs` — the side-information code books, field
    decoders and the whole side-information walk of a subframe.
  - `coding_header.rs` — the audio coding header.
  - `payload.rs` — the walk of a frame's audio payload with the direct code
    books (side information, per-block codes, `DSYNC`), as a function of the
    bit stream, with the shape of every decoded subframe proved.
  - `audio_huff.rs`, `audio_array.rs`, `d10_vq.rs`, `vq.rs` — audio-data
    code books, quantizer word widths, sign extension, LFE sample reads and
    the high-frequency VQ index scan.
  - `huffman.rs` — canonical Huffman code-book construction and decoding.
  - `qmf_assemble.rs`, `filter_bank.rs`, `cos_mod.rs`, `tables.rs`,
    `syncwords.rs` — synthesis-stage sizes, input assembly and history shift,
    filter-bank selection and constant tables.
  - `probe.rs` — header routing, probe classes, error classes and the packet
    state of the decoder handle.
- `app/` — the `oxideav-core` decoder and registry glue and the
  floating-point stages (dynamic-range gains, cosine modulation, polyphase
  synthesis, VQ value scaling, subband sample scaling of a decoded payload).
- `tests/` — the test suite.
