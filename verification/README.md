# qpack

A QPACK (RFC 9204) header encoder, verified with Verus.

- `src/prefix_int.rs`, `src/prefix_string.rs`: prefixed integers and string
  literals, written and read back.
- `src/field.rs`, `src/static_table.rs`, `src/dynamic.rs`: header fields, the
  static table, and the dynamic table with the encoder's view of it (lookups
  relative to a base, insertions).
- `src/bloc.rs`, `src/stream.rs`: the field line representations and the block
  prefix; the encoder-stream instructions.
- `src/encoder.rs`: encoding a header block (`encode`, `encode_field`,
  `encode_field_insert`, `encode_field_literal`).
- `src/decoding.rs`: what a decoder makes of an encoded block, and the proof
  that it reads back the fields that were encoded.
- `src/buf.rs`: writing bytes through `bytes::BufMut` and
  `quinn_proto::coding::Codec`, the only trusted code.

Strings are written as plain octets (the Huffman flag clear).
