//! A QPACK (RFC 9204) header encoder: static and dynamic table lookups,
//! the wire representations of field lines and encoder-stream
//! instructions, the encoding of a whole header block, and what a decoder
//! reads back from it.
pub mod buf;
pub mod prefix_int;
pub mod prefix_string;
pub mod field;
pub mod static_table;
pub mod dynamic;
pub mod bloc;
pub mod stream;
pub mod encoder;
pub mod decoding;
