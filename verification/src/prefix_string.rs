//! String literals (RFC 7541, section 5.2): a prefixed length whose first
//! bit above the prefix is the Huffman flag, followed by the octets.
//! Strings are written as plain octets, with the Huffman flag clear.
use vstd::prelude::*;
use crate::buf::write_slice;
use crate::prefix_int::{self, IntError, prefix_mult, spec_decode_int, spec_encode_int, valid_prefix};

verus! {

/// A prefix size and flags that leave room for the Huffman flag.
pub open spec fn valid_string_prefix(size: u8, flags: u8) -> bool {
    &&& 1 <= size <= 7
    &&& flags * 2 * prefix_mult(size) < 256
}

/// The encoding of `value` with a `size`-bit length prefix under `flags`:
/// the Huffman flag is clear and the octets follow as they are.
pub open spec fn spec_encode_string(size: u8, flags: u8, value: Seq<u8>) -> Seq<u8> {
    spec_encode_int(size, (flags * 2) as u8, value.len()) + value
}

/// Errors in reading a string literal.
#[derive(Debug, Clone, Copy, PartialEq, Eq, Structural)]
pub enum StringError {
    /// The input ends inside the string.
    UnexpectedEnd,
    /// The length prefix is malformed.
    Integer(IntError),
    /// The string is Huffman-coded, which this library does not read.
    HuffmanCoded,
}

/// Reads a string literal at the start of `s`: its flags (the bits above
/// the Huffman flag), its octets and the number of bytes it takes.
pub open spec fn spec_decode_string(size: u8, s: Seq<u8>) -> Result<(nat, Seq<u8>, nat), StringError> {
    match spec_decode_int(size, s) {
        None => Err(StringError::Integer(IntError::UnexpectedEnd)),
        Some((f, len, n)) => if len > usize::MAX {
            Err(StringError::Integer(IntError::Overflow))
        } else if f % 2 == 1 {
            Err(StringError::HuffmanCoded)
        } else if n + len > s.len() {
            Err(StringError::UnexpectedEnd)
        } else {
            Ok((f / 2, s.subrange(n as int, (n + len) as int), n + len))
        },
    }
}

proof fn lemma_string_prefix_valid(size: u8, flags: u8)
    requires
        valid_string_prefix(size, flags),
    ensures
        valid_prefix(size, (flags * 2) as u8),
        flags * 2 < 256,
{
    assert(prefix_mult(size) >= 2);
    assert(flags * 2 * prefix_mult(size) >= flags * 2) by (nonlinear_arith)
        requires
            prefix_mult(size) >= 2,
    ;
}

/// Writes `value` as a string literal with a `size`-bit length prefix.
pub fn encode(size: u8, flags: u8, value: &[u8], buf: &mut Vec<u8>)
    requires
        valid_string_prefix(size, flags),
        old(buf)@.len() + spec_encode_string(size, flags, value@).len() <= isize::MAX,
    ensures
        final(buf)@ == old(buf)@ + spec_encode_string(size, flags, value@),
{
    proof {
        lemma_string_prefix_valid(size, flags);
    }
    prefix_int::encode(size, flags * 2, value.len(), buf);
    write_slice(buf, value);
    assert(buf@ =~= old(buf)@ + spec_encode_string(size, flags, value@));
}

/// Reads a string literal with a `size`-bit length prefix at the start of
/// `buf`: its flags, its octets and the number of bytes it takes.
pub fn decode(size: u8, buf: &[u8]) -> (res: Result<(u8, Vec<u8>, usize), StringError>)
    requires
        1 <= size <= 7,
    ensures
        match spec_decode_string(size, buf@) {
            Ok((f, v, n)) => res matches Ok((rf, rv, rn)) && rf == f && rv@ == v && rn == n,
            Err(e) => res matches Err(re) && re == e,
        },
{
    proof {
        prefix_int::lemma_decode_int_len(size, buf@);
    }
    let (f, len, n) = match prefix_int::decode(size, buf) {
        Ok(r) => r,
        Err(e) => {
            return Err(StringError::Integer(e));
        },
    };
    if f % 2 == 1 {
        return Err(StringError::HuffmanCoded);
    }
    if len > buf.len() - n {
        return Err(StringError::UnexpectedEnd);
    }
    let value = vstd::slice::slice_to_vec(vstd::slice::slice_subrange(buf, n, n + len));
    assert(f / 2 == (f as nat) / 2);
    Ok((f / 2, value, n + len))
}

/// Reading back a string literal gives the flags and the octets it was
/// written with, and the number of bytes written, whatever follows it.
pub proof fn lemma_string_roundtrip(size: u8, flags: u8, value: Seq<u8>, rest: Seq<u8>)
    requires
        valid_string_prefix(size, flags),
        value.len() <= usize::MAX,
    ensures
        spec_decode_string(size, spec_encode_string(size, flags, value) + rest) == Ok::<
            (nat, Seq<u8>, nat),
            StringError,
        >((flags as nat, value, spec_encode_string(size, flags, value).len())),
{
    lemma_string_prefix_valid(size, flags);
    let head = spec_encode_int(size, (flags * 2) as u8, value.len());
    let s = spec_encode_string(size, flags, value) + rest;
    assert(s =~= head + (value + rest));
    prefix_int::lemma_int_roundtrip(size, (flags * 2) as u8, value.len(), value + rest);
    assert(s.subrange(head.len() as int, (head.len() + value.len()) as int) =~= value);
}

} // verus!
