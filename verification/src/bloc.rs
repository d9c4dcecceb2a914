//! The representations of field lines in a header block (RFC 9204,
//! section 4.5), and the prefix that opens the block.
use vstd::prelude::*;
use crate::prefix_int::{self, IntError, lemma_int_roundtrip, spec_decode_int, spec_encode_int};
use crate::prefix_string::{
    self, StringError, lemma_string_roundtrip, spec_decode_string, spec_encode_string,
};

verus! {

/// Errors in reading a field line, a block prefix or an instruction.
#[derive(Debug, Clone, Copy, PartialEq, Eq, Structural)]
pub enum ParseError {
    /// A prefixed integer is malformed.
    Integer(IntError),
    /// A string literal is malformed.
    String(StringError),
    /// The first byte does not start this kind of representation.
    InvalidPrefix(u8),
    /// The encoded Required Insert Count cannot be decoded.
    InvalidInsertCount(usize),
    /// The base is negative or does not fit in a `usize`.
    InvalidBase,
}

/// Reads a prefixed integer whose value fits in a `usize`.
pub open spec fn spec_read_int(size: u8, s: Seq<u8>) -> Result<(nat, usize, nat), ParseError> {
    match spec_decode_int(size, s) {
        None => Err(ParseError::Integer(IntError::UnexpectedEnd)),
        Some((f, v, n)) => if v > usize::MAX {
            Err(ParseError::Integer(IntError::Overflow))
        } else {
            Ok((f, v as usize, n))
        },
    }
}

/// Reads a string literal.
pub open spec fn spec_read_string(size: u8, s: Seq<u8>) -> Result<(nat, Seq<u8>, nat), ParseError> {
    match spec_decode_string(size, s) {
        Ok(r) => Ok(r),
        Err(e) => Err(ParseError::String(e)),
    }
}

pub(crate) fn read_int(size: u8, buf: &[u8]) -> (r: Result<(u8, usize, usize), ParseError>)
    requires
        1 <= size <= 8,
    ensures
        match spec_read_int(size, buf@) {
            Ok((f, v, n)) => r == Ok::<(u8, usize, usize), ParseError>((f as u8, v, n as usize))
                && 1 <= n <= buf@.len() && n <= usize::MAX && f < 256,
            Err(e) => r == Err::<(u8, usize, usize), ParseError>(e),
        },
{
    proof {
        prefix_int::lemma_decode_int_len(size, buf@);
        if buf@.len() > 0 {
            assert(buf@[0] as nat / prefix_int::prefix_mult(size) <= buf@[0] as nat) by (
            nonlinear_arith)
                requires
                    prefix_int::prefix_mult(size) >= 2,
            ;
        }
    }
    let _len = buf.len();
    match prefix_int::decode(size, buf) {
        Ok(r) => Ok(r),
        Err(e) => Err(ParseError::Integer(e)),
    }
}

pub(crate) fn read_string(size: u8, buf: &[u8]) -> (r: Result<(u8, Vec<u8>, usize), ParseError>)
    requires
        1 <= size <= 7,
    ensures
        match spec_read_string(size, buf@) {
            Ok((f, v, n)) => r matches Ok((rf, rv, rn)) && rf == f && rv@ == v && rn == n && n
                <= buf@.len(),
            Err(e) => r matches Err(re) && re == e,
        },
{
    match prefix_string::decode(size, buf) {
        Ok(r) => Ok(r),
        Err(e) => Err(ParseError::String(e)),
    }
}

/// The bytes of `buf` from `n` on.
pub(crate) fn rest_of(buf: &[u8], n: usize) -> (r: &[u8])
    requires
        n <= buf@.len(),
    ensures
        r@ == buf@.skip(n as int),
        buf@.len() <= usize::MAX,
{
    let _len = buf.len();
    let r = vstd::slice::slice_subrange(buf, n, buf.len());
    assert(r@ =~= buf@.skip(n as int));
    r
}

/// An indexed field line: a static entry, or a dynamic entry by its index
/// relative to the base.
#[derive(Debug, Clone, Copy, PartialEq, Eq, Structural)]
pub enum Indexed {
    Static(usize),
    Dynamic(usize),
}

impl Indexed {
    /// `1 T index(6+)`, with `T` set for the static table.
    pub open spec fn spec_bytes(&self) -> Seq<u8> {
        match *self {
            Indexed::Static(i) => spec_encode_int(6, 0b11, i as nat),
            Indexed::Dynamic(i) => spec_encode_int(6, 0b10, i as nat),
        }
    }

    /// Writes this field line.
    pub fn encode(&self, buf: &mut Vec<u8>)
        requires
            old(buf)@.len() + self.spec_bytes().len() <= isize::MAX,
        ensures
            final(buf)@ == old(buf)@ + self.spec_bytes(),
            *self matches Indexed::Static(i) ==> final(buf)@ == old(buf)@ + spec_encode_int(
                6,
                0b11,
                i as nat,
            ),
            *self matches Indexed::Dynamic(i) ==> final(buf)@ == old(buf)@ + spec_encode_int(
                6,
                0b10,
                i as nat,
            ),
    {
        match *self {
            Indexed::Static(i) => prefix_int::encode(6, 0b11, i, buf),
            Indexed::Dynamic(i) => prefix_int::encode(6, 0b10, i, buf),
        }
    }

    /// Reads an indexed field line at the start of `buf`, and the number of
    /// bytes it takes.
    pub fn decode(buf: &[u8]) -> (r: Result<(Indexed, usize), ParseError>)
        ensures
            match spec_decode_indexed(buf@) {
                Ok((x, n)) => r == Ok::<(Indexed, usize), ParseError>((x, n as usize)),
                Err(e) => r == Err::<(Indexed, usize), ParseError>(e),
            },
    {
        if buf.len() == 0 {
            return Err(ParseError::Integer(IntError::UnexpectedEnd));
        }
        if buf[0] < 0b1000_0000 {
            return Err(ParseError::InvalidPrefix(buf[0]));
        }
        let (f, v, n) = match read_int(6, buf) {
            Ok(x) => x,
            Err(e) => {
                return Err(e);
            },
        };
        if f == 0b11 {
            Ok((Indexed::Static(v), n))
        } else {
            Ok((Indexed::Dynamic(v), n))
        }
    }
}

/// Reads an indexed field line: `1 T index(6+)`.
pub open spec fn spec_decode_indexed(s: Seq<u8>) -> Result<(Indexed, nat), ParseError> {
    if s.len() == 0 {
        Err(ParseError::Integer(IntError::UnexpectedEnd))
    } else if s[0] < 0b1000_0000 {
        Err(ParseError::InvalidPrefix(s[0]))
    } else {
        match spec_read_int(6, s) {
            Ok((f, v, n)) => if f == 0b11 {
                Ok((Indexed::Static(v), n))
            } else {
                Ok((Indexed::Dynamic(v), n))
            },
            Err(e) => Err(e),
        }
    }
}

/// An indexed field line with a post-base index.
#[derive(Debug, Clone, Copy, PartialEq, Eq, Structural)]
pub struct IndexedWithPostBase(pub usize);

impl IndexedWithPostBase {
    /// `0001 index(4+)`.
    pub open spec fn spec_bytes(&self) -> Seq<u8> {
        spec_encode_int(4, 0b0001, self.0 as nat)
    }

    /// Writes this field line.
    pub fn encode(&self, buf: &mut Vec<u8>)
        requires
            old(buf)@.len() + self.spec_bytes().len() <= isize::MAX,
        ensures
            final(buf)@ == old(buf)@ + self.spec_bytes(),
    {
        prefix_int::encode(4, 0b0001, self.0, buf)
    }

    /// Reads an indexed field line with a post-base index at the start of
    /// `buf`, and the number of bytes it takes.
    pub fn decode(buf: &[u8]) -> (r: Result<(IndexedWithPostBase, usize), ParseError>)
        ensures
            match spec_decode_indexed_post_base(buf@) {
                Ok((x, n)) => r == Ok::<(IndexedWithPostBase, usize), ParseError>((x, n as usize)),
                Err(e) => r == Err::<(IndexedWithPostBase, usize), ParseError>(e),
            },
    {
        if buf.len() == 0 {
            return Err(ParseError::Integer(IntError::UnexpectedEnd));
        }
        if buf[0] / 16 != 0b0001 {
            return Err(ParseError::InvalidPrefix(buf[0]));
        }
        let (_f, v, n) = match read_int(4, buf) {
            Ok(x) => x,
            Err(e) => {
                return Err(e);
            },
        };
        Ok((IndexedWithPostBase(v), n))
    }
}

/// Reads an indexed field line with a post-base index: `0001 index(4+)`.
pub open spec fn spec_decode_indexed_post_base(s: Seq<u8>) -> Result<(IndexedWithPostBase, nat), ParseError> {
    if s.len() == 0 {
        Err(ParseError::Integer(IntError::UnexpectedEnd))
    } else if s[0] / 16 != 0b0001 {
        Err(ParseError::InvalidPrefix(s[0]))
    } else {
        match spec_read_int(4, s) {
            Ok((f, v, n)) => Ok((IndexedWithPostBase(v), n)),
            Err(e) => Err(e),
        }
    }
}

/// A literal field line whose name is a static entry, or a dynamic entry
/// by its index relative to the base.
#[derive(Debug, PartialEq, Eq)]
pub enum LiteralWithNameRef {
    Static { index: usize, value: Vec<u8> },
    Dynamic { index: usize, value: Vec<u8> },
}

impl LiteralWithNameRef {
    /// A field line naming static entry `index`.
    pub fn new_static(index: usize, value: &[u8]) -> (r: LiteralWithNameRef)
        ensures
            r matches LiteralWithNameRef::Static { index: i, value: v } && i == index && v@
                == value@,
    {
        LiteralWithNameRef::Static { index, value: vstd::slice::slice_to_vec(value) }
    }

    /// A field line naming the dynamic entry at relative index `index`.
    pub fn new_dynamic(index: usize, value: &[u8]) -> (r: LiteralWithNameRef)
        ensures
            r matches LiteralWithNameRef::Dynamic { index: i, value: v } && i == index && v@
                == value@,
    {
        LiteralWithNameRef::Dynamic { index, value: vstd::slice::slice_to_vec(value) }
    }

    /// `01 N T index(4+)` with `N` clear and `T` set for the static table,
    /// then the value as a string with a 7-bit length prefix.
    pub open spec fn spec_bytes(&self) -> Seq<u8> {
        match *self {
            LiteralWithNameRef::Static { index, value } => spec_encode_int(
                4,
                0b0101,
                index as nat,
            ) + spec_encode_string(7, 0, value@),
            LiteralWithNameRef::Dynamic { index, value } => spec_encode_int(
                4,
                0b0100,
                index as nat,
            ) + spec_encode_string(7, 0, value@),
        }
    }

    /// Writes this field line.
    pub fn encode(&self, buf: &mut Vec<u8>)
        requires
            old(buf)@.len() + self.spec_bytes().len() <= isize::MAX,
        ensures
            final(buf)@ == old(buf)@ + self.spec_bytes(),
    {
        match self {
            LiteralWithNameRef::Static { index, value } => {
                prefix_int::encode(4, 0b0101, *index, buf);
                prefix_string::encode(7, 0, value.as_slice(), buf);
            },
            LiteralWithNameRef::Dynamic { index, value } => {
                prefix_int::encode(4, 0b0100, *index, buf);
                prefix_string::encode(7, 0, value.as_slice(), buf);
            },
        }
        assert(final(buf)@ =~= old(buf)@ + self.spec_bytes());
    }
    /// Whether the name is static, the index, and the value.
    pub open spec fn parts(&self) -> (bool, usize, Seq<u8>) {
        match *self {
            LiteralWithNameRef::Static { index, value } => (true, index, value@),
            LiteralWithNameRef::Dynamic { index, value } => (false, index, value@),
        }
    }

    /// Reads a literal field line with a name reference at the start of
    /// `buf`, and the number of bytes it takes.
    pub fn decode(buf: &[u8]) -> (r: Result<(LiteralWithNameRef, usize), ParseError>)
        ensures
            match spec_decode_literal_name_ref(buf@) {
                Ok((st, i, v, n)) => r matches Ok((x, rn)) && x.parts() == (st, i, v) && rn == n,
                Err(e) => r matches Err(re) && re == e,
            },
    {
        if buf.len() == 0 {
            return Err(ParseError::Integer(IntError::UnexpectedEnd));
        }
        if buf[0] / 64 != 0b01 {
            return Err(ParseError::InvalidPrefix(buf[0]));
        }
        let (f, index, n) = match read_int(4, buf) {
            Ok(x) => x,
            Err(e) => {
                return Err(e);
            },
        };
        let (_vf, value, m) = match read_string(7, rest_of(buf, n)) {
            Ok(x) => x,
            Err(e) => {
                return Err(e);
            },
        };
        if f % 2 == 1 {
            Ok((LiteralWithNameRef::Static { index, value }, n + m))
        } else {
            Ok((LiteralWithNameRef::Dynamic { index, value }, n + m))
        }
    }
}

/// Reads a literal field line with a name reference: `01 N T index(4+)`
/// then the value; whether the name is static, the index, the value and
/// the length.
pub open spec fn spec_decode_literal_name_ref(s: Seq<u8>) -> Result<(bool, usize, Seq<u8>, nat), ParseError> {
    if s.len() == 0 {
        Err(ParseError::Integer(IntError::UnexpectedEnd))
    } else if s[0] / 64 != 0b01 {
        Err(ParseError::InvalidPrefix(s[0]))
    } else {
        match spec_read_int(4, s) {
            Ok((f, i, n)) => match spec_read_string(7, s.skip(n as int)) {
                Ok((_vf, v, m)) => Ok((f % 2 == 1, i, v, n + m)),
                Err(e) => Err(e),
            },
            Err(e) => Err(e),
        }
    }
}

/// A literal field line whose name is a dynamic entry by its post-base
/// index.
#[derive(Debug, PartialEq, Eq)]
pub struct LiteralWithPostBaseNameRef {
    pub index: usize,
    pub value: Vec<u8>,
}

impl LiteralWithPostBaseNameRef {
    /// A field line naming the entry at post-base index `index`.
    pub fn new(index: usize, value: &[u8]) -> (r: LiteralWithPostBaseNameRef)
        ensures
            r.index == index,
            r.value@ == value@,
    {
        LiteralWithPostBaseNameRef { index, value: vstd::slice::slice_to_vec(value) }
    }

    /// `0000 N index(3+)` with `N` clear, then the value as a string with a
    /// 7-bit length prefix.
    pub open spec fn spec_bytes(&self) -> Seq<u8> {
        spec_encode_int(3, 0b0000, self.index as nat) + spec_encode_string(7, 0, self.value@)
    }

    /// Writes this field line.
    pub fn encode(&self, buf: &mut Vec<u8>)
        requires
            old(buf)@.len() + self.spec_bytes().len() <= isize::MAX,
        ensures
            final(buf)@ == old(buf)@ + self.spec_bytes(),
    {
        prefix_int::encode(3, 0b0000, self.index, buf);
        prefix_string::encode(7, 0, self.value.as_slice(), buf);
        assert(final(buf)@ =~= old(buf)@ + self.spec_bytes());
    }
    /// Reads a literal field line with a post-base name reference at the
    /// start of `buf`, and the number of bytes it takes.
    pub fn decode(buf: &[u8]) -> (r: Result<(LiteralWithPostBaseNameRef, usize), ParseError>)
        ensures
            match spec_decode_literal_post_base(buf@) {
                Ok((i, v, n)) => r matches Ok((x, rn)) && x.index == i && x.value@ == v && rn == n,
                Err(e) => r matches Err(re) && re == e,
            },
    {
        if buf.len() == 0 {
            return Err(ParseError::Integer(IntError::UnexpectedEnd));
        }
        if buf[0] / 16 != 0 {
            return Err(ParseError::InvalidPrefix(buf[0]));
        }
        let (_f, index, n) = match read_int(3, buf) {
            Ok(x) => x,
            Err(e) => {
                return Err(e);
            },
        };
        let (_vf, value, m) = match read_string(7, rest_of(buf, n)) {
            Ok(x) => x,
            Err(e) => {
                return Err(e);
            },
        };
        Ok((LiteralWithPostBaseNameRef { index, value }, n + m))
    }
}

/// Reads a literal field line with a post-base name reference:
/// `0000 N index(3+)` then the value; the index, the value and the length.
pub open spec fn spec_decode_literal_post_base(s: Seq<u8>) -> Result<(usize, Seq<u8>, nat), ParseError> {
    if s.len() == 0 {
        Err(ParseError::Integer(IntError::UnexpectedEnd))
    } else if s[0] / 16 != 0 {
        Err(ParseError::InvalidPrefix(s[0]))
    } else {
        match spec_read_int(3, s) {
            Ok((f, i, n)) => match spec_read_string(7, s.skip(n as int)) {
                Ok((_vf, v, m)) => Ok((i, v, n + m)),
                Err(e) => Err(e),
            },
            Err(e) => Err(e),
        }
    }
}

/// A literal field line with a literal name.
#[derive(Debug, PartialEq, Eq)]
pub struct Literal {
    pub name: Vec<u8>,
    pub value: Vec<u8>,
}

impl Literal {
    /// A field line carrying `name` and `value`.
    pub fn new(name: &[u8], value: &[u8]) -> (r: Literal)
        ensures
            r.name@ == name@,
            r.value@ == value@,
    {
        Literal { name: vstd::slice::slice_to_vec(name), value: vstd::slice::slice_to_vec(value) }
    }

    /// `001 N H name-length(3+)` with `N` clear, the name, then the value
    /// as a string with a 7-bit length prefix.
    pub open spec fn spec_bytes(&self) -> Seq<u8> {
        spec_encode_string(3, 0b0010, self.name@) + spec_encode_string(7, 0, self.value@)
    }

    /// Writes this field line.
    pub fn encode(&self, buf: &mut Vec<u8>)
        requires
            old(buf)@.len() + self.spec_bytes().len() <= isize::MAX,
        ensures
            final(buf)@ == old(buf)@ + self.spec_bytes(),
    {
        prefix_string::encode(3, 0b0010, self.name.as_slice(), buf);
        prefix_string::encode(7, 0, self.value.as_slice(), buf);
        assert(final(buf)@ =~= old(buf)@ + self.spec_bytes());
    }
    /// Reads a literal field line with a literal name at the start of
    /// `buf`, and the number of bytes it takes.
    pub fn decode(buf: &[u8]) -> (r: Result<(Literal, usize), ParseError>)
        ensures
            match spec_decode_literal(buf@) {
                Ok((nm, v, n)) => r matches Ok((x, rn)) && x.name@ == nm && x.value@ == v && rn
                    == n,
                Err(e) => r matches Err(re) && re == e,
            },
    {
        if buf.len() == 0 {
            return Err(ParseError::Integer(IntError::UnexpectedEnd));
        }
        if buf[0] / 32 != 0b001 {
            return Err(ParseError::InvalidPrefix(buf[0]));
        }
        let (_f, name, n) = match read_string(3, buf) {
            Ok(x) => x,
            Err(e) => {
                return Err(e);
            },
        };
        let (_vf, value, m) = match read_string(7, rest_of(buf, n)) {
            Ok(x) => x,
            Err(e) => {
                return Err(e);
            },
        };
        Ok((Literal { name, value }, n + m))
    }
}

/// Reads a literal field line with a literal name: `001 N H
/// name-length(3+)`, the name, then the value; the name, the value and the
/// length.
pub open spec fn spec_decode_literal(s: Seq<u8>) -> Result<(Seq<u8>, Seq<u8>, nat), ParseError> {
    if s.len() == 0 {
        Err(ParseError::Integer(IntError::UnexpectedEnd))
    } else if s[0] / 32 != 0b001 {
        Err(ParseError::InvalidPrefix(s[0]))
    } else {
        match spec_read_string(3, s) {
            Ok((f, nm, n)) => match spec_read_string(7, s.skip(n as int)) {
                Ok((_vf, v, m)) => Ok((nm, v, n + m)),
                Err(e) => Err(e),
            },
            Err(e) => Err(e),
        }
    }
}

/// The prefix of a header block: the encoded Required Insert Count, and the
/// base as a signed difference from it (RFC 9204, section 4.5.1).
#[derive(Debug, Clone, Copy, PartialEq, Eq, Structural)]
pub struct HeaderPrefix {
    pub encoded_insert_count: usize,
    pub sign_negative: bool,
    pub delta_base: usize,
}

/// The prefix for a block whose highest dynamic reference is `required`,
/// encoded with base `base` against a table of capacity `max_table_size`.
pub open spec fn spec_header_prefix(required: nat, base: nat, max_table_size: nat) -> HeaderPrefix {
    let max_entries = max_table_size / 32;
    if required == 0 || max_entries == 0 {
        HeaderPrefix { encoded_insert_count: 0, sign_negative: false, delta_base: 0 }
    } else if required > base {
        HeaderPrefix {
            encoded_insert_count: (required % (2 * max_entries) + 1) as usize,
            sign_negative: true,
            delta_base: (required - base - 1) as usize,
        }
    } else {
        HeaderPrefix {
            encoded_insert_count: (required % (2 * max_entries) + 1) as usize,
            sign_negative: false,
            delta_base: (base - required) as usize,
        }
    }
}

impl HeaderPrefix {
    /// The prefix for a block whose highest dynamic reference is
    /// `required`, encoded with base `base` when `total_inserted` fields had
    /// been inserted into a table of capacity `max_table_size`.
    pub fn new(required: usize, base: usize, total_inserted: usize, max_table_size: usize) -> (r:
        HeaderPrefix)
        requires
            required <= total_inserted,
        ensures
            r == spec_header_prefix(required as nat, base as nat, max_table_size as nat),
            required == 0 || max_table_size / 32 == 0 ==> r.encoded_insert_count == 0
                && !r.sign_negative && r.delta_base == 0,
            required > 0 && max_table_size / 32 > 0 ==> r.encoded_insert_count == (required as nat) % (2 * (
            max_table_size as nat / 32)) + 1,
            0 < required <= base && max_table_size / 32 > 0 ==> !r.sign_negative && r.delta_base
                == base - required,
            required > base && max_table_size / 32 > 0 ==> r.sign_negative && r.delta_base
                == required - base - 1,
    {
        let max_entries = max_table_size / 32;
        if required == 0 || max_entries == 0 {
            return HeaderPrefix { encoded_insert_count: 0, sign_negative: false, delta_base: 0 };
        }
        let full_range = 2 * max_entries;
        let encoded_insert_count = required % full_range + 1;
        if required > base {
            HeaderPrefix { encoded_insert_count, sign_negative: true, delta_base: required - base - 1 }
        } else {
            HeaderPrefix { encoded_insert_count, sign_negative: false, delta_base: base - required }
        }
    }

    /// The encoded insert count with an 8-bit prefix, then the sign and the
    /// delta base with a 7-bit prefix.
    pub open spec fn spec_bytes(&self) -> Seq<u8> {
        spec_encode_int(8, 0, self.encoded_insert_count as nat) + spec_encode_int(
            7,
            if self.sign_negative {
                1
            } else {
                0
            },
            self.delta_base as nat,
        )
    }

    /// Writes this prefix.
    pub fn encode(&self, buf: &mut Vec<u8>)
        requires
            old(buf)@.len() + self.spec_bytes().len() <= isize::MAX,
        ensures
            final(buf)@ == old(buf)@ + self.spec_bytes(),
    {
        prefix_int::encode(8, 0, self.encoded_insert_count, buf);
        let sign: u8 = if self.sign_negative {
            1
        } else {
            0
        };
        prefix_int::encode(7, sign, self.delta_base, buf);
        assert(final(buf)@ =~= old(buf)@ + self.spec_bytes());
    }
    /// The Required Insert Count and the base this prefix stands for, read
    /// by a decoder that has seen `total_inserted` insertions into a table
    /// of capacity `max_table_size` (RFC 9204, section 4.5.1).
    pub fn get(&self, total_inserted: usize, max_table_size: usize) -> (r: Result<(usize, usize), ParseError>)
        requires
            total_inserted + max_table_size / 32 <= usize::MAX,
        ensures
            r == spec_prefix_get(*self, total_inserted as nat, max_table_size as nat),
            r matches Ok((required, base)) ==> (if self.sign_negative {
                base + self.delta_base + 1 == required
            } else {
                base == required + self.delta_base
            }),
    {
        let eic = self.encoded_insert_count;
        let required = if eic == 0 {
            0
        } else {
            let max_entries = max_table_size / 32;
            let full_range = 2 * max_entries;
            if eic > full_range {
                return Err(ParseError::InvalidInsertCount(eic));
            }
            let max_value = total_inserted + max_entries;
            proof {
                assert((max_value / full_range) * full_range <= max_value) by (nonlinear_arith)
                    requires
                        full_range > 0,
                ;
            }
            let max_wrapped = (max_value / full_range) * full_range;
            if eic - 1 > max_value - max_wrapped {
                if max_wrapped <= full_range - (eic - 1) {
                    return Err(ParseError::InvalidInsertCount(eic));
                }
                max_wrapped - (full_range - (eic - 1))
            } else {
                let ric = max_wrapped + (eic - 1);
                if ric == 0 {
                    return Err(ParseError::InvalidInsertCount(eic));
                }
                ric
            }
        };
        if self.sign_negative {
            if required <= self.delta_base {
                return Err(ParseError::InvalidBase);
            }
            Ok((required, required - self.delta_base - 1))
        } else {
            if self.delta_base > usize::MAX - required {
                return Err(ParseError::InvalidBase);
            }
            Ok((required, required + self.delta_base))
        }
    }

    /// Reads a block prefix at the start of `buf`, and the number of bytes
    /// it takes.
    pub fn decode(buf: &[u8]) -> (r: Result<(HeaderPrefix, usize), ParseError>)
        ensures
            match spec_decode_header_prefix(buf@) {
                Ok((x, n)) => r == Ok::<(HeaderPrefix, usize), ParseError>((x, n as usize)),
                Err(e) => r == Err::<(HeaderPrefix, usize), ParseError>(e),
            },
    {
        let (_f, encoded_insert_count, n) = match read_int(8, buf) {
            Ok(x) => x,
            Err(e) => {
                return Err(e);
            },
        };
        let rest = rest_of(buf, n);
        let (sign, delta_base, m) = match read_int(7, rest) {
            Ok(x) => x,
            Err(e) => {
                return Err(e);
            },
        };
        Ok((HeaderPrefix { encoded_insert_count, sign_negative: sign == 1, delta_base }, n + m))
    }
}

/// Reads a block prefix: the encoded insert count with an 8-bit prefix,
/// then the sign and the delta base with a 7-bit prefix.
pub open spec fn spec_decode_header_prefix(s: Seq<u8>) -> Result<(HeaderPrefix, nat), ParseError> {
    match spec_read_int(8, s) {
        Ok((_f, eic, n)) => match spec_read_int(7, s.skip(n as int)) {
            Ok((sign, delta, m)) => Ok(
                (HeaderPrefix { encoded_insert_count: eic, sign_negative: sign == 1, delta_base: delta }, n + m),
            ),
            Err(e) => Err(e),
        },
        Err(e) => Err(e),
    }
}

/// The Required Insert Count a decoder reads from an encoded insert count,
/// having seen `total` insertions into a table of capacity `max_table_size`:
/// the one value congruent to `encoded - 1` modulo twice the table's entry
/// count in the window that ends that many entries past `total`.
pub open spec fn spec_decode_required(encoded: nat, total: nat, max_table_size: nat) -> Result<nat, ParseError> {
    let max_entries = max_table_size / 32;
    let full_range = 2 * max_entries;
    if encoded == 0 {
        Ok(0)
    } else if encoded > full_range {
        Err(ParseError::InvalidInsertCount(encoded as usize))
    } else {
        let max_value = total + max_entries;
        let max_wrapped = (max_value / full_range) * full_range;
        let ric = max_wrapped + encoded - 1;
        if ric > max_value {
            if ric <= full_range {
                Err(ParseError::InvalidInsertCount(encoded as usize))
            } else {
                Ok((ric - full_range) as nat)
            }
        } else if ric == 0 {
            Err(ParseError::InvalidInsertCount(encoded as usize))
        } else {
            Ok(ric as nat)
        }
    }
}

/// The Required Insert Count and the base a prefix stands for.
pub open spec fn spec_prefix_get(p: HeaderPrefix, total: nat, max_table_size: nat) -> Result<(usize, usize), ParseError> {
    match spec_decode_required(p.encoded_insert_count as nat, total, max_table_size) {
        Err(e) => Err(e),
        Ok(required) => if p.sign_negative {
            if required <= p.delta_base {
                Err(ParseError::InvalidBase)
            } else {
                Ok((required as usize, (required - p.delta_base - 1) as usize))
            }
        } else if required + p.delta_base > usize::MAX {
            Err(ParseError::InvalidBase)
        } else {
            Ok((required as usize, (required + p.delta_base) as usize))
        },
    }
}

/// An indexed field line is its index as a 6-bit prefixed integer under
/// the bits `11` for a static entry and `10` for a dynamic entry, the
/// dynamic index taken relative to the base; an index below 63 takes the
/// one byte `0xc0 + i` or `0x80 + i`. Read back, those bytes give the same
/// line.
pub proof fn lemma_indexed_wire(i: usize)
    ensures
        Indexed::Static(i).spec_bytes() == spec_encode_int(6, 0b11, i as nat),
        Indexed::Dynamic(i).spec_bytes() == spec_encode_int(6, 0b10, i as nat),
        i < 63 ==> Indexed::Static(i).spec_bytes() == seq![(0xc0 + i) as u8],
        i < 63 ==> Indexed::Dynamic(i).spec_bytes() == seq![(0x80 + i) as u8],
        i < 63 ==> spec_decode_indexed(seq![(0xc0 + i) as u8]) == Ok::<(Indexed, nat), ParseError>(
            (Indexed::Static(i), 1),
        ),
        i < 63 ==> spec_decode_indexed(seq![(0x80 + i) as u8]) == Ok::<(Indexed, nat), ParseError>(
            (Indexed::Dynamic(i), 1),
        ),
{
    if i < 63 {
        lemma_indexed_roundtrip(Indexed::Static(i), Seq::empty());
        lemma_indexed_roundtrip(Indexed::Dynamic(i), Seq::empty());
        assert(Indexed::Static(i).spec_bytes() + Seq::<u8>::empty() =~= seq![(0xc0 + i) as u8]);
        assert(Indexed::Dynamic(i).spec_bytes() + Seq::<u8>::empty() =~= seq![(0x80 + i) as u8]);
    }
}

/// The prefix of a block that refers to the dynamic table is the encoded
/// insert count (the Required Insert Count modulo twice the table's entry
/// count, plus one) as an 8-bit prefixed integer, then the base's distance
/// from the Required Insert Count as a 7-bit prefixed integer: with the
/// sign bit clear, `base - required` where the base is not below it; with
/// the sign bit set, `required - base - 1` where it is. A block that refers
/// to none starts with two zero bytes.
pub proof fn lemma_header_prefix_wire(required: nat, base: nat, max_table_size: nat)
    requires
        required <= usize::MAX,
        base <= usize::MAX,
        max_table_size <= usize::MAX,
    ensures
        required == 0 ==> spec_header_prefix(required, base, max_table_size).spec_bytes() == seq![
            0u8,
            0u8,
        ],
        0 < required <= base && max_table_size / 32 > 0 ==> spec_header_prefix(
            required,
            base,
            max_table_size,
        ).spec_bytes() == spec_encode_int(8, 0, required % (2 * (max_table_size / 32)) + 1)
            + spec_encode_int(7, 0, (base - required) as nat),
        base < required && max_table_size / 32 > 0 ==> spec_header_prefix(
            required,
            base,
            max_table_size,
        ).spec_bytes() == spec_encode_int(8, 0, required % (2 * (max_table_size / 32)) + 1)
            + spec_encode_int(7, 1, (required - base - 1) as nat),
{
    if required == 0 {
        assert(spec_header_prefix(required, base, max_table_size).spec_bytes() =~= seq![0u8, 0u8]);
    }
    if required > 0 && max_table_size / 32 > 0 {
        let me = max_table_size / 32;
        assert(required % (2 * me) < 2 * me) by (nonlinear_arith)
            requires
                me > 0,
        ;
        assert(2 * me <= max_table_size) by (nonlinear_arith)
            requires
                me == max_table_size / 32,
        ;
    }
}

/// A prefix is read with the base at `delta_base` past the Required Insert
/// Count where the sign bit is clear, and `delta_base + 1` before it where
/// the sign bit is set.
pub proof fn lemma_prefix_get_base(p: HeaderPrefix, total: nat, max_table_size: nat)
    requires
        total + max_table_size / 32 <= usize::MAX,
    ensures
        spec_prefix_get(p, total, max_table_size) matches Ok((required, base)) ==> (
        if p.sign_negative {
            base + p.delta_base + 1 == required
        } else {
            base == required + p.delta_base
        }),
{
    let me = max_table_size / 32;
    let full_range = 2 * me;
    let max_value = total + me;
    if p.encoded_insert_count > 0 && p.encoded_insert_count <= full_range {
        assert((max_value / full_range) * full_range <= max_value) by (nonlinear_arith)
            requires
                full_range > 0,
        ;
    }
}

/// Reading a prefixed integer from its encoding followed by anything.
pub proof fn lemma_read_int_roundtrip(size: u8, flags: u8, v: usize, rest: Seq<u8>)
    requires
        prefix_int::valid_prefix(size, flags),
    ensures
        spec_read_int(size, spec_encode_int(size, flags, v as nat) + rest) == Ok::<
            (nat, usize, nat),
            ParseError,
        >((flags as nat, v, spec_encode_int(size, flags, v as nat).len())),
        (spec_encode_int(size, flags, v as nat) + rest)[0] as nat / prefix_int::prefix_mult(size)
            == flags,
        spec_encode_int(size, flags, v as nat).len() >= 1,
{
    lemma_int_roundtrip(size, flags, v as nat, rest);
}

/// Reading a string literal from its encoding followed by anything.
pub proof fn lemma_read_string_roundtrip(size: u8, flags: u8, v: Seq<u8>, rest: Seq<u8>)
    requires
        prefix_string::valid_string_prefix(size, flags),
        v.len() <= usize::MAX,
    ensures
        spec_read_string(size, spec_encode_string(size, flags, v) + rest) == Ok::<
            (nat, Seq<u8>, nat),
            ParseError,
        >((flags as nat, v, spec_encode_string(size, flags, v).len())),
        (spec_encode_string(size, flags, v) + rest)[0] as nat / prefix_int::prefix_mult(size) == 2
            * flags,
        spec_encode_string(size, flags, v).len() >= 1,
{
    lemma_string_roundtrip(size, flags, v, rest);
    let head = spec_encode_int(size, (flags * 2) as u8, v.len());
    assert(flags * 2 < 256) by {
        assert(prefix_int::prefix_mult(size) >= 2);
        assert(flags * 2 * prefix_int::prefix_mult(size) >= flags * 2) by (nonlinear_arith)
            requires
                prefix_int::prefix_mult(size) >= 2,
        ;
    }
    assert(prefix_int::valid_prefix(size, (flags * 2) as u8)) by {
        assert(prefix_int::prefix_mult(size) >= 2);
    }
    lemma_int_roundtrip(size, (flags * 2) as u8, v.len(), v + rest);
    assert(spec_encode_string(size, flags, v) + rest =~= head + (v + rest));
}

/// Reading back an indexed field line gives it, and its length.
pub proof fn lemma_indexed_roundtrip(x: Indexed, rest: Seq<u8>)
    ensures
        spec_decode_indexed(x.spec_bytes() + rest) == Ok::<(Indexed, nat), ParseError>(
            (x, x.spec_bytes().len()),
        ),
{
    match x {
        Indexed::Static(i) => lemma_read_int_roundtrip(6, 0b11, i, rest),
        Indexed::Dynamic(i) => lemma_read_int_roundtrip(6, 0b10, i, rest),
    }
}

/// Reading back an indexed field line with a post-base index gives it, and
/// its length.
pub proof fn lemma_indexed_post_base_roundtrip(x: IndexedWithPostBase, rest: Seq<u8>)
    ensures
        spec_decode_indexed_post_base(x.spec_bytes() + rest) == Ok::<
            (IndexedWithPostBase, nat),
            ParseError,
        >((x, x.spec_bytes().len())),
{
    lemma_read_int_roundtrip(4, 0b0001, x.0, rest);
}

/// Reading back a literal field line with a name reference gives its parts,
/// and its length.
pub proof fn lemma_literal_name_ref_roundtrip(x: LiteralWithNameRef, rest: Seq<u8>)
    ensures
        spec_decode_literal_name_ref(x.spec_bytes() + rest) == Ok::<
            (bool, usize, Seq<u8>, nat),
            ParseError,
        >((x.parts().0, x.parts().1, x.parts().2, x.spec_bytes().len())),
{
    let (st, i, v) = x.parts();
    let flags: u8 = if st {
        0b0101
    } else {
        0b0100
    };
    match x {
        LiteralWithNameRef::Static { index, value } => {
            assert(value@.len() == value.len());
        },
        LiteralWithNameRef::Dynamic { index, value } => {
            assert(value@.len() == value.len());
        },
    }
    let head = spec_encode_int(4, flags, i as nat);
    let tail = spec_encode_string(7, 0, v);
    assert(x.spec_bytes() == head + tail);
    lemma_read_int_roundtrip(4, flags, i, tail + rest);
    assert(x.spec_bytes() + rest =~= head + (tail + rest));
    assert((x.spec_bytes() + rest).skip(head.len() as int) =~= tail + rest);
    lemma_read_string_roundtrip(7, 0, v, rest);
}

/// Reading back a literal field line with a post-base name reference gives
/// its index and value, and its length.
pub proof fn lemma_literal_post_base_roundtrip(x: LiteralWithPostBaseNameRef, rest: Seq<u8>)
    ensures
        spec_decode_literal_post_base(x.spec_bytes() + rest) == Ok::<
            (usize, Seq<u8>, nat),
            ParseError,
        >((x.index, x.value@, x.spec_bytes().len())),
{
    assert(x.value@.len() == x.value.len());
    let head = spec_encode_int(3, 0, x.index as nat);
    let tail = spec_encode_string(7, 0, x.value@);
    lemma_read_int_roundtrip(3, 0, x.index, tail + rest);
    assert(x.spec_bytes() + rest =~= head + (tail + rest));
    assert((x.spec_bytes() + rest).skip(head.len() as int) =~= tail + rest);
    lemma_read_string_roundtrip(7, 0, x.value@, rest);
}

/// Reading back a literal field line with a literal name gives its name and
/// value, and its length.
pub proof fn lemma_literal_roundtrip(x: Literal, rest: Seq<u8>)
    ensures
        spec_decode_literal(x.spec_bytes() + rest) == Ok::<(Seq<u8>, Seq<u8>, nat), ParseError>(
            (x.name@, x.value@, x.spec_bytes().len()),
        ),
{
    assert(x.value@.len() == x.value.len());
    assert(x.name@.len() == x.name.len());
    let head = spec_encode_string(3, 0b0010, x.name@);
    let tail = spec_encode_string(7, 0, x.value@);
    lemma_read_string_roundtrip(3, 0b0010, x.name@, tail + rest);
    assert(x.spec_bytes() + rest =~= head + (tail + rest));
    assert((x.spec_bytes() + rest).skip(head.len() as int) =~= tail + rest);
    lemma_read_string_roundtrip(7, 0, x.value@, rest);
}

/// Reading back a block prefix gives it, and its length.
pub proof fn lemma_header_prefix_bytes_roundtrip(x: HeaderPrefix, rest: Seq<u8>)
    ensures
        spec_decode_header_prefix(x.spec_bytes() + rest) == Ok::<(HeaderPrefix, nat), ParseError>(
            (x, x.spec_bytes().len()),
        ),
{
    let sign: u8 = if x.sign_negative {
        1
    } else {
        0
    };
    let head = spec_encode_int(8, 0, x.encoded_insert_count as nat);
    let tail = spec_encode_int(7, sign, x.delta_base as nat);
    lemma_read_int_roundtrip(8, 0, x.encoded_insert_count, tail + rest);
    assert(x.spec_bytes() + rest =~= head + (tail + rest));
    assert((x.spec_bytes() + rest).skip(head.len() as int) =~= tail + rest);
    lemma_read_int_roundtrip(7, sign, x.delta_base, rest);
}

proof fn lemma_window(q: int, r: int, w: int, m: int, f: int)
    requires
        f > 0,
        0 <= r < f,
        0 <= m < f,
        q * f + r <= w * f + m,
        w * f + m - f < q * f + r,
    ensures
        (q == w && r <= m) || (q == w - 1 && r > m),
{
    assert(q <= w) by {
        if q > w {
            assert(q * f >= (w + 1) * f) by (nonlinear_arith)
                requires
                    q >= w + 1,
                    f > 0,
            ;
            assert((w + 1) * f == w * f + f) by (nonlinear_arith);
        }
    }
    assert(q >= w - 1) by {
        if q < w - 1 {
            assert(q * f <= (w - 2) * f) by (nonlinear_arith)
                requires
                    q <= w - 2,
                    f > 0,
            ;
            assert((w - 2) * f == w * f - 2 * f) by (nonlinear_arith);
        }
    }
    if q == w - 1 {
        assert((w - 1) * f == w * f - f) by (nonlinear_arith);
    }
}

/// A decoder that has seen `total` insertions reads back, from the prefix
/// written for Required Insert Count `required` and base `base`, that
/// count and that base, where `required` lies in the window of twice the
/// table's entry count that ends that many entries past `total`; from the
/// prefix of a block that refers to no dynamic entry it reads a count and
/// a base of 0.
pub proof fn lemma_header_prefix_roundtrip(required: nat, base: nat, total: nat, max_table_size: nat)
    requires
        max_table_size / 32 > 0,
        max_table_size <= usize::MAX,
        required <= usize::MAX,
        base <= usize::MAX,
        required == 0 || (total + max_table_size / 32 < required + 2 * (max_table_size / 32)
            && required <= total + max_table_size / 32),
    ensures
        spec_prefix_get(spec_header_prefix(required, base, max_table_size), total, max_table_size)
            == Ok::<(usize, usize), ParseError>(
            if required == 0 {
                (0usize, 0usize)
            } else {
                (required as usize, base as usize)
            },
        ),
{
    if required > 0 {
        let me = max_table_size / 32;
        let f = 2 * me;
        let r = required % f;
        let q = required / f;
        let mv = total + me;
        let w = mv / f;
        let m = mv % f;
        vstd::arithmetic::div_mod::lemma_fundamental_div_mod(required as int, f as int);
        vstd::arithmetic::div_mod::lemma_fundamental_div_mod(mv as int, f as int);
        assert(f * q == q * f) by (nonlinear_arith);
        assert(f * w == w * f) by (nonlinear_arith);
        lemma_window(q as int, r as int, w as int, m as int, f as int);
        let p = spec_header_prefix(required, base, max_table_size);
        assert(p.encoded_insert_count == r + 1);
        if r <= m {
            assert(spec_decode_required(r + 1, total, max_table_size) == Ok::<nat, ParseError>(
                required,
            ));
        } else {
            assert((w - 1) * f == w * f - f) by (nonlinear_arith);
            assert(spec_decode_required(r + 1, total, max_table_size) == Ok::<nat, ParseError>(
                required,
            ));
        }
    }
}

} // verus!
