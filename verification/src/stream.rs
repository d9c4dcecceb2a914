//! The instructions of the encoder stream (RFC 9204, section 4.3).
use vstd::prelude::*;
use crate::bloc::{
    lemma_read_int_roundtrip, lemma_read_string_roundtrip, read_int, read_string, rest_of,
    spec_read_int, spec_read_string, ParseError,
};
use crate::prefix_int::{self, IntError, spec_encode_int};
use crate::prefix_string::{self, StringError, spec_encode_string};

verus! {

/// The errors that only say that the input ends inside the instruction.
pub open spec fn incomplete(e: ParseError) -> bool {
    ||| e == ParseError::Integer(IntError::UnexpectedEnd)
    ||| e == ParseError::String(StringError::UnexpectedEnd)
    ||| e == ParseError::String(StringError::Integer(IntError::UnexpectedEnd))
}

/// Turns an instruction read from a buffer that ended too soon into `None`.
fn complete<T>(r: Result<(T, usize), ParseError>) -> (o: Result<Option<(T, usize)>, ParseError>)
    ensures
        match r {
            Ok(x) => o == Ok::<Option<(T, usize)>, ParseError>(Some(x)),
            Err(e) => if incomplete(e) {
                o == Ok::<Option<(T, usize)>, ParseError>(None)
            } else {
                o == Err::<Option<(T, usize)>, ParseError>(e)
            },
        },
{
    match r {
        Ok(x) => Ok(Some(x)),
        Err(e) => {
            let end = match e {
                ParseError::Integer(IntError::UnexpectedEnd) => true,
                ParseError::String(StringError::UnexpectedEnd) => true,
                ParseError::String(StringError::Integer(IntError::UnexpectedEnd)) => true,
                _ => false,
            };
            if end {
                Ok(None)
            } else {
                Err(e)
            }
        },
    }
}

/// Inserts an entry whose name is a static entry, or a dynamic entry by
/// its index relative to the number of inserted fields.
#[derive(Debug, PartialEq, Eq)]
pub enum InsertWithNameRef {
    Static { index: usize, value: Vec<u8> },
    Dynamic { index: usize, value: Vec<u8> },
}

impl InsertWithNameRef {
    /// An insertion naming static entry `index`.
    pub fn new_static(index: usize, value: &[u8]) -> (r: InsertWithNameRef)
        ensures
            r matches InsertWithNameRef::Static { index: i, value: v } && i == index && v@
                == value@,
    {
        InsertWithNameRef::Static { index, value: vstd::slice::slice_to_vec(value) }
    }

    /// An insertion naming the dynamic entry at relative index `index`.
    pub fn new_dynamic(index: usize, value: &[u8]) -> (r: InsertWithNameRef)
        ensures
            r matches InsertWithNameRef::Dynamic { index: i, value: v } && i == index && v@
                == value@,
    {
        InsertWithNameRef::Dynamic { index, value: vstd::slice::slice_to_vec(value) }
    }

    /// `1 T index(6+)` with `T` set for the static table, then the value as
    /// a string with a 7-bit length prefix.
    pub open spec fn spec_bytes(&self) -> Seq<u8> {
        match *self {
            InsertWithNameRef::Static { index, value } => spec_encode_int(6, 0b11, index as nat)
                + spec_encode_string(7, 0, value@),
            InsertWithNameRef::Dynamic { index, value } => spec_encode_int(6, 0b10, index as nat)
                + spec_encode_string(7, 0, value@),
        }
    }

    /// Writes this instruction.
    pub fn encode(&self, buf: &mut Vec<u8>)
        requires
            old(buf)@.len() + self.spec_bytes().len() <= isize::MAX,
        ensures
            final(buf)@ == old(buf)@ + self.spec_bytes(),
    {
        match self {
            InsertWithNameRef::Static { index, value } => {
                prefix_int::encode(6, 0b11, *index, buf);
                prefix_string::encode(7, 0, value.as_slice(), buf);
            },
            InsertWithNameRef::Dynamic { index, value } => {
                prefix_int::encode(6, 0b10, *index, buf);
                prefix_string::encode(7, 0, value.as_slice(), buf);
            },
        }
        assert(final(buf)@ =~= old(buf)@ + self.spec_bytes());
    }
    /// Whether the name is static, the index, and the value.
    pub open spec fn parts(&self) -> (bool, usize, Seq<u8>) {
        match *self {
            InsertWithNameRef::Static { index, value } => (true, index, value@),
            InsertWithNameRef::Dynamic { index, value } => (false, index, value@),
        }
    }

    fn decode_complete(buf: &[u8]) -> (r: Result<(InsertWithNameRef, usize), ParseError>)
        ensures
            match spec_decode_insert_name_ref(buf@) {
                Ok((st, i, v, n)) => r matches Ok((x, rn)) && x.parts() == (st, i, v) && rn == n,
                Err(e) => r matches Err(re) && re == e,
            },
    {
        if buf.len() == 0 {
            return Err(ParseError::Integer(IntError::UnexpectedEnd));
        }
        if buf[0] < 0b1000_0000 {
            return Err(ParseError::InvalidPrefix(buf[0]));
        }
        let (f, index, n) = match read_int(6, buf) {
            Ok(x) => x,
            Err(e) => {
                return Err(e);
            },
        };
        let (_vf, value, m) = match read_string(7, rest_of(buf, n)) {
            Ok(x) => x,
            Err(e) => {
                return Err(e);
            },
        };
        if f % 2 == 1 {
            Ok((InsertWithNameRef::Static { index, value }, n + m))
        } else {
            Ok((InsertWithNameRef::Dynamic { index, value }, n + m))
        }
    }

    /// Reads this instruction at the start of `buf`, and the number of
    /// bytes it takes; `None` where `buf` ends inside it.
    pub fn decode(buf: &[u8]) -> (r: Result<Option<(InsertWithNameRef, usize)>, ParseError>)
        ensures
            match spec_decode_insert_name_ref(buf@) {
                Ok((st, i, v, n)) => r matches Ok(Some((x, rn))) && x.parts() == (st, i, v) && rn
                    == n,
                Err(e) => if incomplete(e) {
                    r matches Ok(None)
                } else {
                    r matches Err(re) && re == e
                },
            },
    {
        complete(Self::decode_complete(buf))
    }
}

/// Reads an insertion with a name reference: `1 T index(6+)` then the
/// value; whether the name is static, the index, the value and the length.
pub open spec fn spec_decode_insert_name_ref(s: Seq<u8>) -> Result<(bool, usize, Seq<u8>, nat), ParseError> {
    if s.len() == 0 {
        Err(ParseError::Integer(IntError::UnexpectedEnd))
    } else if s[0] < 0b1000_0000 {
        Err(ParseError::InvalidPrefix(s[0]))
    } else {
        match spec_read_int(6, s) {
            Ok((f, i, n)) => match spec_read_string(7, s.skip(n as int)) {
                Ok((_vf, v, m)) => Ok((f % 2 == 1, i, v, n + m)),
                Err(e) => Err(e),
            },
            Err(e) => Err(e),
        }
    }
}

/// Inserts an entry with a literal name.
#[derive(Debug, PartialEq, Eq)]
pub struct InsertWithoutNameRef {
    pub name: Vec<u8>,
    pub value: Vec<u8>,
}

impl InsertWithoutNameRef {
    /// An insertion of `name` and `value`.
    pub fn new(name: &[u8], value: &[u8]) -> (r: InsertWithoutNameRef)
        ensures
            r.name@ == name@,
            r.value@ == value@,
    {
        InsertWithoutNameRef {
            name: vstd::slice::slice_to_vec(name),
            value: vstd::slice::slice_to_vec(value),
        }
    }

    /// `01 H name-length(5+)`, the name, then the value as a string with a
    /// 7-bit length prefix.
    pub open spec fn spec_bytes(&self) -> Seq<u8> {
        spec_encode_string(5, 0b01, self.name@) + spec_encode_string(7, 0, self.value@)
    }

    /// Writes this instruction.
    pub fn encode(&self, buf: &mut Vec<u8>)
        requires
            old(buf)@.len() + self.spec_bytes().len() <= isize::MAX,
        ensures
            final(buf)@ == old(buf)@ + self.spec_bytes(),
    {
        prefix_string::encode(5, 0b01, self.name.as_slice(), buf);
        prefix_string::encode(7, 0, self.value.as_slice(), buf);
        assert(final(buf)@ =~= old(buf)@ + self.spec_bytes());
    }
    fn decode_complete(buf: &[u8]) -> (r: Result<(InsertWithoutNameRef, usize), ParseError>)
        ensures
            match spec_decode_insert_literal(buf@) {
                Ok((nm, v, n)) => r matches Ok((x, rn)) && x.name@ == nm && x.value@ == v && rn
                    == n,
                Err(e) => r matches Err(re) && re == e,
            },
    {
        if buf.len() == 0 {
            return Err(ParseError::Integer(IntError::UnexpectedEnd));
        }
        if buf[0] / 64 != 0b01 {
            return Err(ParseError::InvalidPrefix(buf[0]));
        }
        let (_f, name, n) = match read_string(5, buf) {
            Ok(x) => x,
            Err(e) => {
                return Err(e);
            },
        };
        let (_vf, value, m) = match read_string(7, rest_of(buf, n)) {
            Ok(x) => x,
            Err(e) => {
                return Err(e);
            },
        };
        Ok((InsertWithoutNameRef { name, value }, n + m))
    }

    /// Reads this instruction at the start of `buf`, and the number of
    /// bytes it takes; `None` where `buf` ends inside it.
    pub fn decode(buf: &[u8]) -> (r: Result<Option<(InsertWithoutNameRef, usize)>, ParseError>)
        ensures
            match spec_decode_insert_literal(buf@) {
                Ok((nm, v, n)) => r matches Ok(Some((x, rn))) && x.name@ == nm && x.value@ == v
                    && rn == n,
                Err(e) => if incomplete(e) {
                    r matches Ok(None)
                } else {
                    r matches Err(re) && re == e
                },
            },
    {
        complete(Self::decode_complete(buf))
    }
}

/// Reads an insertion with a literal name: `01 H name-length(5+)`, the
/// name, then the value; the name, the value and the length.
pub open spec fn spec_decode_insert_literal(s: Seq<u8>) -> Result<(Seq<u8>, Seq<u8>, nat), ParseError> {
    if s.len() == 0 {
        Err(ParseError::Integer(IntError::UnexpectedEnd))
    } else if s[0] / 64 != 0b01 {
        Err(ParseError::InvalidPrefix(s[0]))
    } else {
        match spec_read_string(5, s) {
            Ok((f, nm, n)) => match spec_read_string(7, s.skip(n as int)) {
                Ok((_vf, v, m)) => Ok((nm, v, n + m)),
                Err(e) => Err(e),
            },
            Err(e) => Err(e),
        }
    }
}

/// Duplicates the entry at the given index relative to the number of
/// inserted fields.
#[derive(Debug, Clone, Copy, PartialEq, Eq, Structural)]
pub struct Duplicate(pub usize);

impl Duplicate {
    /// `000 index(5+)`.
    pub open spec fn spec_bytes(&self) -> Seq<u8> {
        spec_encode_int(5, 0b000, self.0 as nat)
    }

    /// Writes this instruction.
    pub fn encode(&self, buf: &mut Vec<u8>)
        requires
            old(buf)@.len() + self.spec_bytes().len() <= isize::MAX,
        ensures
            final(buf)@ == old(buf)@ + self.spec_bytes(),
    {
        prefix_int::encode(5, 0b000, self.0, buf)
    }
    /// Reads this instruction at the start of `buf`, and the number of
    /// bytes it takes; `None` where `buf` ends inside it.
    pub fn decode(buf: &[u8]) -> (r: Result<Option<(Duplicate, usize)>, ParseError>)
        ensures
            match spec_decode_duplicate(buf@) {
                Ok((x, n)) => r == Ok::<Option<(Duplicate, usize)>, ParseError>(Some((x, n as usize))),
                Err(e) => if incomplete(e) {
                    r == Ok::<Option<(Duplicate, usize)>, ParseError>(None)
                } else {
                    r == Err::<Option<(Duplicate, usize)>, ParseError>(e)
                },
            },
    {
        if buf.len() == 0 {
            return Ok(None);
        }
        if buf[0] / 32 != 0 {
            return Err(ParseError::InvalidPrefix(buf[0]));
        }
        match read_int(5, buf) {
            Ok((_f, v, n)) => Ok(Some((Duplicate(v), n))),
            Err(e) => complete::<Duplicate>(Err(e)),
        }
    }
}

/// Reads a duplication: `000 index(5+)`.
pub open spec fn spec_decode_duplicate(s: Seq<u8>) -> Result<(Duplicate, nat), ParseError> {
    if s.len() == 0 {
        Err(ParseError::Integer(IntError::UnexpectedEnd))
    } else if s[0] / 32 != 0 {
        Err(ParseError::InvalidPrefix(s[0]))
    } else {
        match spec_read_int(5, s) {
            Ok((f, v, n)) => Ok((Duplicate(v), n)),
            Err(e) => Err(e),
        }
    }
}

/// Sets the capacity of the dynamic table.
#[derive(Debug, Clone, Copy, PartialEq, Eq, Structural)]
pub struct DynamicTableSizeUpdate(pub usize);

impl DynamicTableSizeUpdate {
    /// `001 capacity(5+)`.
    pub open spec fn spec_bytes(&self) -> Seq<u8> {
        spec_encode_int(5, 0b001, self.0 as nat)
    }

    /// Writes this instruction.
    pub fn encode(&self, buf: &mut Vec<u8>)
        requires
            old(buf)@.len() + self.spec_bytes().len() <= isize::MAX,
        ensures
            final(buf)@ == old(buf)@ + self.spec_bytes(),
    {
        prefix_int::encode(5, 0b001, self.0, buf)
    }
    /// Reads this instruction at the start of `buf`, and the number of
    /// bytes it takes; `None` where `buf` ends inside it.
    pub fn decode(buf: &[u8]) -> (r: Result<Option<(DynamicTableSizeUpdate, usize)>, ParseError>)
        ensures
            match spec_decode_size_update(buf@) {
                Ok((x, n)) => r == Ok::<Option<(DynamicTableSizeUpdate, usize)>, ParseError>(Some((x, n as usize))),
                Err(e) => if incomplete(e) {
                    r == Ok::<Option<(DynamicTableSizeUpdate, usize)>, ParseError>(None)
                } else {
                    r == Err::<Option<(DynamicTableSizeUpdate, usize)>, ParseError>(e)
                },
            },
    {
        if buf.len() == 0 {
            return Ok(None);
        }
        if buf[0] / 32 != 1 {
            return Err(ParseError::InvalidPrefix(buf[0]));
        }
        match read_int(5, buf) {
            Ok((_f, v, n)) => Ok(Some((DynamicTableSizeUpdate(v), n))),
            Err(e) => complete::<DynamicTableSizeUpdate>(Err(e)),
        }
    }
}

/// Reads a capacity update: `001 capacity(5+)`.
pub open spec fn spec_decode_size_update(s: Seq<u8>) -> Result<(DynamicTableSizeUpdate, nat), ParseError> {
    if s.len() == 0 {
        Err(ParseError::Integer(IntError::UnexpectedEnd))
    } else if s[0] / 32 != 1 {
        Err(ParseError::InvalidPrefix(s[0]))
    } else {
        match spec_read_int(5, s) {
            Ok((f, v, n)) => Ok((DynamicTableSizeUpdate(v), n)),
            Err(e) => Err(e),
        }
    }
}

/// Reading back an insertion with a name reference gives its parts, and
/// its length.
pub proof fn lemma_insert_name_ref_roundtrip(x: InsertWithNameRef, rest: Seq<u8>)
    ensures
        spec_decode_insert_name_ref(x.spec_bytes() + rest) == Ok::<
            (bool, usize, Seq<u8>, nat),
            ParseError,
        >((x.parts().0, x.parts().1, x.parts().2, x.spec_bytes().len())),
{
    let (st, i, v) = x.parts();
    let flags: u8 = if st {
        0b11
    } else {
        0b10
    };
    match x {
        InsertWithNameRef::Static { index, value } => {
            assert(value@.len() == value.len());
        },
        InsertWithNameRef::Dynamic { index, value } => {
            assert(value@.len() == value.len());
        },
    }
    let head = spec_encode_int(6, flags, i as nat);
    let tail = spec_encode_string(7, 0, v);
    assert(x.spec_bytes() == head + tail);
    lemma_read_int_roundtrip(6, flags, i, tail + rest);
    assert(x.spec_bytes() + rest =~= head + (tail + rest));
    assert((x.spec_bytes() + rest).skip(head.len() as int) =~= tail + rest);
    lemma_read_string_roundtrip(7, 0, v, rest);
}

/// Reading back an insertion with a literal name gives its name and value,
/// and its length.
pub proof fn lemma_insert_literal_roundtrip(x: InsertWithoutNameRef, rest: Seq<u8>)
    ensures
        spec_decode_insert_literal(x.spec_bytes() + rest) == Ok::<
            (Seq<u8>, Seq<u8>, nat),
            ParseError,
        >((x.name@, x.value@, x.spec_bytes().len())),
{
    assert(x.value@.len() == x.value.len());
    assert(x.name@.len() == x.name.len());
    let head = spec_encode_string(5, 0b01, x.name@);
    let tail = spec_encode_string(7, 0, x.value@);
    lemma_read_string_roundtrip(5, 0b01, x.name@, tail + rest);
    assert(x.spec_bytes() + rest =~= head + (tail + rest));
    assert((x.spec_bytes() + rest).skip(head.len() as int) =~= tail + rest);
    lemma_read_string_roundtrip(7, 0, x.value@, rest);
}

/// Reading back a duplication gives it, and its length.
pub proof fn lemma_duplicate_roundtrip(x: Duplicate, rest: Seq<u8>)
    ensures
        spec_decode_duplicate(x.spec_bytes() + rest) == Ok::<(Duplicate, nat), ParseError>(
            (x, x.spec_bytes().len()),
        ),
{
    lemma_read_int_roundtrip(5, 0b000, x.0, rest);
}

/// Reading back a capacity update gives it, and its length.
pub proof fn lemma_size_update_roundtrip(x: DynamicTableSizeUpdate, rest: Seq<u8>)
    ensures
        spec_decode_size_update(x.spec_bytes() + rest) == Ok::<
            (DynamicTableSizeUpdate, nat),
            ParseError,
        >((x, x.spec_bytes().len())),
{
    lemma_read_int_roundtrip(5, 0b001, x.0, rest);
}

} // verus!
