use qpack::bloc::{
    HeaderPrefix, Indexed, IndexedWithPostBase, Literal, LiteralWithNameRef,
    LiteralWithPostBaseNameRef, ParseError,
};
use qpack::prefix_int::{self, IntError};
use qpack::prefix_string::{self, StringError};
use qpack::stream::{Duplicate, DynamicTableSizeUpdate, InsertWithNameRef, InsertWithoutNameRef};

fn int_bytes(size: u8, flags: u8, value: usize) -> Vec<u8> {
    let mut buf = Vec::new();
    prefix_int::encode(size, flags, value, &mut buf);
    buf
}

#[test]
fn prefix_int_rfc7541_examples() {
    // RFC 7541, appendix C.1.
    assert_eq!(int_bytes(5, 0, 10), vec![0b0000_1010]);
    assert_eq!(int_bytes(5, 0, 1337), vec![0b0001_1111, 0b1001_1010, 0b0000_1010]);
    assert_eq!(int_bytes(8, 0, 42), vec![0b0010_1010]);
}

#[test]
fn prefix_int_flags_sit_above_the_prefix() {
    assert_eq!(int_bytes(6, 0b11, 17), vec![0b1101_0001]);
    assert_eq!(int_bytes(4, 0b0001, 15), vec![0b0001_1111, 0]);
    assert_eq!(int_bytes(1, 0b111_1111, 0), vec![0b1111_1110]);
}

#[test]
fn prefix_int_appends_to_what_is_there() {
    let mut buf = vec![0xaa, 0xbb];
    prefix_int::encode(5, 0, 1337, &mut buf);
    assert_eq!(buf, vec![0xaa, 0xbb, 0b0001_1111, 0b1001_1010, 0b0000_1010]);
}

#[test]
fn prefix_int_roundtrip_values() {
    for size in 1..=8u8 {
        for &v in &[0usize, 1, 2, 126, 127, 128, 254, 255, 256, 1337, 65535, 1 << 40, usize::MAX] {
            let flags = if size == 8 { 0 } else { 1 };
            let mut buf = int_bytes(size, flags, v);
            let len = buf.len();
            buf.push(0xff);
            assert_eq!(prefix_int::decode(size, &buf), Ok((flags, v, len)));
        }
    }
}

#[test]
fn prefix_int_decode_errors() {
    assert_eq!(prefix_int::decode(5, &[]), Err(IntError::UnexpectedEnd));
    assert_eq!(prefix_int::decode(5, &[0b0001_1111, 0x80]), Err(IntError::UnexpectedEnd));
    let mut too_big = vec![0xff];
    too_big.extend_from_slice(&[0xff; 10]);
    too_big.push(0x01);
    assert_eq!(prefix_int::decode(8, &too_big), Err(IntError::Overflow));
    // A value whose continuation is longer than needed still reads back.
    assert_eq!(prefix_int::decode(5, &[0b0001_1111, 0x80, 0x80, 0x00]), Ok((0, 31, 4)));
}

#[test]
fn prefix_string_roundtrip_and_errors() {
    let mut buf = Vec::new();
    prefix_string::encode(7, 0, b"custom-key", &mut buf);
    assert_eq!(buf[0], 10);
    assert_eq!(&buf[1..], b"custom-key");
    assert_eq!(prefix_string::decode(7, &buf), Ok((0, b"custom-key".to_vec(), 11)));
    assert_eq!(prefix_string::decode(7, &buf[..5]), Err(StringError::UnexpectedEnd));
    assert_eq!(prefix_string::decode(7, &[0x80 | 3, b'a', b'b', b'c']), Err(StringError::HuffmanCoded));
    assert_eq!(
        prefix_string::decode(7, &[0x7f]),
        Err(StringError::Integer(IntError::UnexpectedEnd))
    );
}

#[test]
fn field_lines_roundtrip() {
    let mut buf = Vec::new();
    Indexed::Static(17).encode(&mut buf);
    assert_eq!(buf, vec![0xd1]);
    assert_eq!(Indexed::decode(&buf), Ok((Indexed::Static(17), 1)));

    let mut buf = Vec::new();
    Indexed::Dynamic(70).encode(&mut buf);
    assert_eq!(Indexed::decode(&buf), Ok((Indexed::Dynamic(70), 2)));

    let mut buf = Vec::new();
    IndexedWithPostBase(3).encode(&mut buf);
    assert_eq!(buf, vec![0x13]);
    assert_eq!(IndexedWithPostBase::decode(&buf), Ok((IndexedWithPostBase(3), 1)));

    let mut buf = Vec::new();
    let x = LiteralWithNameRef::new_static(12, b"/index.html");
    x.encode(&mut buf);
    assert_eq!(buf[0], 0b0101_1100);
    assert_eq!(LiteralWithNameRef::decode(&buf), Ok((x, buf.len())));

    let mut buf = Vec::new();
    let x = LiteralWithNameRef::new_dynamic(2, b"v");
    x.encode(&mut buf);
    assert_eq!(LiteralWithNameRef::decode(&buf), Ok((x, buf.len())));

    let mut buf = Vec::new();
    let x = LiteralWithPostBaseNameRef::new(9, b"value");
    x.encode(&mut buf);
    assert_eq!(LiteralWithPostBaseNameRef::decode(&buf), Ok((x, buf.len())));

    let mut buf = Vec::new();
    let x = Literal::new(b"name", b"value");
    x.encode(&mut buf);
    assert_eq!(buf[0], 0b0010_0100);
    assert_eq!(Literal::decode(&buf), Ok((x, buf.len())));
}

#[test]
fn field_lines_refuse_other_prefixes() {
    assert_eq!(Indexed::decode(&[0x51]), Err(ParseError::InvalidPrefix(0x51)));
    assert_eq!(IndexedWithPostBase::decode(&[0xd1]), Err(ParseError::InvalidPrefix(0xd1)));
    assert_eq!(LiteralWithNameRef::decode(&[0x13]), Err(ParseError::InvalidPrefix(0x13)));
    assert_eq!(LiteralWithPostBaseNameRef::decode(&[0x13]), Err(ParseError::InvalidPrefix(0x13)));
    assert_eq!(Literal::decode(&[0x51]), Err(ParseError::InvalidPrefix(0x51)));
    assert_eq!(Indexed::decode(&[]), Err(ParseError::Integer(IntError::UnexpectedEnd)));
    assert_eq!(
        Literal::decode(&[0x24, b'n']),
        Err(ParseError::String(StringError::UnexpectedEnd))
    );
}

#[test]
fn instructions_roundtrip() {
    let mut buf = Vec::new();
    let x = InsertWithNameRef::new_static(0, b"example.com");
    x.encode(&mut buf);
    assert_eq!(buf[0], 0xc0);
    assert_eq!(InsertWithNameRef::decode(&buf), Ok(Some((x, buf.len()))));
    assert_eq!(InsertWithNameRef::decode(&buf[..3]), Ok(None));

    let mut buf = Vec::new();
    let x = InsertWithNameRef::new_dynamic(1, b"v");
    x.encode(&mut buf);
    assert_eq!(InsertWithNameRef::decode(&buf), Ok(Some((x, buf.len()))));

    let mut buf = Vec::new();
    let x = InsertWithoutNameRef::new(b"custom-key", b"custom-value");
    x.encode(&mut buf);
    assert_eq!(buf[0], 0x4a);
    assert_eq!(InsertWithoutNameRef::decode(&buf), Ok(Some((x, buf.len()))));
    assert_eq!(InsertWithoutNameRef::decode(&buf[..4]), Ok(None));

    let mut buf = Vec::new();
    Duplicate(2).encode(&mut buf);
    assert_eq!(buf, vec![0x02]);
    assert_eq!(Duplicate::decode(&buf), Ok(Some((Duplicate(2), 1))));

    let mut buf = Vec::new();
    DynamicTableSizeUpdate(220).encode(&mut buf);
    assert_eq!(buf, vec![0x3f, 0xbd, 0x01]);
    assert_eq!(DynamicTableSizeUpdate::decode(&buf), Ok(Some((DynamicTableSizeUpdate(220), 3))));
    assert_eq!(DynamicTableSizeUpdate::decode(&buf[..2]), Ok(None));
    assert_eq!(Duplicate::decode(&[0x3f]), Err(ParseError::InvalidPrefix(0x3f)));
    assert_eq!(InsertWithNameRef::decode(&[0x02]), Err(ParseError::InvalidPrefix(0x02)));
}

#[test]
fn header_prefix_encoding() {
    let p = HeaderPrefix::new(7, 4, 7, 4096);
    assert_eq!(p, HeaderPrefix { encoded_insert_count: 8, sign_negative: true, delta_base: 2 });
    let mut buf = Vec::new();
    p.encode(&mut buf);
    assert_eq!(buf, vec![0x08, 0x82]);
    assert_eq!(HeaderPrefix::decode(&buf), Ok((p, 2)));
    assert_eq!(p.get(7, 4096), Ok((7, 4)));

    let p = HeaderPrefix::new(0, 9, 9, 4096);
    assert_eq!(p, HeaderPrefix { encoded_insert_count: 0, sign_negative: false, delta_base: 0 });
    assert_eq!(p.get(9, 4096), Ok((0, 0)));

    let p = HeaderPrefix::new(3, 5, 5, 4096);
    assert_eq!(p.get(5, 4096), Ok((3, 5)));

    // The encoded count wraps around twice the entry count of the table.
    let p = HeaderPrefix::new(300, 300, 300, 4096);
    assert_eq!(p.encoded_insert_count, 300 % 256 + 1);
    assert_eq!(p.get(300, 4096), Ok((300, 300)));
    assert_eq!(p.get(250, 4096), Ok((300, 300)));
}

#[test]
fn header_prefix_get_errors() {
    let too_big = HeaderPrefix { encoded_insert_count: 300, sign_negative: false, delta_base: 0 };
    assert_eq!(too_big.get(0, 4096), Err(ParseError::InvalidInsertCount(300)));
    let negative = HeaderPrefix { encoded_insert_count: 2, sign_negative: true, delta_base: 5 };
    assert_eq!(negative.get(1, 4096), Err(ParseError::InvalidBase));
    let zero = HeaderPrefix { encoded_insert_count: 1, sign_negative: false, delta_base: 0 };
    assert_eq!(zero.get(0, 4096), Err(ParseError::InvalidInsertCount(1)));
    let no_table = HeaderPrefix { encoded_insert_count: 1, sign_negative: false, delta_base: 0 };
    assert_eq!(no_table.get(0, 0), Err(ParseError::InvalidInsertCount(1)));
}
