use qpack::bloc::{HeaderPrefix, Indexed, IndexedWithPostBase, Literal, LiteralWithNameRef};
use qpack::dynamic::{DynamicTable, DynamicTableError};
use qpack::encoder::{encode, encode_field_insert, encode_field_literal, Error};
use qpack::field::HeaderField;
use qpack::prefix_string::StringError;
use qpack::stream::{Duplicate, InsertWithNameRef, InsertWithoutNameRef};

#[test]
fn errors_convert() {
    assert_eq!(
        Error::from(DynamicTableError::MaxTableSizeReached),
        Error::Insertion(DynamicTableError::MaxTableSizeReached)
    );
    assert_eq!(
        Error::from(StringError::HuffmanCoded),
        Error::InvalidString(StringError::HuffmanCoded)
    );
}

#[test]
fn encode_empty_block() {
    let mut enc = DynamicTable::new().encoder();
    let mut bloc = Vec::new();
    let mut encoder = Vec::new();
    assert_eq!(encode(&mut enc, &mut bloc, &mut encoder, &[]), Ok(0));
    assert_eq!(bloc, vec![0, 0]);
    assert!(encoder.is_empty());
}

#[test]
fn encode_static_only_block() {
    let mut enc = DynamicTable::new().encoder();
    let mut bloc = vec![0xee];
    let mut encoder = Vec::new();
    let fields = [HeaderField::new(":method", "GET"), HeaderField::new(":path", "/")];
    assert_eq!(encode(&mut enc, &mut bloc, &mut encoder, &fields), Ok(0));
    assert_eq!(bloc, vec![0xee, 0, 0, 0xd1, 0xc1]);
    assert!(encoder.is_empty());
    assert_eq!(enc.total_inserted(), 0);
}

#[test]
fn encode_block_reads_back() {
    // The fields, read back from what was written, are the fields encoded.
    let mut table = DynamicTable::new();
    table.put_field(HeaderField::new("foo1", "bar1")).unwrap();
    let mut enc = table.encoder();
    let mut bloc = Vec::new();
    let mut encoder = Vec::new();
    let fields = [
        HeaderField::new("foo1", "bar1"),
        HeaderField::new("foo1", "other"),
        HeaderField::new(":status", "200"),
        HeaderField::new("content-type", "text/x-custom"),
    ];
    assert_eq!(encode(&mut enc, &mut bloc, &mut encoder, &fields), Ok(3));

    let mut pos = 0;
    let (i, n) = InsertWithNameRef::decode(&encoder[pos..]).unwrap().unwrap();
    assert_eq!(i, InsertWithNameRef::new_dynamic(0, b"other"));
    pos += n;
    let (i, n) = InsertWithNameRef::decode(&encoder[pos..]).unwrap().unwrap();
    assert_eq!(i, InsertWithNameRef::new_static(44, b"text/x-custom"));
    pos += n;
    assert_eq!(pos, encoder.len());

    let (p, mut pos) = HeaderPrefix::decode(&bloc).unwrap();
    assert_eq!(p.get(3, 4096), Ok((3, 1)));
    let (x, n) = Indexed::decode(&bloc[pos..]).unwrap();
    assert_eq!(x, Indexed::Dynamic(0));
    pos += n;
    let (x, n) = IndexedWithPostBase::decode(&bloc[pos..]).unwrap();
    assert_eq!(x, IndexedWithPostBase(0));
    pos += n;
    let (x, n) = Indexed::decode(&bloc[pos..]).unwrap();
    assert_eq!(x, Indexed::Static(25));
    pos += n;
    let (x, n) = IndexedWithPostBase::decode(&bloc[pos..]).unwrap();
    assert_eq!(x, IndexedWithPostBase(1));
    pos += n;
    assert_eq!(pos, bloc.len());
}

#[test]
fn encode_same_new_field_twice() {
    // The second occurrence is found above the base and inserted again as
    // a duplicate; its field line is an indexed line that carries the
    // duplicate's post-base index.
    let mut enc = DynamicTable::new().encoder();
    let mut bloc = Vec::new();
    let mut encoder = Vec::new();
    let fields = [HeaderField::new("foo", "bar"), HeaderField::new("foo", "bar")];
    assert_eq!(encode(&mut enc, &mut bloc, &mut encoder, &fields), Ok(2));

    let (i, n) = InsertWithoutNameRef::decode(&encoder).unwrap().unwrap();
    assert_eq!(i, InsertWithoutNameRef::new(b"foo", b"bar"));
    assert_eq!(Duplicate::decode(&encoder[n..]), Ok(Some((Duplicate(0), 1))));

    let (_p, pos) = HeaderPrefix::decode(&bloc).unwrap();
    let (x, n) = IndexedWithPostBase::decode(&bloc[pos..]).unwrap();
    assert_eq!(x, IndexedWithPostBase(0));
    assert_eq!(Indexed::decode(&bloc[pos + n..]), Ok((Indexed::Dynamic(1), 1)));
}

#[test]
fn literal_field_lines() {
    let mut table = DynamicTable::new();
    table.put_field(HeaderField::new("foo", "bar")).unwrap();
    let enc = table.encoder();

    let mut bloc = Vec::new();
    assert_eq!(encode_field_literal(&enc, &mut bloc, &HeaderField::new("location", "/x")), Ok(None));
    assert_eq!(
        LiteralWithNameRef::decode(&bloc),
        Ok((LiteralWithNameRef::new_static(12, b"/x"), bloc.len()))
    );

    let mut bloc = Vec::new();
    assert_eq!(encode_field_literal(&enc, &mut bloc, &HeaderField::new("foo", "baz")), Ok(Some(1)));
    assert_eq!(
        LiteralWithNameRef::decode(&bloc),
        Ok((LiteralWithNameRef::new_dynamic(0, b"baz"), bloc.len()))
    );

    let mut bloc = Vec::new();
    assert_eq!(encode_field_literal(&enc, &mut bloc, &HeaderField::new("new", "one")), Ok(None));
    assert_eq!(Literal::decode(&bloc), Ok((Literal::new(b"new", b"one"), bloc.len())));
}

#[test]
fn insert_new_field() {
    let mut enc = DynamicTable::new().encoder();
    let mut bloc = Vec::new();
    let mut encoder = Vec::new();
    let field = HeaderField::new("foo", "bar");
    assert_eq!(encode_field_insert(&mut enc, &mut bloc, &mut encoder, &field), Ok(Some(1)));
    assert_eq!(enc.total_inserted(), 1);
    assert_eq!(enc.base(), 0);
    assert_eq!(
        InsertWithoutNameRef::decode(&encoder),
        Ok(Some((InsertWithoutNameRef::new(b"foo", b"bar"), encoder.len())))
    );
    assert_eq!(IndexedWithPostBase::decode(&bloc), Ok((IndexedWithPostBase(0), bloc.len())));
}

#[test]
fn insert_static_name_field() {
    let mut enc = DynamicTable::new().encoder();
    let mut bloc = Vec::new();
    let mut encoder = Vec::new();
    let field = HeaderField::new("content-type", "text/x-custom");
    assert_eq!(encode_field_insert(&mut enc, &mut bloc, &mut encoder, &field), Ok(Some(1)));
    assert_eq!(
        InsertWithNameRef::decode(&encoder),
        Ok(Some((InsertWithNameRef::new_static(44, b"text/x-custom"), encoder.len())))
    );
    assert_eq!(IndexedWithPostBase::decode(&bloc), Ok((IndexedWithPostBase(0), bloc.len())));
}

#[test]
fn insert_into_full_table() {
    let mut table = DynamicTable::new();
    assert_eq!(table.set_max_mem_size(0), Ok(4096));
    let mut enc = table.encoder();
    let mut bloc = vec![7];
    let mut encoder = vec![9];
    let field = HeaderField::new("foo", "bar");
    assert_eq!(
        encode_field_insert(&mut enc, &mut bloc, &mut encoder, &field),
        Err(Error::Insertion(DynamicTableError::MaxTableSizeReached))
    );
    assert_eq!(enc.total_inserted(), 0);
    assert_eq!(bloc, vec![7]);
    assert_eq!(encoder, vec![9]);
}
