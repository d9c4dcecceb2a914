use qpack::bloc::{
    HeaderPrefix, Indexed, IndexedWithPostBase, Literal, LiteralWithNameRef,
    LiteralWithPostBaseNameRef,
};
use qpack::dynamic::{DynamicTable, SETTINGS_HEADER_TABLE_SIZE_DEFAULT as TABLE_SIZE};
use qpack::encoder::{encode, encode_field};
use qpack::field::HeaderField;
use qpack::static_table::StaticTable;
use qpack::stream::{InsertWithNameRef, InsertWithoutNameRef};

/// A reader over a buffer, advancing as representations are read from it.
struct Reader<'a> {
    buf: &'a [u8],
    pos: usize,
}

impl<'a> Reader<'a> {
    fn new(buf: &'a [u8]) -> Self {
        Reader { buf, pos: 0 }
    }

    fn rest(&self) -> &'a [u8] {
        &self.buf[self.pos..]
    }

    fn take<T, E>(&mut self, r: Result<(T, usize), E>) -> Result<T, E> {
        r.map(|(x, n)| {
            self.pos += n;
            x
        })
    }

    fn take_opt<T, E>(&mut self, r: Result<Option<(T, usize)>, E>) -> Result<Option<T>, E> {
        r.map(|o| {
            o.map(|(x, n)| {
                self.pos += n;
                x
            })
        })
    }

    fn len(&self) -> usize {
        self.buf.len()
    }

    fn position(&self) -> usize {
        self.pos
    }
}

fn check_encode_field(
    init_fields: &[HeaderField],
    field: &[HeaderField],
    check: &dyn Fn(&mut Reader, &mut Reader),
) {
    check_encode_field_table(&mut DynamicTable::new(), init_fields, field, check);
}

fn check_encode_field_table(
    table: &mut DynamicTable,
    init_fields: &[HeaderField],
    field: &[HeaderField],
    check: &dyn Fn(&mut Reader, &mut Reader),
) {
    for field in init_fields {
        table.put_field(field.clone()).unwrap();
    }

    let mut encoder = Vec::new();
    let mut bloc = Vec::new();
    let mut enc_table = std::mem::replace(table, DynamicTable::new()).encoder();

    for field in field {
        encode_field(&mut enc_table, &mut bloc, &mut encoder, field).unwrap();
    }
    *table = enc_table.into_table();

    let mut read_bloc = Reader::new(&bloc);
    let mut read_encoder = Reader::new(&encoder);
    check(&mut read_bloc, &mut read_encoder);
}

#[test]
fn encode_static() {
    let field = HeaderField::new(":method", "GET");
    check_encode_field(&[], &[field], &|b, e| {
        let r = Indexed::decode(b.rest());
        assert_eq!(b.take(r), Ok(Indexed::Static(17)));
        assert_eq!(e.len(), 0);
    });
}

#[test]
fn encode_static_nameref() {
    let field = HeaderField::new("location", "/bar");
    check_encode_field(&[], &[field], &|b, e| {
        let r = IndexedWithPostBase::decode(b.rest());
        assert_eq!(b.take(r), Ok(IndexedWithPostBase(0)));
        let r = InsertWithNameRef::decode(e.rest());
        assert_eq!(
            e.take_opt(r),
            Ok(Some(InsertWithNameRef::new_static(12, "/bar".as_bytes())))
        );
    });
}

#[test]
fn encode_static_nameref_indexed_in_dynamic() {
    let field = HeaderField::new("location", "/bar");
    check_encode_field(&[field.clone()], &[field], &|b, e| {
        let r = Indexed::decode(b.rest());
        assert_eq!(b.take(r), Ok(Indexed::Dynamic(0)));
        assert_eq!(e.len(), 0);
    });
}

#[test]
fn encode_dynamic_insert() {
    let field = HeaderField::new("foo", "bar");
    check_encode_field(&[], &[field], &|b, e| {
        let r = IndexedWithPostBase::decode(b.rest());
        assert_eq!(b.take(r), Ok(IndexedWithPostBase(0)));
        let r = InsertWithoutNameRef::decode(e.rest());
        assert_eq!(
            e.take_opt(r),
            Ok(Some(InsertWithoutNameRef::new("foo".as_bytes(), "bar".as_bytes())))
        );
    });
}

#[test]
fn encode_dynamic_insert_nameref() {
    let field = HeaderField::new("foo", "bar");
    check_encode_field(
        &[field.clone(), HeaderField::new("baz", "bar")],
        &[field.with_value("quxx")],
        &|b, e| {
            let r = IndexedWithPostBase::decode(b.rest());
            assert_eq!(b.take(r), Ok(IndexedWithPostBase(0)));
            let r = InsertWithNameRef::decode(e.rest());
            assert_eq!(
                e.take_opt(r),
                Ok(Some(InsertWithNameRef::new_dynamic(1, "quxx".as_bytes())))
            );
        },
    );
}

#[test]
fn encode_literal() {
    let mut table = DynamicTable::new();
    table.set_max_mem_size(0).unwrap();
    let field = HeaderField::new("foo", "bar");
    check_encode_field_table(&mut table, &[], &[field], &|b, e| {
        let r = Literal::decode(b.rest());
        assert_eq!(b.take(r), Ok(Literal::new("foo".as_bytes(), "bar".as_bytes())));
        assert_eq!(e.len(), 0);
    });
}

#[test]
fn encode_literal_nameref() {
    let mut table = DynamicTable::new();
    table.set_max_mem_size(63).unwrap();
    let field = HeaderField::new("foo", "bar");
    check_encode_field_table(
        &mut table,
        &[field.clone()],
        &[field.with_value("quxx")],
        &|b, e| {
            let r = LiteralWithNameRef::decode(b.rest());
            assert_eq!(
                b.take(r),
                Ok(LiteralWithNameRef::new_dynamic(0, "quxx".as_bytes()))
            );
            assert_eq!(e.len(), 0);
        },
    );
}

#[test]
fn encode_literal_postbase_nameref() {
    let mut table = DynamicTable::new();
    table.set_max_mem_size(63).unwrap();
    let field = HeaderField::new("foo", "bar");
    check_encode_field_table(
        &mut table,
        &[],
        &[field.clone(), field.with_value("quxx")],
        &|b, e| {
            let r = IndexedWithPostBase::decode(b.rest());
            assert_eq!(b.take(r), Ok(IndexedWithPostBase(0)));
            let r = LiteralWithPostBaseNameRef::decode(b.rest());
            assert_eq!(
                b.take(r),
                Ok(LiteralWithPostBaseNameRef::new(0, "quxx".as_bytes()))
            );
            let r = InsertWithoutNameRef::decode(e.rest());
            assert_eq!(
                e.take_opt(r),
                Ok(Some(InsertWithoutNameRef::new("foo".as_bytes(), "bar".as_bytes())))
            );
        },
    );
}

#[test]
fn encode_with_header_bloc() {
    let mut table = DynamicTable::new();

    for idx in 1..5 {
        table
            .put_field(HeaderField::new(
                &format!("foo{}", idx),
                &format!("bar{}", idx),
            ))
            .unwrap();
    }

    let mut encoder = Vec::new();
    let mut bloc = Vec::new();

    let fields = [
        HeaderField::new(":method", "GET"),
        HeaderField::new("foo1", "bar1"),
        HeaderField::new("foo3", "new bar3"),
        HeaderField::new(":method", "staticnameref"),
        HeaderField::new("newfoo", "newbar"),
    ];

    let mut enc_table = table.encoder();
    assert_eq!(
        encode(&mut enc_table, &mut bloc, &mut encoder, &fields),
        Ok(7)
    );

    let mut read_bloc = Reader::new(&bloc);
    let mut read_encoder = Reader::new(&encoder);

    let r = InsertWithNameRef::decode(read_encoder.rest());
    assert_eq!(
        read_encoder.take_opt(r),
        Ok(Some(InsertWithNameRef::new_dynamic(1, "new bar3".as_bytes())))
    );
    let r = InsertWithNameRef::decode(read_encoder.rest());
    assert_eq!(
        read_encoder.take_opt(r),
        Ok(Some(InsertWithNameRef::new_static(
            StaticTable::find_name(&b":method"[..]).unwrap(),
            "staticnameref".as_bytes()
        )))
    );
    let r = InsertWithoutNameRef::decode(read_encoder.rest());
    assert_eq!(
        read_encoder.take_opt(r),
        Ok(Some(InsertWithoutNameRef::new("newfoo".as_bytes(), "newbar".as_bytes())))
    );

    let r = HeaderPrefix::decode(read_bloc.rest());
    assert_eq!(
        read_bloc.take(r).unwrap().get(7, TABLE_SIZE),
        Ok((7, 4))
    );
    let r = Indexed::decode(read_bloc.rest());
    assert_eq!(read_bloc.take(r), Ok(Indexed::Static(17)));
    let r = Indexed::decode(read_bloc.rest());
    assert_eq!(read_bloc.take(r), Ok(Indexed::Dynamic(3)));
    let r = IndexedWithPostBase::decode(read_bloc.rest());
    assert_eq!(read_bloc.take(r), Ok(IndexedWithPostBase(0)));
    let r = IndexedWithPostBase::decode(read_bloc.rest());
    assert_eq!(read_bloc.take(r), Ok(IndexedWithPostBase(1)));
    let r = IndexedWithPostBase::decode(read_bloc.rest());
    assert_eq!(read_bloc.take(r), Ok(IndexedWithPostBase(2)));
    assert_eq!(read_bloc.len() as u64, read_bloc.position() as u64);
}
