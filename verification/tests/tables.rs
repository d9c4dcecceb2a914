use qpack::dynamic::{
    DynamicInsertionResult, DynamicLookupResult, DynamicTable, DynamicTableError,
    SETTINGS_HEADER_TABLE_SIZE_DEFAULT, SETTINGS_HEADER_TABLE_SIZE_MAX,
};
use qpack::field::HeaderField;
use qpack::static_table::StaticTable;

#[test]
fn field_size_and_constructors() {
    let f = HeaderField::new("foo", "bar");
    assert_eq!(f.name, b"foo".to_vec());
    assert_eq!(f.value, b"bar".to_vec());
    assert_eq!(f.mem_size(), 38);
    let g = f.with_value("quxx");
    assert_eq!(g.name, b"foo".to_vec());
    assert_eq!(g.value, b"quxx".to_vec());
    assert_eq!(g.mem_size(), 39);
}

#[test]
fn static_table_lookups() {
    assert_eq!(StaticTable::find(&HeaderField::new(":authority", "")), Some(0));
    assert_eq!(StaticTable::find(&HeaderField::new(":method", "GET")), Some(17));
    assert_eq!(StaticTable::find(&HeaderField::new(":status", "200")), Some(25));
    assert_eq!(StaticTable::find(&HeaderField::new("x-frame-options", "sameorigin")), Some(98));
    assert_eq!(StaticTable::find(&HeaderField::new("location", "/bar")), None);
    assert_eq!(StaticTable::find_name(b"location"), Some(12));
    assert_eq!(StaticTable::find_name(b":method"), Some(15));
    assert_eq!(StaticTable::find_name(b"foo"), None);
}

#[test]
fn dynamic_table_insertion_and_eviction() {
    let mut table = DynamicTable::new();
    assert_eq!(table.max_mem_size(), SETTINGS_HEADER_TABLE_SIZE_DEFAULT);
    assert_eq!(table.set_max_mem_size(70), Ok(SETTINGS_HEADER_TABLE_SIZE_DEFAULT));
    table.put_field(HeaderField::new("foo", "bar")).unwrap();
    assert_eq!(table.mem_size(), 38);
    table.put_field(HeaderField::new("baz", "qux")).unwrap();
    // The second field does not fit beside the first: the first goes.
    assert_eq!(table.mem_size(), 38);
    assert_eq!(table.total_inserted(), 2);

    let enc = table.encoder();
    assert_eq!(enc.find(&HeaderField::new("foo", "bar")), DynamicLookupResult::NotFound);
    assert_eq!(
        enc.find(&HeaderField::new("baz", "qux")),
        DynamicLookupResult::Relative { index: 0, absolute: 2 }
    );
    let mut table = enc.into_table();

    assert_eq!(
        table.put_field(HeaderField::new("a-rather-long-name", "and-a-rather-long-value-too")),
        Err(DynamicTableError::MaxTableSizeReached)
    );
    assert_eq!(
        table.set_max_mem_size(SETTINGS_HEADER_TABLE_SIZE_MAX + 1),
        Err(DynamicTableError::MaximumTableSizeTooLarge)
    );
    assert_eq!(table.set_max_mem_size(0), Ok(70));
    assert_eq!(table.mem_size(), 0);
    assert_eq!(table.total_inserted(), 2);
}

#[test]
fn encoder_insertions() {
    let mut table = DynamicTable::new();
    table.put_field(HeaderField::new("foo", "bar")).unwrap();
    table.put_field(HeaderField::new("baz", "bar")).unwrap();
    let mut enc = table.encoder();
    assert_eq!(enc.base(), 2);
    assert!(enc.can_insert(&HeaderField::new("foo", "quxx")));
    assert_eq!(
        enc.insert(&HeaderField::new("foo", "quxx")),
        Ok(DynamicInsertionResult::InsertedWithNameRef { postbase: 0, relative: 1, absolute: 3 })
    );
    assert_eq!(
        enc.insert(&HeaderField::new("baz", "bar")),
        Ok(DynamicInsertionResult::Duplicated { relative: 1, postbase: 1, absolute: 4 })
    );
    assert_eq!(
        enc.insert_static(&HeaderField::new("location", "/x")),
        Ok(DynamicInsertionResult::Inserted { postbase: 2, absolute: 5 })
    );
    assert_eq!(
        enc.insert(&HeaderField::new("new", "one")),
        Ok(DynamicInsertionResult::Inserted { postbase: 3, absolute: 6 })
    );
    assert_eq!(
        enc.find(&HeaderField::new("foo", "quxx")),
        DynamicLookupResult::PostBase { index: 0, absolute: 3 }
    );
    assert_eq!(enc.find_name(b"baz"), DynamicLookupResult::PostBase { index: 1, absolute: 4 });
    assert_eq!(enc.total_inserted(), 6);

    let mut table = DynamicTable::new();
    table.set_max_mem_size(40).unwrap();
    let mut enc = table.encoder();
    assert!(!enc.can_insert(&HeaderField::new("long-name", "long-value")));
    assert_eq!(
        enc.insert(&HeaderField::new("long-name", "long-value")),
        Err(DynamicTableError::MaxTableSizeReached)
    );
    assert_eq!(enc.total_inserted(), 0);
}
