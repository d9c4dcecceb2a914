//! The dynamic table of QPACK (RFC 9204, section 3.2): entries in insertion
//! order, oldest first, each known by its absolute index (1 for the first
//! field ever inserted), evicted oldest first to make room.
use vstd::prelude::*;
use crate::field::{bytes_eq, field_size, FieldView, HeaderField};

verus! {

/// The dynamic table capacity a table starts with.
pub const SETTINGS_HEADER_TABLE_SIZE_DEFAULT: usize = 4096;

/// The largest dynamic table capacity that can be set.
pub const SETTINGS_HEADER_TABLE_SIZE_MAX: usize = 1073741823;

/// Errors of the dynamic table.
#[derive(Debug, Clone, Copy, PartialEq, Eq, Structural)]
pub enum DynamicTableError {
    /// The field does not fit in the room the table has for it.
    MaxTableSizeReached,
    /// The requested capacity is above `SETTINGS_HEADER_TABLE_SIZE_MAX`.
    MaximumTableSizeTooLarge,
}

/// What the table holds: the live entries, oldest first, the number of
/// entries evicted before them, and the capacity.
pub struct TableView {
    pub entries: Seq<FieldView>,
    pub dropped: nat,
    pub max_mem_size: nat,
}

/// The total size of `entries`.
pub open spec fn entries_size(entries: Seq<FieldView>) -> nat
    decreases entries.len(),
{
    if entries.len() == 0 {
        0
    } else {
        entries_size(entries.drop_last()) + field_size(entries.last())
    }
}

/// The position of the newest entry equal to `f`, or -1.
pub open spec fn last_field_pos(entries: Seq<FieldView>, f: FieldView) -> int
    decreases entries.len(),
{
    if entries.len() == 0 {
        -1
    } else if entries.last() == f {
        entries.len() - 1
    } else {
        last_field_pos(entries.drop_last(), f)
    }
}

/// The position of the newest entry named `name`, or -1.
pub open spec fn last_name_pos(entries: Seq<FieldView>, name: Seq<u8>) -> int
    decreases entries.len(),
{
    if entries.len() == 0 {
        -1
    } else if entries.last().0 == name {
        entries.len() - 1
    } else {
        last_name_pos(entries.drop_last(), name)
    }
}

/// How many of the oldest entries must go for the rest to fit in `limit`.
pub open spec fn evict_count(entries: Seq<FieldView>, limit: nat) -> nat
    decreases entries.len(),
{
    if entries.len() == 0 || entries_size(entries) <= limit {
        0
    } else {
        1 + evict_count(entries.drop_first(), limit)
    }
}

impl TableView {
    /// The number of fields ever inserted.
    pub open spec fn total(self) -> nat {
        self.dropped + self.entries.len()
    }

    /// The size of the live entries.
    pub open spec fn mem_size(self) -> nat {
        entries_size(self.entries)
    }

    /// The absolute index of the entry at position `k`.
    pub open spec fn absolute(self, k: int) -> nat {
        (self.dropped + k + 1) as nat
    }

    /// The table after evicting the oldest entries until the rest fit in
    /// `limit`.
    pub open spec fn evicted_to(self, limit: nat) -> TableView {
        let n = evict_count(self.entries, limit);
        TableView { entries: self.entries.skip(n as int), dropped: self.dropped + n, ..self }
    }

    /// The table after a decoder-side insertion of `f`: the oldest entries
    /// are evicted to make room, then `f` is appended.
    pub open spec fn put(self, f: FieldView) -> TableView {
        let t = self.evicted_to((self.max_mem_size - field_size(f)) as nat);
        TableView { entries: t.entries.push(f), ..t }
    }
}

proof fn lemma_entries_size_front(entries: Seq<FieldView>)
    requires
        entries.len() > 0,
    ensures
        entries_size(entries) == field_size(entries[0]) + entries_size(entries.drop_first()),
    decreases entries.len(),
{
    if entries.len() > 1 {
        lemma_entries_size_front(entries.drop_last());
        assert(entries.drop_last().drop_first() =~= entries.drop_first().drop_last());
        assert(entries.drop_first().last() == entries.last());
    } else {
        assert(entries.drop_first() =~= Seq::<FieldView>::empty());
        assert(entries.drop_last() =~= Seq::<FieldView>::empty());
    }
}

/// Appending a field adds its size to the size of the entries.
pub proof fn lemma_entries_size_push(entries: Seq<FieldView>, f: FieldView)
    ensures
        entries_size(entries.push(f)) == entries_size(entries) + field_size(f),
{
    assert(entries.push(f).drop_last() =~= entries);
}

proof fn lemma_evict_count_bound(entries: Seq<FieldView>, limit: nat)
    ensures
        evict_count(entries, limit) <= entries.len(),
        entries_size(entries.skip(evict_count(entries, limit) as int)) <= limit,
    decreases entries.len(),
{
    if entries.len() == 0 || entries_size(entries) <= limit {
        assert(entries.skip(0) =~= entries);
    } else {
        lemma_evict_count_bound(entries.drop_first(), limit);
        let n = evict_count(entries.drop_first(), limit);
        assert(entries.skip((n + 1) as int) =~= entries.drop_first().skip(n as int));
    }
}

proof fn lemma_evict_count_least(entries: Seq<FieldView>, limit: nat)
    ensures
        evict_count(entries, limit) > 0 ==> entries_size(
            entries.skip(evict_count(entries, limit) - 1),
        ) > limit,
    decreases entries.len(),
{
    if entries.len() > 0 && entries_size(entries) > limit {
        let n = evict_count(entries.drop_first(), limit);
        lemma_evict_count_least(entries.drop_first(), limit);
        lemma_evict_count_bound(entries.drop_first(), limit);
        if n == 0 {
            assert(entries.skip(0) =~= entries);
        } else {
            assert(entries.skip(n as int) =~= entries.drop_first().skip(n - 1));
        }
    }
}

/// Evicting to a limit drops the fewest oldest entries that it must: what
/// stays is the newest entries, their size is within the limit, and where
/// any entry went, keeping the newest of those that went as well would
/// have been over the limit. The capacity is kept.
pub proof fn lemma_evicted_to_minimal(t: TableView, limit: nat)
    ensures
        ({
            let t2 = t.evicted_to(limit);
            let n = t2.dropped - t.dropped;
            &&& t.dropped <= t2.dropped
            &&& n <= t.entries.len()
            &&& t2.entries == t.entries.skip(n)
            &&& t2.max_mem_size == t.max_mem_size
            &&& entries_size(t2.entries) <= limit
            &&& n > 0 ==> entries_size(t.entries.skip(n - 1)) > limit
        }),
{
    lemma_evict_count_bound(t.entries, limit);
    lemma_evict_count_least(t.entries, limit);
}

/// A QPACK dynamic table.
pub struct DynamicTable {
    fields: Vec<HeaderField>,
    dropped: usize,
    mem_size: usize,
    max_mem_size: usize,
}

impl View for DynamicTable {
    type V = TableView;

    closed spec fn view(&self) -> TableView {
        TableView {
            entries: self.fields@.map_values(|f: HeaderField| f@),
            dropped: self.dropped as nat,
            max_mem_size: self.max_mem_size as nat,
        }
    }
}

/// The total number of fields ever inserted fits in a `usize`, and so does
/// the table's size, which the capacity bounds.
pub open spec fn table_wf(t: TableView) -> bool {
    &&& t.mem_size() <= t.max_mem_size <= SETTINGS_HEADER_TABLE_SIZE_MAX
    &&& t.total() <= usize::MAX
}

impl DynamicTable {
    /// The table's fields agree with its view.
    pub closed spec fn wf(&self) -> bool {
        &&& table_wf(self@)
        &&& self.mem_size == self@.mem_size()
        &&& self.fields@.len() == self@.entries.len()
    }

    /// An empty table with the default capacity.
    pub fn new() -> (t: DynamicTable)
        ensures
            t.wf(),
            t@.entries == Seq::<FieldView>::empty(),
            t@.dropped == 0,
            t@.max_mem_size == SETTINGS_HEADER_TABLE_SIZE_DEFAULT,
    {
        let t = DynamicTable {
            fields: Vec::new(),
            dropped: 0,
            mem_size: 0,
            max_mem_size: SETTINGS_HEADER_TABLE_SIZE_DEFAULT,
        };
        assert(t@.entries =~= Seq::<FieldView>::empty());
        t
    }

    /// The number of fields ever inserted.
    pub fn total_inserted(&self) -> (r: usize)
        requires
            self.wf(),
        ensures
            r == self@.total(),
    {
        self.dropped + self.fields.len()
    }

    /// The capacity.
    pub fn max_mem_size(&self) -> (r: usize)
        requires
            self.wf(),
        ensures
            r == self@.max_mem_size,
    {
        self.max_mem_size
    }

    /// The size of the live entries.
    pub fn mem_size(&self) -> (r: usize)
        requires
            self.wf(),
        ensures
            r == self@.mem_size(),
    {
        self.mem_size
    }

    /// Evicts the oldest entries until the rest fit in `limit`.
    fn evict_to(&mut self, limit: usize)
        requires
            old(self).wf(),
        ensures
            final(self).wf(),
            final(self)@ == old(self)@.evicted_to(limit as nat),
    {
        let ghost start = self@;
        let ghost n = evict_count(start.entries, limit as nat);
        let mut k: usize = 0;
        proof {
            lemma_evict_count_bound(start.entries, limit as nat);
        }
        while self.mem_size > limit
            invariant
                self.wf(),
                k <= n,
                n <= start.entries.len(),
                self@.max_mem_size == start.max_mem_size,
                self@.entries == start.entries.skip(k as int),
                self@.dropped == start.dropped + k,
                evict_count(start.entries, limit as nat) == n,
                evict_count(self@.entries, limit as nat) == n - k,
            decreases self.fields.len(),
        {
            proof {
                assert(self@.entries.len() > 0) by {
                    if self@.entries.len() == 0 {
                        assert(self@.entries =~= Seq::<FieldView>::empty());
                    }
                }
                lemma_entries_size_front(self@.entries);
            }
            let ghost before = self@;
            let f = self.fields.remove(0);
            let sz = f.mem_size();
            proof {
                assert(f@ == before.entries[0]);
                assert(self@.entries =~= before.entries.drop_first());
                assert(start.entries.skip(k + 1) =~= before.entries.drop_first());
            }
            self.mem_size = self.mem_size - sz;
            self.dropped = self.dropped + 1;
            k = k + 1;
        }
        proof {
            if k < n {
                assert(self@.entries.len() > 0) by {
                    if self@.entries.len() == 0 {
                        assert(evict_count(self@.entries, limit as nat) == 0);
                    }
                }
            }
        }
    }

    /// Sets the capacity, evicting the oldest entries that no longer fit;
    /// gives back the former capacity.
    pub fn set_max_mem_size(&mut self, size: usize) -> (r: Result<usize, DynamicTableError>)
        requires
            old(self).wf(),
        ensures
            final(self).wf(),
            size > SETTINGS_HEADER_TABLE_SIZE_MAX ==> r == Err::<usize, DynamicTableError>(
                DynamicTableError::MaximumTableSizeTooLarge,
            ) && final(self)@ == old(self)@,
            size <= SETTINGS_HEADER_TABLE_SIZE_MAX ==> r == Ok::<usize, DynamicTableError>(
                old(self)@.max_mem_size as usize,
            ) && final(self)@ == (TableView {
                max_mem_size: size as nat,
                ..old(self)@.evicted_to(size as nat)
            }),
            size <= SETTINGS_HEADER_TABLE_SIZE_MAX ==> final(self)@.mem_size() <= size && (
            final(self)@.dropped > old(self)@.dropped ==> entries_size(
                old(self)@.entries.skip(final(self)@.dropped - old(self)@.dropped - 1),
            ) > size),
    {
        if size > SETTINGS_HEADER_TABLE_SIZE_MAX {
            return Err(DynamicTableError::MaximumTableSizeTooLarge);
        }
        let previous = self.max_mem_size;
        proof {
            lemma_evict_count_bound(self@.entries, size as nat);
            lemma_evicted_to_minimal(self@, size as nat);
        }
        self.evict_to(size);
        self.max_mem_size = size;
        Ok(previous)
    }

    /// Inserts `field`, evicting the oldest entries to make room for it, as
    /// a decoder does on an insertion instruction.
    pub fn put_field(&mut self, field: HeaderField) -> (r: Result<(), DynamicTableError>)
        requires
            old(self).wf(),
            old(self)@.total() < usize::MAX,
        ensures
            final(self).wf(),
            field_size(field@) > old(self)@.max_mem_size ==> r == Err::<(), DynamicTableError>(
                DynamicTableError::MaxTableSizeReached,
            ) && final(self)@ == old(self)@,
            field_size(field@) <= old(self)@.max_mem_size ==> r == Ok::<(), DynamicTableError>(())
                && final(self)@ == old(self)@.put(field@),
            field_size(field@) <= old(self)@.max_mem_size ==> final(self)@.mem_size()
                <= old(self)@.max_mem_size && (final(self)@.dropped > old(self)@.dropped
                ==> entries_size(old(self)@.entries.skip(final(self)@.dropped - old(self)@.dropped - 1))
                + field_size(field@) > old(self)@.max_mem_size),
    {
        let size = field.mem_size();
        if size > self.max_mem_size {
            return Err(DynamicTableError::MaxTableSizeReached);
        }
        self.evict_to(self.max_mem_size - size);
        let ghost before = self@;
        proof {
            lemma_evict_count_bound(old(self)@.entries, (old(self)@.max_mem_size - size) as nat);
            lemma_evicted_to_minimal(old(self)@, (old(self)@.max_mem_size - size) as nat);
            lemma_entries_size_push(before.entries, field@);
        }
        self.fields.push(field);
        self.mem_size = self.mem_size + size;
        assert(self@.entries =~= before.entries.push(field@));
        Ok(())
    }

    /// An encoder over this table, whose base is the number of fields
    /// inserted so far.
    pub fn encoder(self) -> (e: DynamicTableEncoder)
        requires
            self.wf(),
        ensures
            e.wf(),
            e@.table == self@,
            e@.base == self@.total(),
    {
        let base = self.total_inserted();
        DynamicTableEncoder { table: self, base }
    }
}

/// Where a dynamic table lookup found its entry: below the base (by an
/// index relative to the base) or above it (by a post-base index).
#[derive(Debug, Clone, Copy, PartialEq, Eq, Structural)]
pub enum DynamicLookupResult {
    Relative { index: usize, absolute: usize },
    PostBase { index: usize, absolute: usize },
    NotFound,
}

/// How an encoder-side insertion went: a new entry, a duplicate of an
/// existing entry, or a new entry that names an existing one. `relative`
/// is the encoder-stream index of the existing entry, `postbase` the
/// post-base index of the new entry.
#[derive(Debug, Clone, Copy, PartialEq, Eq, Structural)]
pub enum DynamicInsertionResult {
    Inserted { postbase: usize, absolute: usize },
    Duplicated { relative: usize, postbase: usize, absolute: usize },
    InsertedWithNameRef { postbase: usize, relative: usize, absolute: usize },
}

/// What an encoder sees: its table and its base.
pub struct EncoderView {
    pub table: TableView,
    pub base: nat,
}

/// The lookup result for the entry at position `pos` (none where `pos` is
/// negative).
pub open spec fn spec_lookup(e: EncoderView, pos: int) -> DynamicLookupResult {
    if pos < 0 {
        DynamicLookupResult::NotFound
    } else {
        let abs = e.table.absolute(pos);
        if abs <= e.base {
            DynamicLookupResult::Relative { index: (e.base - abs) as usize, absolute: abs as usize }
        } else {
            DynamicLookupResult::PostBase {
                index: (abs - e.base - 1) as usize,
                absolute: abs as usize,
            }
        }
    }
}

/// The lookup of the newest entry equal to `f`.
pub open spec fn spec_find(e: EncoderView, f: FieldView) -> DynamicLookupResult {
    spec_lookup(e, last_field_pos(e.table.entries, f))
}

/// The lookup of the newest entry named `name`.
pub open spec fn spec_find_name(e: EncoderView, name: Seq<u8>) -> DynamicLookupResult {
    spec_lookup(e, last_name_pos(e.table.entries, name))
}

/// Whether `f` fits in the room the table has left.
pub open spec fn spec_can_insert(e: EncoderView, f: FieldView) -> bool {
    field_size(f) <= e.table.max_mem_size - e.table.mem_size()
}

/// The result of inserting `f`: a duplicate where an equal entry exists,
/// else a reference to the newest entry of that name where `name_ref`
/// allows one and one exists, else a plain insertion.
pub open spec fn spec_insertion(e: EncoderView, f: FieldView, name_ref: bool) -> DynamicInsertionResult {
    let total = e.table.total();
    let abs = total + 1;
    let postbase = (abs - e.base - 1) as usize;
    let fp = last_field_pos(e.table.entries, f);
    let np = last_name_pos(e.table.entries, f.0);
    if fp >= 0 {
        DynamicInsertionResult::Duplicated {
            relative: (total - e.table.absolute(fp)) as usize,
            postbase,
            absolute: abs as usize,
        }
    } else if name_ref && np >= 0 {
        DynamicInsertionResult::InsertedWithNameRef {
            postbase,
            relative: (total - e.table.absolute(np)) as usize,
            absolute: abs as usize,
        }
    } else {
        DynamicInsertionResult::Inserted { postbase, absolute: abs as usize }
    }
}

/// The encoder after appending `f` to its table.
pub open spec fn spec_inserted(e: EncoderView, f: FieldView) -> EncoderView {
    EncoderView { table: TableView { entries: e.table.entries.push(f), ..e.table }, base: e.base }
}

/// The newest position of a field is a position of that field, or -1.
pub proof fn lemma_last_field_pos_bound(entries: Seq<FieldView>, f: FieldView)
    ensures
        -1 <= last_field_pos(entries, f) < entries.len(),
        last_field_pos(entries, f) >= 0 ==> entries[last_field_pos(entries, f)] == f,
    decreases entries.len(),
{
    if entries.len() > 0 {
        lemma_last_field_pos_bound(entries.drop_last(), f);
    }
}

/// The newest position of a name is a position of that name, or -1.
pub proof fn lemma_last_name_pos_bound(entries: Seq<FieldView>, name: Seq<u8>)
    ensures
        -1 <= last_name_pos(entries, name) < entries.len(),
        last_name_pos(entries, name) >= 0 ==> entries[last_name_pos(entries, name)].0 == name,
    decreases entries.len(),
{
    if entries.len() > 0 {
        lemma_last_name_pos_bound(entries.drop_last(), name);
    }
}

/// A dynamic table being used to encode a header block: lookups report
/// entries relative to the base, the number of fields inserted when the
/// block began.
pub struct DynamicTableEncoder {
    table: DynamicTable,
    base: usize,
}

impl View for DynamicTableEncoder {
    type V = EncoderView;

    closed spec fn view(&self) -> EncoderView {
        EncoderView { table: self.table@, base: self.base as nat }
    }
}

impl DynamicTableEncoder {
    /// The table is well formed and the base is at most the number of
    /// fields inserted.
    pub closed spec fn wf(&self) -> bool {
        &&& self.table.wf()
        &&& self.base <= self@.table.total()
    }

    /// The view of a well-formed encoder has a well-formed table and a base
    /// of at most the number of fields inserted.
    pub proof fn lemma_view_wf(&self)
        requires
            self.wf(),
        ensures
            table_wf(self@.table),
            self@.base <= self@.table.total(),
    {
    }

    /// The table, once the block is encoded.
    pub fn into_table(self) -> (t: DynamicTable)
        requires
            self.wf(),
        ensures
            t.wf(),
            t@ == self@.table,
    {
        self.table
    }

    /// The base.
    pub fn base(&self) -> (r: usize)
        requires
            self.wf(),
        ensures
            r == self@.base,
    {
        self.base
    }

    /// The number of fields ever inserted.
    pub fn total_inserted(&self) -> (r: usize)
        requires
            self.wf(),
        ensures
            r == self@.table.total(),
    {
        self.table.total_inserted()
    }

    /// The capacity.
    pub fn max_mem_size(&self) -> (r: usize)
        requires
            self.wf(),
        ensures
            r == self@.table.max_mem_size,
    {
        self.table.max_mem_size()
    }

    fn lookup(&self, pos: usize) -> (r: DynamicLookupResult)
        requires
            self.wf(),
            pos < self@.table.entries.len(),
        ensures
            r == spec_lookup(self@, pos as int),
    {
        let abs = self.table.dropped + pos + 1;
        if abs <= self.base {
            DynamicLookupResult::Relative { index: self.base - abs, absolute: abs }
        } else {
            DynamicLookupResult::PostBase { index: abs - self.base - 1, absolute: abs }
        }
    }

    /// Looks up the newest entry equal to `field`.
    pub fn find(&self, field: &HeaderField) -> (r: DynamicLookupResult)
        requires
            self.wf(),
        ensures
            r == spec_find(self@, field@),
    {
        match self.position_of(field) {
            Some(p) => self.lookup(p),
            None => DynamicLookupResult::NotFound,
        }
    }

    /// Looks up the newest entry named `name`.
    pub fn find_name(&self, name: &[u8]) -> (r: DynamicLookupResult)
        requires
            self.wf(),
        ensures
            r == spec_find_name(self@, name@),
    {
        match self.position_of_name(name) {
            Some(p) => self.lookup(p),
            None => DynamicLookupResult::NotFound,
        }
    }

    /// Whether `field` fits in the room the table has left.
    pub fn can_insert(&self, field: &HeaderField) -> (r: bool)
        requires
            self.wf(),
        ensures
            r == spec_can_insert(self@, field@),
    {
        field.mem_size() <= self.table.max_mem_size - self.table.mem_size
    }

    fn position_of(&self, field: &HeaderField) -> (r: Option<usize>)
        requires
            self.wf(),
        ensures
            r matches Some(p) ==> last_field_pos(self@.table.entries, field@) == p && p
                < self@.table.entries.len(),
            r is None ==> last_field_pos(self@.table.entries, field@) < 0,
    {
        let ghost entries = self@.table.entries;
        let mut i = self.table.fields.len();
        assert(entries.take(i as int) =~= entries);
        while i > 0
            invariant
                self.wf(),
                entries == self@.table.entries,
                i <= entries.len(),
                last_field_pos(entries, field@) == last_field_pos(entries.take(i as int), field@),
            decreases i,
        {
            let f = &self.table.fields[i - 1];
            assert(f@ == entries[i - 1]);
            assert(entries.take(i as int).last() == entries[i - 1]);
            if bytes_eq(f.name.as_slice(), field.name.as_slice()) && bytes_eq(
                f.value.as_slice(),
                field.value.as_slice(),
            ) {
                return Some(i - 1);
            }
            assert(entries.take(i as int).drop_last() =~= entries.take(i - 1));
            i = i - 1;
        }
        None
    }

    fn position_of_name(&self, name: &[u8]) -> (r: Option<usize>)
        requires
            self.wf(),
        ensures
            r matches Some(p) ==> last_name_pos(self@.table.entries, name@) == p && p
                < self@.table.entries.len(),
            r is None ==> last_name_pos(self@.table.entries, name@) < 0,
    {
        let ghost entries = self@.table.entries;
        let mut i = self.table.fields.len();
        assert(entries.take(i as int) =~= entries);
        while i > 0
            invariant
                self.wf(),
                entries == self@.table.entries,
                i <= entries.len(),
                last_name_pos(entries, name@) == last_name_pos(entries.take(i as int), name@),
            decreases i,
        {
            let f = &self.table.fields[i - 1];
            assert(f@ == entries[i - 1]);
            assert(entries.take(i as int).last() == entries[i - 1]);
            if bytes_eq(f.name.as_slice(), name) {
                return Some(i - 1);
            }
            assert(entries.take(i as int).drop_last() =~= entries.take(i - 1));
            i = i - 1;
        }
        None
    }

    fn insert_field(&mut self, field: &HeaderField, name_ref: bool) -> (r: Result<
        DynamicInsertionResult,
        DynamicTableError,
    >)
        requires
            old(self).wf(),
            old(self)@.table.total() < usize::MAX,
        ensures
            final(self).wf(),
            spec_can_insert(old(self)@, field@) ==> r == Ok::<
                DynamicInsertionResult,
                DynamicTableError,
            >(spec_insertion(old(self)@, field@, name_ref)) && final(self)@ == spec_inserted(
                old(self)@,
                field@,
            ),
            !spec_can_insert(old(self)@, field@) ==> r == Err::<
                DynamicInsertionResult,
                DynamicTableError,
            >(DynamicTableError::MaxTableSizeReached) && final(self)@ == old(self)@,
    {
        if !self.can_insert(field) {
            return Err(DynamicTableError::MaxTableSizeReached);
        }
        let ghost e = self@;
        proof {
            lemma_last_field_pos_bound(e.table.entries, field@);
            lemma_last_name_pos_bound(e.table.entries, field.name@);
        }
        let total = self.table.total_inserted();
        let abs = total + 1;
        let postbase = abs - self.base - 1;
        let result = match self.position_of(field) {
            Some(p) => DynamicInsertionResult::Duplicated {
                relative: total - (self.table.dropped + p + 1),
                postbase,
                absolute: abs,
            },
            None => {
                let np = if name_ref {
                    self.position_of_name(field.name.as_slice())
                } else {
                    None
                };
                match np {
                    Some(p) => DynamicInsertionResult::InsertedWithNameRef {
                        postbase,
                        relative: total - (self.table.dropped + p + 1),
                        absolute: abs,
                    },
                    None => DynamicInsertionResult::Inserted { postbase, absolute: abs },
                }
            },
        };
        let size = field.mem_size();
        let copy = HeaderField {
            name: vstd::slice::slice_to_vec(field.name.as_slice()),
            value: vstd::slice::slice_to_vec(field.value.as_slice()),
        };
        proof {
            lemma_entries_size_push(e.table.entries, field@);
        }
        self.table.fields.push(copy);
        self.table.mem_size = self.table.mem_size + size;
        assert(self@.table.entries =~= e.table.entries.push(field@));
        Ok(result)
    }

    /// Inserts `field` at the end of the table: as a duplicate where an
    /// equal entry exists, else naming the newest entry of the same name
    /// where there is one, else with a literal name.
    pub fn insert(&mut self, field: &HeaderField) -> (r: Result<
        DynamicInsertionResult,
        DynamicTableError,
    >)
        requires
            old(self).wf(),
            old(self)@.table.total() < usize::MAX,
        ensures
            final(self).wf(),
            spec_can_insert(old(self)@, field@) ==> r == Ok::<
                DynamicInsertionResult,
                DynamicTableError,
            >(spec_insertion(old(self)@, field@, true)) && final(self)@ == spec_inserted(
                old(self)@,
                field@,
            ),
            !spec_can_insert(old(self)@, field@) ==> r == Err::<
                DynamicInsertionResult,
                DynamicTableError,
            >(DynamicTableError::MaxTableSizeReached) && final(self)@ == old(self)@,
    {
        self.insert_field(field, true)
    }

    /// Inserts `field`, whose name is in the static table, at the end of the
    /// table: as a duplicate where an equal entry exists, else as a new
    /// entry.
    pub fn insert_static(&mut self, field: &HeaderField) -> (r: Result<
        DynamicInsertionResult,
        DynamicTableError,
    >)
        requires
            old(self).wf(),
            old(self)@.table.total() < usize::MAX,
        ensures
            final(self).wf(),
            spec_can_insert(old(self)@, field@) ==> r == Ok::<
                DynamicInsertionResult,
                DynamicTableError,
            >(spec_insertion(old(self)@, field@, false)) && final(self)@ == spec_inserted(
                old(self)@,
                field@,
            ),
            !spec_can_insert(old(self)@, field@) ==> r == Err::<
                DynamicInsertionResult,
                DynamicTableError,
            >(DynamicTableError::MaxTableSizeReached) && final(self)@ == old(self)@,
    {
        self.insert_field(field, false)
    }
}

/// After a field is inserted, looking it up finds the new entry, above the
/// base, with the post-base index and the absolute index that the insertion
/// reported.
pub proof fn lemma_find_after_insert(e: EncoderView, f: FieldView, name_ref: bool)
    requires
        e.base <= e.table.total(),
        e.table.total() < usize::MAX,
    ensures
        spec_find(spec_inserted(e, f), f) == (DynamicLookupResult::PostBase {
            index: (e.table.total() - e.base) as usize,
            absolute: (e.table.total() + 1) as usize,
        }),
        match spec_insertion(e, f, name_ref) {
            DynamicInsertionResult::Inserted { postbase, absolute } => postbase == e.table.total()
                - e.base && absolute == e.table.total() + 1,
            DynamicInsertionResult::Duplicated { postbase, absolute, .. } => postbase
                == e.table.total() - e.base && absolute == e.table.total() + 1,
            DynamicInsertionResult::InsertedWithNameRef { postbase, absolute, .. } => postbase
                == e.table.total() - e.base && absolute == e.table.total() + 1,
        },
{
    let entries = e.table.entries.push(f);
    assert(entries.last() == f);
}

} // verus!
