//! What a decoder makes of an encoded header block: the field each field
//! line stands for, read against the decoder's dynamic table, and the
//! effect of each encoder-stream instruction on that table. The laws here
//! say that a decoder recovers the fields that were encoded.
use vstd::prelude::*;
use crate::bloc::{
    lemma_header_prefix_bytes_roundtrip, lemma_header_prefix_roundtrip, spec_decode_header_prefix,
    spec_header_prefix, spec_prefix_get, ParseError,
    lemma_read_int_roundtrip, lemma_read_string_roundtrip, spec_decode_indexed,
    spec_decode_indexed_post_base, spec_decode_literal, spec_decode_literal_name_ref,
    spec_decode_literal_post_base, spec_read_int, spec_read_string, Indexed, IndexedWithPostBase,
};
use crate::dynamic::{
    entries_size, evict_count, last_field_pos, last_name_pos, lemma_last_field_pos_bound,
    lemma_last_name_pos_bound, spec_can_insert, spec_find, spec_find_name, spec_inserted,
    spec_insertion, table_wf, DynamicInsertionResult, DynamicLookupResult, EncoderView, TableView,
};
use crate::encoder::{
    encoder_ok, lemma_encode_field_facts, spec_encode_field, spec_encode_field_insert,
    spec_encode_field_literal, spec_encode_fields, value_bytes,
};
use crate::field::{field_size, FieldView};
use crate::prefix_int::{prefix_mult, spec_encode_int, valid_prefix};
use crate::prefix_string::spec_encode_string;
use crate::static_table::{
    static_find, static_find_from, static_find_name, static_find_name_from, static_name,
    static_value,
};
use crate::stream::{
    spec_decode_duplicate, spec_decode_insert_literal, spec_decode_insert_name_ref,
    spec_decode_size_update, Duplicate, DynamicTableSizeUpdate,
};

verus! {

/// The live entry with absolute index `abs`, if there is one.
pub open spec fn entry_at(t: TableView, abs: int) -> Option<FieldView> {
    if t.dropped < abs <= t.total() {
        Some(t.entries[abs - t.dropped - 1])
    } else {
        None
    }
}

/// Static entry `i`, if there is one.
pub open spec fn static_entry(i: int) -> Option<FieldView> {
    if 0 <= i < 99 {
        Some((static_name(i), static_value(i)))
    } else {
        None
    }
}

/// The field that the field line at the start of `s` stands for, read
/// against table `t` with base `base`, and the length of the field line;
/// `None` where `s` does not start with a field line that refers to live
/// entries.
#[verifier::opaque]
pub open spec fn spec_read_field_line(s: Seq<u8>, t: TableView, base: nat) -> Option<(FieldView, nat)> {
    if s.len() == 0 {
        None
    } else if s[0] >= 128 {
        match spec_decode_indexed(s) {
            Ok((Indexed::Static(i), n)) => match static_entry(i as int) {
                Some(f) => Some((f, n)),
                None => None,
            },
            Ok((Indexed::Dynamic(r), n)) => match entry_at(t, base - r) {
                Some(f) => Some((f, n)),
                None => None,
            },
            Err(_) => None,
        }
    } else if s[0] >= 64 {
        match spec_decode_literal_name_ref(s) {
            Ok((st, i, v, n)) => match (if st {
                static_entry(i as int)
            } else {
                entry_at(t, base - i)
            }) {
                Some(named) => Some(((named.0, v), n)),
                None => None,
            },
            Err(_) => None,
        }
    } else if s[0] >= 32 {
        match spec_decode_literal(s) {
            Ok((nm, v, n)) => Some(((nm, v), n)),
            Err(_) => None,
        }
    } else if s[0] >= 16 {
        match spec_decode_indexed_post_base(s) {
            Ok((IndexedWithPostBase(i), n)) => match entry_at(t, base + 1 + i) {
                Some(f) => Some((f, n)),
                None => None,
            },
            Err(_) => None,
        }
    } else {
        match spec_decode_literal_post_base(s) {
            Ok((i, v, n)) => match entry_at(t, base + 1 + i) {
                Some(named) => Some(((named.0, v), n)),
                None => None,
            },
            Err(_) => None,
        }
    }
}

/// The table after the encoder-stream instruction at the start of `s`, and
/// the length of the instruction; `None` where `s` does not start with an
/// instruction that refers to live entries.
#[verifier::opaque]
pub open spec fn spec_apply_instruction(s: Seq<u8>, t: TableView) -> Option<(TableView, nat)> {
    if s.len() == 0 {
        None
    } else if s[0] >= 128 {
        match spec_decode_insert_name_ref(s) {
            Ok((st, i, v, n)) => match (if st {
                static_entry(i as int)
            } else {
                entry_at(t, t.total() - i)
            }) {
                Some(named) => Some((t.put((named.0, v)), n)),
                None => None,
            },
            Err(_) => None,
        }
    } else if s[0] >= 64 {
        match spec_decode_insert_literal(s) {
            Ok((nm, v, n)) => Some((t.put((nm, v)), n)),
            Err(_) => None,
        }
    } else if s[0] >= 32 {
        match spec_decode_size_update(s) {
            Ok((DynamicTableSizeUpdate(c), n)) => Some(
                (TableView { max_mem_size: c as nat, ..t.evicted_to(c as nat) }, n),
            ),
            Err(_) => None,
        }
    } else {
        match spec_decode_duplicate(s) {
            Ok((Duplicate(i), n)) => match entry_at(t, t.total() - i) {
                Some(f) => Some((t.put(f), n)),
                None => None,
            },
            Err(_) => None,
        }
    }
}

/// The one case in which the field line written for a field does not refer
/// to it: the field is already in the table above the base, fits, and its
/// name is not in the static table. The field is then duplicated, and its
/// field line is written as an indexed line with the duplicate's post-base
/// index taken for an index relative to the base.
pub open spec fn duplicated_above_base(e: EncoderView, f: FieldView) -> bool {
    &&& static_find(f) is None
    &&& !(spec_find(e, f) is Relative)
    &&& spec_can_insert(e, f)
    &&& static_find_name(f.0) is None
    &&& last_field_pos(e.table.entries, f) >= 0
}

proof fn lemma_static_find_from(f: FieldView, i: nat)
    ensures
        static_find_from(f, i) matches Some(k) ==> i <= k < 99 && static_name(k as int) == f.0
            && static_value(k as int) == f.1,
    decreases 99 - i,
{
    if i < 99 {
        lemma_static_find_from(f, i + 1);
    }
}

proof fn lemma_static_find_name_from(name: Seq<u8>, i: nat)
    ensures
        static_find_name_from(name, i) matches Some(k) ==> i <= k < 99 && static_name(k as int)
            == name,
    decreases 99 - i,
{
    if i < 99 {
        lemma_static_find_name_from(name, i + 1);
    }
}

/// Reading an integer-prefixed field line or instruction: the integer, then
/// a value string, then anything.
proof fn lemma_int_then_value(size: u8, flags: u8, i: usize, v: Seq<u8>, rest: Seq<u8>)
    requires
        valid_prefix(size, flags),
        v.len() <= usize::MAX,
    ensures
        ({
            let head = spec_encode_int(size, flags, i as nat);
            let s = head + value_bytes(v) + rest;
            &&& spec_read_int(size, s) == Ok::<(nat, usize, nat), crate::bloc::ParseError>(
                (flags as nat, i, head.len()),
            )
            &&& spec_read_string(7, s.skip(head.len() as int)) == Ok::<
                (nat, Seq<u8>, nat),
                crate::bloc::ParseError,
            >((0, v, value_bytes(v).len()))
            &&& s[0] as nat / prefix_mult(size) == flags
            &&& s.len() > 0
        }),
{
    let head = spec_encode_int(size, flags, i as nat);
    let s = head + value_bytes(v) + rest;
    assert(s =~= head + (value_bytes(v) + rest));
    lemma_read_int_roundtrip(size, flags, i, value_bytes(v) + rest);
    assert(s.skip(head.len() as int) =~= value_bytes(v) + rest);
    lemma_read_string_roundtrip(7, 0, v, rest);
}

/// Reading a field line or instruction made of two strings, then anything.
proof fn lemma_string_then_value(size: u8, flags: u8, nm: Seq<u8>, v: Seq<u8>, rest: Seq<u8>)
    requires
        crate::prefix_string::valid_string_prefix(size, flags),
        nm.len() <= usize::MAX,
        v.len() <= usize::MAX,
    ensures
        ({
            let head = spec_encode_string(size, flags, nm);
            let s = head + value_bytes(v) + rest;
            &&& spec_read_string(size, s) == Ok::<(nat, Seq<u8>, nat), crate::bloc::ParseError>(
                (flags as nat, nm, head.len()),
            )
            &&& spec_read_string(7, s.skip(head.len() as int)) == Ok::<
                (nat, Seq<u8>, nat),
                crate::bloc::ParseError,
            >((0, v, value_bytes(v).len()))
            &&& s[0] as nat / prefix_mult(size) == 2 * flags
            &&& s.len() > 0
        }),
{
    let head = spec_encode_string(size, flags, nm);
    let s = head + value_bytes(v) + rest;
    assert(s =~= head + (value_bytes(v) + rest));
    lemma_read_string_roundtrip(size, flags, nm, value_bytes(v) + rest);
    assert(s.skip(head.len() as int) =~= value_bytes(v) + rest);
    lemma_read_string_roundtrip(7, 0, v, rest);
}

/// A field that fits is appended by a decoder-side insertion with no
/// eviction.
proof fn lemma_put_fits(t: TableView, f: FieldView)
    requires
        field_size(f) <= t.max_mem_size - t.mem_size(),
    ensures
        t.put(f) == (TableView { entries: t.entries.push(f), ..t }),
{
    assert(entries_size(t.entries) <= (t.max_mem_size - field_size(f)) as nat);
    assert(evict_count(t.entries, (t.max_mem_size - field_size(f)) as nat) == 0);
    assert(t.entries.skip(0) =~= t.entries);
}

#[verifier::rlimit(40)]
pub(crate) proof fn lemma_literal_read(e: EncoderView, f: FieldView, rest: Seq<u8>, t: TableView, b: nat)
    requires
        table_wf(e.table),
        e.base <= e.table.total(),
        f.0.len() <= usize::MAX,
        f.1.len() <= usize::MAX,
        (t == e.table && b == e.base) || spec_encode_field_literal(e, f).1 is None,
    ensures
        spec_read_field_line(spec_encode_field_literal(e, f).0 + rest, t, b) == Some(
            (f, spec_encode_field_literal(e, f).0.len()),
        ),
{
    reveal(spec_read_field_line);
    reveal(spec_apply_instruction);
    let bytes = spec_encode_field_literal(e, f).0;
    lemma_last_name_pos_bound(e.table.entries, f.0);
    lemma_static_find_name_from(f.0, 0);
    match static_find_name(f.0) {
        Some(si) => {
            lemma_int_then_value(4, 0b0101, si as usize, f.1, rest);
            assert(bytes + rest =~= spec_encode_int(4, 0b0101, si) + value_bytes(f.1) + rest);
        },
        None => match spec_find_name(e, f.0) {
            DynamicLookupResult::Relative { index, absolute } => {
                lemma_int_then_value(4, 0b0100, index, f.1, rest);
                assert(bytes + rest =~= spec_encode_int(4, 0b0100, index as nat) + value_bytes(f.1)
                    + rest);
            },
            DynamicLookupResult::PostBase { index, absolute } => {
                lemma_int_then_value(3, 0b0000, index, f.1, rest);
                assert(bytes + rest =~= spec_encode_int(3, 0b0000, index as nat) + value_bytes(f.1)
                    + rest);
            },
            DynamicLookupResult::NotFound => {
                lemma_string_then_value(3, 0b0010, f.0, f.1, rest);
                assert(bytes + rest =~= spec_encode_string(3, 0b0010, f.0) + value_bytes(f.1)
                    + rest);
            },
        },
    }
}

proof fn lemma_read_post_base(postbase: usize, t: TableView, base: nat, rest: Seq<u8>, f: FieldView)
    requires
        entry_at(t, base + 1 + postbase) == Some(f),
    ensures
        spec_read_field_line(spec_encode_int(4, 0b0001, postbase as nat) + rest, t, base) == Some(
            (f, spec_encode_int(4, 0b0001, postbase as nat).len()),
        ),
{
    reveal(spec_read_field_line);
    lemma_read_int_roundtrip(4, 0b0001, postbase, rest);
}

proof fn lemma_apply_duplicate(rel: usize, t: TableView, rest: Seq<u8>, g: FieldView)
    requires
        entry_at(t, t.total() - rel) == Some(g),
    ensures
        spec_apply_instruction(spec_encode_int(5, 0b000, rel as nat) + rest, t) == Some(
            (t.put(g), spec_encode_int(5, 0b000, rel as nat).len()),
        ),
{
    reveal(spec_apply_instruction);
    lemma_read_int_roundtrip(5, 0b000, rel, rest);
}

proof fn lemma_apply_insert_static(i: usize, v: Seq<u8>, t: TableView, rest: Seq<u8>, named: FieldView)
    requires
        static_entry(i as int) == Some(named),
        v.len() <= usize::MAX,
    ensures
        spec_apply_instruction(spec_encode_int(6, 0b11, i as nat) + value_bytes(v) + rest, t) == Some(
            (t.put((named.0, v)), (spec_encode_int(6, 0b11, i as nat) + value_bytes(v)).len()),
        ),
{
    reveal(spec_apply_instruction);
    lemma_int_then_value(6, 0b11, i, v, rest);
}

proof fn lemma_apply_insert_dynamic(i: usize, v: Seq<u8>, t: TableView, rest: Seq<u8>, named: FieldView)
    requires
        entry_at(t, t.total() - i) == Some(named),
        v.len() <= usize::MAX,
    ensures
        spec_apply_instruction(spec_encode_int(6, 0b10, i as nat) + value_bytes(v) + rest, t) == Some(
            (t.put((named.0, v)), (spec_encode_int(6, 0b10, i as nat) + value_bytes(v)).len()),
        ),
{
    reveal(spec_apply_instruction);
    lemma_int_then_value(6, 0b10, i, v, rest);
}

proof fn lemma_apply_insert_literal(nm: Seq<u8>, v: Seq<u8>, t: TableView, rest: Seq<u8>)
    requires
        nm.len() <= usize::MAX,
        v.len() <= usize::MAX,
    ensures
        spec_apply_instruction(spec_encode_string(5, 0b01, nm) + value_bytes(v) + rest, t) == Some(
            (t.put((nm, v)), (spec_encode_string(5, 0b01, nm) + value_bytes(v)).len()),
        ),
{
    reveal(spec_apply_instruction);
    lemma_string_then_value(5, 0b01, nm, v, rest);
}

pub(crate) proof fn lemma_insert_read(e: EncoderView, f: FieldView, rest: Seq<u8>)
    requires
        encoder_ok(e, 1),
        f.0.len() <= usize::MAX,
        f.1.len() <= usize::MAX,
        spec_can_insert(e, f),
    ensures
        ({
            let out = spec_encode_field_insert(e, f);
            &&& out.encoder.len() > 0
            &&& spec_apply_instruction(out.encoder + rest, e.table) == Some(
                (out.table.table, out.encoder.len()),
            )
            &&& !(static_find_name(f.0) is None && last_field_pos(e.table.entries, f) >= 0)
                ==> spec_read_field_line(out.bloc + rest, out.table.table, e.base) == Some(
                (f, out.bloc.len()),
            )
        }),
{
    let out = spec_encode_field_insert(e, f);
    let t = e.table;
    let t2 = spec_inserted(e, f).table;
    lemma_last_field_pos_bound(t.entries, f);
    lemma_last_name_pos_bound(t.entries, f.0);
    lemma_static_find_name_from(f.0, 0);
    lemma_put_fits(t, f);
    assert(t2.entries[t2.entries.len() - 1] == f);
    assert(entry_at(t2, t.total() + 1int) == Some(f));
    let fp = last_field_pos(t.entries, f);
    let np = last_name_pos(t.entries, f.0);
    if fp >= 0 {
        assert(entry_at(t, t.absolute(fp) as int) == Some(f));
    }
    if np >= 0 {
        assert(entry_at(t, t.absolute(np) as int) == Some(t.entries[np]));
    }
    match static_find_name(f.0) {
        Some(si) => match spec_insertion(e, f, false) {
            DynamicInsertionResult::Duplicated { relative, postbase, absolute } => {
                lemma_apply_duplicate(relative, t, rest, f);
                lemma_read_post_base(postbase, t2, e.base, rest, f);
            },
            DynamicInsertionResult::Inserted { postbase, absolute } => {
                assert(static_entry(si as int) == Some((static_name(si as int), static_value(si as int))));
                lemma_apply_insert_static(si as usize, f.1, t, rest, (static_name(si as int), static_value(si as int)));
                assert(out.encoder + rest =~= spec_encode_int(6, 0b11, si) + value_bytes(f.1)
                    + rest);
                lemma_read_post_base(postbase, t2, e.base, rest, f);
            },
            DynamicInsertionResult::InsertedWithNameRef { .. } => {},
        },
        None => match spec_insertion(e, f, true) {
            DynamicInsertionResult::Inserted { postbase, absolute } => {
                lemma_apply_insert_literal(f.0, f.1, t, rest);
                assert(out.encoder + rest =~= spec_encode_string(5, 0b01, f.0) + value_bytes(f.1)
                    + rest);
                lemma_read_post_base(postbase, t2, e.base, rest, f);
            },
            DynamicInsertionResult::Duplicated { relative, postbase, absolute } => {
                lemma_apply_duplicate(relative, t, rest, f);
            },
            DynamicInsertionResult::InsertedWithNameRef { postbase, relative, absolute } => {
                lemma_apply_insert_dynamic(relative, f.1, t, rest, t.entries[np]);
                assert(out.encoder + rest =~= spec_encode_int(6, 0b10, relative as nat)
                    + value_bytes(f.1) + rest);
                lemma_read_post_base(postbase, t2, e.base, rest, f);
            },
        },
    }
}

/// What is written for a field, read back: the instruction, if any, turns
/// the decoder's table into the encoder's new table, for every field; and
/// the field line, read against that table with the encoder's base, stands
/// for the field, for every field but those of `duplicated_above_base`.
/// Where the field line refers to no dynamic entry, it stands for the field
/// read with any base.
pub proof fn lemma_encode_field_read(e: EncoderView, f: FieldView, rest: Seq<u8>, b: nat)
    requires
        encoder_ok(e, 1),
        f.0.len() <= usize::MAX,
        f.1.len() <= usize::MAX,
    ensures
        ({
            let out = spec_encode_field(e, f);
            &&& out.encoder.len() == 0 ==> out.table.table == e.table
            &&& out.encoder.len() > 0 ==> spec_apply_instruction(out.encoder + rest, e.table)
                == Some((out.table.table, out.encoder.len()))
            &&& (!duplicated_above_base(e, f) && (b == e.base || out.reference is None))
                ==> spec_read_field_line(out.bloc + rest, out.table.table, b) == Some(
                (f, out.bloc.len()),
            )
        }),
{
    reveal(spec_encode_field);
    reveal(spec_read_field_line);
    reveal(spec_apply_instruction);
    let t = e.table;
    let out = spec_encode_field(e, f);
    lemma_last_field_pos_bound(t.entries, f);
    lemma_static_find_from(f, 0);
    let fp = last_field_pos(t.entries, f);
    if fp >= 0 {
        assert(entry_at(t, t.absolute(fp) as int) == Some(f));
    }
    match static_find(f) {
        Some(i) => {
            lemma_read_int_roundtrip(6, 0b11, i as usize, rest);
        },
        None => match spec_find(e, f) {
            DynamicLookupResult::Relative { index, absolute } => {
                lemma_read_int_roundtrip(6, 0b10, index, rest);
            },
            _ => if spec_can_insert(e, f) {
                lemma_insert_read(e, f, rest);
            } else {
                if b == e.base || out.reference is None {
                    lemma_literal_read(e, f, rest, t, b);
                }
            },
        },
    }
}

/// A field line that refers to no dynamic entry stands for its field read
/// against any table, with any base.
pub proof fn lemma_encode_field_read_static(e: EncoderView, f: FieldView, rest: Seq<u8>, t: TableView, b: nat)
    requires
        encoder_ok(e, 1),
        f.0.len() <= usize::MAX,
        f.1.len() <= usize::MAX,
        spec_encode_field(e, f).reference is None,
    ensures
        spec_read_field_line(spec_encode_field(e, f).bloc + rest, t, b) == Some(
            (f, spec_encode_field(e, f).bloc.len()),
        ),
{
    reveal(spec_encode_field);
    reveal(spec_read_field_line);
    lemma_static_find_from(f, 0);
    match static_find(f) {
        Some(i) => {
            lemma_read_int_roundtrip(6, 0b11, i as usize, rest);
        },
        None => {
            lemma_last_field_pos_bound(e.table.entries, f);
            if spec_find(e, f) is Relative || spec_can_insert(e, f) {
                lemma_encode_field_facts(e, f);
                assert(spec_encode_field_insert(e, f).reference is Some) by {
                    lemma_static_find_name_from(f.0, 0);
                }
            } else {
                lemma_literal_read(e, f, rest, t, b);
            }
        },
    }
}

/// Reads field lines from `s` until it ends, against table `t` with base
/// `base`.
pub open spec fn spec_read_field_lines(s: Seq<u8>, t: TableView, base: nat) -> Option<Seq<FieldView>>
    decreases s.len(),
{
    if s.len() == 0 {
        Some(Seq::empty())
    } else {
        match spec_read_field_line(s, t, base) {
            Some((f, n)) => if 0 < n <= s.len() {
                match spec_read_field_lines(s.skip(n as int), t, base) {
                    Some(fs) => Some(seq![f] + fs),
                    None => None,
                }
            } else {
                None
            },
            None => None,
        }
    }
}

/// Applies the encoder-stream instructions of `s`, until it ends, to table
/// `t`.
pub open spec fn spec_apply_instructions(s: Seq<u8>, t: TableView) -> Option<TableView>
    decreases s.len(),
{
    if s.len() == 0 {
        Some(t)
    } else {
        match spec_apply_instruction(s, t) {
            Some((t2, n)) => if 0 < n <= s.len() {
                spec_apply_instructions(s.skip(n as int), t2)
            } else {
                None
            },
            None => None,
        }
    }
}

/// Table `t2` holds the entries of `t1`, under the same absolute indices,
/// and maybe more after them.
pub open spec fn extends(t2: TableView, t1: TableView) -> bool {
    &&& t2.dropped == t1.dropped
    &&& t1.entries.len() <= t2.entries.len()
    &&& forall|i: int| 0 <= i < t1.entries.len() ==> #[trigger] t2.entries[i] == t1.entries[i]
}

/// No field of `fields` is a case of `duplicated_above_base` when its turn
/// comes.
pub open spec fn block_avoids_duplicates(e: EncoderView, fields: Seq<FieldView>) -> bool
    decreases fields.len(),
{
    fields.len() == 0 || (block_avoids_duplicates(e, fields.drop_last())
        && !duplicated_above_base(spec_encode_fields(e, fields.drop_last()).table, fields.last()))
}

/// The octet strings of every field fit in a `usize`.
pub open spec fn fields_fit(fields: Seq<FieldView>) -> bool {
    forall|i: int|
        0 <= i < fields.len() ==> (#[trigger] fields[i]).0.len() <= usize::MAX && fields[i].1.len()
            <= usize::MAX
}

#[verifier::rlimit(40)]
proof fn lemma_read_field_line_extends(s: Seq<u8>, t1: TableView, t2: TableView, base: nat)
    requires
        extends(t2, t1),
        spec_read_field_line(s, t1, base) is Some,
    ensures
        spec_read_field_line(s, t2, base) == spec_read_field_line(s, t1, base),
{
    reveal(spec_read_field_line);
    reveal(spec_apply_instruction);
    assert forall|abs: int| #[trigger] entry_at(t1, abs) is Some implies entry_at(t2, abs) == entry_at(
        t1,
        abs,
    ) by {
        assert(t2.entries[abs - t1.dropped - 1] == t1.entries[abs - t1.dropped - 1]);
    }
}

pub(crate) proof fn lemma_encode_fields_facts(e: EncoderView, fields: Seq<FieldView>)
    requires
        encoder_ok(e, fields.len()),
    ensures
        ({
            let out = spec_encode_fields(e, fields);
            &&& out.table.base == e.base
            &&& out.table.table.max_mem_size == e.table.max_mem_size
            &&& out.table.table.total() <= e.table.total() + fields.len()
            &&& encoder_ok(out.table, 0)
            &&& extends(out.table.table, e.table)
            &&& e.table.total() + out.encoder.len() >= out.table.table.total()
        }),
    decreases fields.len(),
{
    if fields.len() > 0 {
        let init = fields.drop_last();
        lemma_encode_fields_facts(e, init);
        let prev = spec_encode_fields(e, init);
        lemma_encode_field_facts(prev.table, fields.last());
    }
}

proof fn lemma_apply_one(s: Seq<u8>, rest: Seq<u8>, t: TableView, t2: TableView)
    requires
        s.len() > 0,
        spec_apply_instruction(s + rest, t) == Some((t2, s.len())),
    ensures
        spec_apply_instructions(s + rest, t) == spec_apply_instructions(rest, t2),
{
    assert((s + rest).skip(s.len() as int) =~= rest);
}

proof fn lemma_read_one(s: Seq<u8>, rest: Seq<u8>, t: TableView, base: nat, f: FieldView)
    requires
        s.len() > 0,
        spec_read_field_line(s + rest, t, base) == Some((f, s.len())),
    ensures
        spec_read_field_lines(s + rest, t, base) == (match spec_read_field_lines(rest, t, base) {
            Some(fs) => Some(seq![f] + fs),
            None => None,
        }),
{
    assert((s + rest).skip(s.len() as int) =~= rest);
}

/// What is written for a list of fields, read back: the instructions turn
/// the decoder's table into the encoder's new table, and the field lines,
/// read against any table that extends it, with the encoder's base, stand
/// for the fields, in order; whatever follows the instructions and the
/// field lines is read after them. This holds where no field is a case of
/// `duplicated_above_base`.
pub proof fn lemma_encode_fields_read(
    e: EncoderView,
    fields: Seq<FieldView>,
    rest_bloc: Seq<u8>,
    rest_encoder: Seq<u8>,
    t: TableView,
    b: nat,
)
    requires
        encoder_ok(e, fields.len()),
        fields_fit(fields),
        block_avoids_duplicates(e, fields),
        extends(t, spec_encode_fields(e, fields).table.table),
        b == e.base || spec_encode_fields(e, fields).required == 0,
    ensures
        ({
            let out = spec_encode_fields(e, fields);
            &&& spec_apply_instructions(out.encoder + rest_encoder, e.table)
                == spec_apply_instructions(rest_encoder, out.table.table)
            &&& spec_read_field_lines(out.bloc + rest_bloc, t, b) == (match spec_read_field_lines(
                rest_bloc,
                t,
                b,
            ) {
                Some(fs) => Some(fields + fs),
                None => None,
            })
        }),
    decreases fields.len(),
{
    let out = spec_encode_fields(e, fields);
    if fields.len() == 0 {
        assert(out.encoder + rest_encoder =~= rest_encoder);
        assert(out.bloc + rest_bloc =~= rest_bloc);
        match spec_read_field_lines(rest_bloc, t, b) {
            Some(fs) => {
                assert(fields + fs =~= fs);
            },
            None => {},
        }
    } else {
        let init = fields.drop_last();
        let f = fields.last();
        let prev = spec_encode_fields(e, init);
        let step = spec_encode_field(prev.table, f);
        lemma_encode_fields_facts(e, init);
        lemma_encode_field_facts(prev.table, f);
        assert(fields_fit(init)) by {
            assert forall|i: int| 0 <= i < init.len() implies (#[trigger] init[i]).0.len()
                <= usize::MAX && init[i].1.len() <= usize::MAX by {
                assert(init[i] == fields[i]);
            }
        }
        assert(f == fields[fields.len() - 1]);
        assert(extends(t, prev.table.table));
        lemma_encode_fields_required(e, init);
        lemma_encode_fields_read(e, init, step.bloc + rest_bloc, step.encoder + rest_encoder, t, b);
        lemma_encode_field_read(prev.table, f, rest_bloc, b);
        lemma_encode_field_read(prev.table, f, rest_encoder, b);
        assert(out.encoder + rest_encoder =~= prev.encoder + (step.encoder + rest_encoder));
        assert(out.bloc + rest_bloc =~= prev.bloc + (step.bloc + rest_bloc));
        if step.encoder.len() > 0 {
            lemma_apply_one(step.encoder, rest_encoder, prev.table.table, step.table.table);
        } else {
            assert(step.encoder + rest_encoder =~= rest_encoder);
        }
        lemma_read_field_line_extends(step.bloc + rest_bloc, step.table.table, t, b);
        lemma_read_one(step.bloc, rest_bloc, t, b, f);
        match spec_read_field_lines(rest_bloc, t, b) {
            Some(fs) => {
                assert(init + (seq![f] + fs) =~= fields + fs);
            },
            None => {},
        }
    }
}

/// Applying the instructions written for a list of fields to the
/// decoder's copy of the table gives the encoder's new table, for every
/// list of fields; whatever follows the instructions is applied after them.
pub proof fn lemma_encode_fields_apply(e: EncoderView, fields: Seq<FieldView>, rest: Seq<u8>)
    requires
        encoder_ok(e, fields.len()),
        fields_fit(fields),
    ensures
        ({
            let out = spec_encode_fields(e, fields);
            spec_apply_instructions(out.encoder + rest, e.table) == spec_apply_instructions(
                rest,
                out.table.table,
            )
        }),
    decreases fields.len(),
{
    let out = spec_encode_fields(e, fields);
    if fields.len() == 0 {
        assert(out.encoder + rest =~= rest);
    } else {
        let init = fields.drop_last();
        let f = fields.last();
        let prev = spec_encode_fields(e, init);
        let step = spec_encode_field(prev.table, f);
        lemma_encode_fields_facts(e, init);
        lemma_encode_field_facts(prev.table, f);
        assert(fields_fit(init)) by {
            assert forall|i: int| 0 <= i < init.len() implies (#[trigger] init[i]).0.len()
                <= usize::MAX && init[i].1.len() <= usize::MAX by {
                assert(init[i] == fields[i]);
            }
        }
        assert(f == fields[fields.len() - 1]);
        lemma_encode_fields_apply(e, init, step.encoder + rest);
        lemma_encode_field_read(prev.table, f, rest, e.base);
        assert(out.encoder + rest =~= prev.encoder + (step.encoder + rest));
        if step.encoder.len() > 0 {
            lemma_apply_one(step.encoder, rest, prev.table.table, step.table.table);
        } else {
            assert(step.encoder + rest =~= rest);
        }
    }
}

proof fn lemma_entries_size_lower(entries: Seq<FieldView>)
    ensures
        entries_size(entries) >= 32 * entries.len(),
    decreases entries.len(),
{
    if entries.len() > 0 {
        lemma_entries_size_lower(entries.drop_last());
    }
}

pub(crate) proof fn lemma_encode_fields_required(e: EncoderView, fields: Seq<FieldView>)
    requires
        encoder_ok(e, fields.len()),
    ensures
        ({
            let out = spec_encode_fields(e, fields);
            out.required == 0 || out.table.table.dropped < out.required <= out.table.table.total()
        }),
    decreases fields.len(),
{
    if fields.len() > 0 {
        let init = fields.drop_last();
        lemma_encode_fields_required(e, init);
        lemma_encode_fields_facts(e, init);
        let prev = spec_encode_fields(e, init);
        lemma_encode_field_facts(prev.table, fields.last());
    }
}

/// A decoder that has applied the instructions written for a header
/// block reads back, from the block's prefix, the Required Insert Count
/// that `encode` returns and the encoder's base, or 0 and 0 for a block
/// that refers to no dynamic entry.
pub proof fn lemma_encode_prefix_read(e: EncoderView, fields: Seq<FieldView>)
    requires
        encoder_ok(e, fields.len()),
    ensures
        ({
            let out = spec_encode_fields(e, fields);
            spec_prefix_get(
                spec_header_prefix(out.required as nat, e.base, e.table.max_mem_size),
                out.table.table.total(),
                e.table.max_mem_size,
            ) == Ok::<(usize, usize), ParseError>(
                if out.required == 0 {
                    (0usize, 0usize)
                } else {
                    (out.required, e.base as usize)
                },
            )
        }),
{
    let out = spec_encode_fields(e, fields);
    let t = out.table.table;
    lemma_encode_fields_required(e, fields);
    lemma_encode_fields_facts(e, fields);
    lemma_entries_size_lower(t.entries);
    let max = e.table.max_mem_size;
    assert(t.entries.len() * 32 <= max);
    assert(t.entries.len() <= max / 32) by {
        vstd::arithmetic::div_mod::lemma_fundamental_div_mod(max as int, 32);
    }
    if max / 32 > 0 {
        lemma_header_prefix_roundtrip(out.required as nat, e.base, t.total(), max);
    }
}

/// Reads a header block against table `t`: its prefix, read with the
/// number of insertions into `t` and `t`'s capacity, gives the Required
/// Insert Count, which `t` must have reached, and the base; the field
/// lines that follow are read against `t` with that base.
pub open spec fn spec_read_header_block(s: Seq<u8>, t: TableView) -> Option<Seq<FieldView>> {
    match spec_decode_header_prefix(s) {
        Ok((p, n)) => match spec_prefix_get(p, t.total(), t.max_mem_size) {
            Ok((ric, base)) => if ric <= t.total() {
                spec_read_field_lines(s.skip(n as int), t, base as nat)
            } else {
                None
            },
            Err(_) => None,
        },
        Err(_) => None,
    }
}

/// A decoder whose table is the encoder's table when the block began, and
/// that applies the instructions `encode` writes to the encoder stream,
/// ends with the encoder's new table, for every list of fields; and it
/// reads back from the header block `encode` writes (the prefix, then the
/// field lines) the fields that were encoded, where no field is a case of
/// `duplicated_above_base`.
pub proof fn lemma_encode_block_roundtrip(e: EncoderView, fields: Seq<FieldView>)
    requires
        encoder_ok(e, fields.len()),
        fields_fit(fields),
    ensures
        ({
            let out = spec_encode_fields(e, fields);
            let block = spec_header_prefix(
                out.required as nat,
                e.base,
                e.table.max_mem_size,
            ).spec_bytes() + out.bloc;
            &&& spec_apply_instructions(out.encoder, e.table) == Some(out.table.table)
            &&& block_avoids_duplicates(e, fields) ==> spec_read_header_block(
                block,
                out.table.table,
            ) == Some(fields)
        }),
{
    let out = spec_encode_fields(e, fields);
    let p = spec_header_prefix(out.required as nat, e.base, e.table.max_mem_size);
    let block = p.spec_bytes() + out.bloc;
    let empty = Seq::<u8>::empty();
    lemma_encode_fields_facts(e, fields);
    lemma_encode_fields_required(e, fields);
    lemma_encode_prefix_read(e, fields);
    lemma_header_prefix_bytes_roundtrip(p, out.bloc);
    assert(block.skip(p.spec_bytes().len() as int) =~= out.bloc);
    let b: nat = if out.required == 0 {
        0
    } else {
        e.base
    };
    assert(extends(out.table.table, out.table.table));
    lemma_encode_fields_apply(e, fields, empty);
    if block_avoids_duplicates(e, fields) {
        lemma_encode_fields_read(e, fields, empty, empty, out.table.table, b);
    }
    assert(out.encoder + empty =~= out.encoder);
    assert(out.bloc + empty =~= out.bloc);
    assert(fields + Seq::<FieldView>::empty() =~= fields);
}

} // verus!
