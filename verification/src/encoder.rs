//! Encoding a header block: each field becomes a field line in the block,
//! and where it is worth inserting into the dynamic table, an instruction
//! on the encoder stream.
use vstd::prelude::*;
use crate::bloc::{
    HeaderPrefix, Indexed, IndexedWithPostBase, Literal, LiteralWithNameRef,
    LiteralWithPostBaseNameRef, spec_header_prefix,
};
use crate::buf::put_buf;
use crate::dynamic::{
    DynamicInsertionResult, DynamicLookupResult, DynamicTableEncoder, DynamicTableError,
    EncoderView, TableView, lemma_last_field_pos_bound, lemma_last_name_pos_bound, spec_can_insert, spec_find,
    spec_find_name, spec_inserted, spec_insertion, table_wf, last_field_pos, last_name_pos,
};
use crate::bloc::{lemma_header_prefix_bytes_roundtrip, spec_decode_header_prefix, spec_prefix_get, ParseError};
use crate::decoding::{
    block_avoids_duplicates, fields_fit, lemma_encode_block_roundtrip, lemma_encode_fields_facts,
    lemma_encode_fields_required, lemma_encode_prefix_read, spec_apply_instructions,
    spec_read_header_block, duplicated_above_base, entry_at, lemma_encode_field_read, lemma_encode_field_read_static,
    lemma_insert_read, lemma_literal_read, spec_apply_instruction, spec_read_field_line,
};
use crate::field::{FieldView, HeaderField};
use crate::prefix_int::spec_encode_int;
use crate::prefix_string::{spec_encode_string, StringError};
use crate::static_table::{static_find, static_find_name, StaticTable};
use crate::stream::{Duplicate, InsertWithNameRef, InsertWithoutNameRef};
use vstd::std_specs::convert::FromSpecImpl;

verus! {

/// What encoding one field gives: the encoder's new state, the field line
/// for the block, the instruction for the encoder stream, and the absolute
/// index of the dynamic entry the field line refers to, if any.
pub struct FieldOutput {
    pub table: EncoderView,
    pub bloc: Seq<u8>,
    pub encoder: Seq<u8>,
    pub reference: Option<usize>,
}

/// What encoding a list of fields gives: the encoder's new state, the field
/// lines, the encoder-stream instructions, and the highest absolute index
/// the field lines refer to (0 where they refer to none).
pub struct BlockOutput {
    pub table: EncoderView,
    pub bloc: Seq<u8>,
    pub encoder: Seq<u8>,
    pub required: usize,
}

/// A value as a string with a 7-bit length prefix.
pub open spec fn value_bytes(v: Seq<u8>) -> Seq<u8> {
    spec_encode_string(7, 0, v)
}

/// The literal field line for `f` and the dynamic entry it names, if any:
/// by a static name where there is one, else by the newest dynamic entry of
/// that name, else with a literal name.
pub open spec fn spec_encode_field_literal(e: EncoderView, f: FieldView) -> (Seq<u8>, Option<usize>) {
    match static_find_name(f.0) {
        Some(i) => (spec_encode_int(4, 0b0101, i) + value_bytes(f.1), None),
        None => match spec_find_name(e, f.0) {
            DynamicLookupResult::Relative { index, absolute } => (
                spec_encode_int(4, 0b0100, index as nat) + value_bytes(f.1),
                Some(absolute),
            ),
            DynamicLookupResult::PostBase { index, absolute } => (
                spec_encode_int(3, 0b0000, index as nat) + value_bytes(f.1),
                Some(absolute),
            ),
            DynamicLookupResult::NotFound => (
                spec_encode_string(3, 0b0010, f.0) + value_bytes(f.1),
                None,
            ),
        },
    }
}

/// Inserting `f` into the dynamic table: the instruction that does it and
/// the field line that refers to the new entry.
pub open spec fn spec_encode_field_insert(e: EncoderView, f: FieldView) -> FieldOutput {
    let after = spec_inserted(e, f);
    match static_find_name(f.0) {
        Some(si) => match spec_insertion(e, f, false) {
            DynamicInsertionResult::Duplicated { relative, postbase, absolute } => FieldOutput {
                table: after,
                bloc: spec_encode_int(4, 0b0001, postbase as nat),
                encoder: spec_encode_int(5, 0b000, relative as nat),
                reference: Some(absolute),
            },
            DynamicInsertionResult::Inserted { postbase, absolute } => FieldOutput {
                table: after,
                bloc: spec_encode_int(4, 0b0001, postbase as nat),
                encoder: spec_encode_int(6, 0b11, si) + value_bytes(f.1),
                reference: Some(absolute),
            },
            DynamicInsertionResult::InsertedWithNameRef { .. } => FieldOutput {
                table: after,
                bloc: Seq::empty(),
                encoder: Seq::empty(),
                reference: None,
            },
        },
        None => match spec_insertion(e, f, true) {
            DynamicInsertionResult::Inserted { postbase, absolute } => FieldOutput {
                table: after,
                bloc: spec_encode_int(4, 0b0001, postbase as nat),
                encoder: spec_encode_string(5, 0b01, f.0) + value_bytes(f.1),
                reference: Some(absolute),
            },
            DynamicInsertionResult::Duplicated { relative, postbase, absolute } => FieldOutput {
                table: after,
                bloc: spec_encode_int(6, 0b10, postbase as nat),
                encoder: spec_encode_int(5, 0b000, relative as nat),
                reference: Some(absolute),
            },
            DynamicInsertionResult::InsertedWithNameRef { postbase, relative, absolute } =>
                FieldOutput {
                table: after,
                bloc: spec_encode_int(4, 0b0001, postbase as nat),
                encoder: spec_encode_int(6, 0b10, relative as nat) + value_bytes(f.1),
                reference: Some(absolute),
            },
        },
    }
}

/// Encoding one field: by a static entry equal to it, else by a dynamic
/// entry equal to it below the base, else by inserting it where it fits,
/// else as a literal.
#[verifier::opaque]
pub open spec fn spec_encode_field(e: EncoderView, f: FieldView) -> FieldOutput {
    match static_find(f) {
        Some(i) => FieldOutput {
            table: e,
            bloc: spec_encode_int(6, 0b11, i),
            encoder: Seq::empty(),
            reference: None,
        },
        None => match spec_find(e, f) {
            DynamicLookupResult::Relative { index, absolute } => FieldOutput {
                table: e,
                bloc: spec_encode_int(6, 0b10, index as nat),
                encoder: Seq::empty(),
                reference: Some(absolute),
            },
            _ => if spec_can_insert(e, f) {
                spec_encode_field_insert(e, f)
            } else {
                FieldOutput {
                    table: e,
                    bloc: spec_encode_field_literal(e, f).0,
                    encoder: Seq::empty(),
                    reference: spec_encode_field_literal(e, f).1,
                }
            },
        },
    }
}

/// Encoding `fields` one after the other.
pub open spec fn spec_encode_fields(e: EncoderView, fields: Seq<FieldView>) -> BlockOutput
    decreases fields.len(),
{
    if fields.len() == 0 {
        BlockOutput { table: e, bloc: Seq::empty(), encoder: Seq::empty(), required: 0 }
    } else {
        let prev = spec_encode_fields(e, fields.drop_last());
        let out = spec_encode_field(prev.table, fields.last());
        BlockOutput {
            table: out.table,
            bloc: prev.bloc + out.bloc,
            encoder: prev.encoder + out.encoder,
            required: match out.reference {
                Some(a) => if a > prev.required {
                    a
                } else {
                    prev.required
                },
                None => prev.required,
            },
        }
    }
}

/// The field line written for each of `fields`, in order, each encoded
/// with the encoder's state after the fields before it.
pub open spec fn spec_field_lines(e: EncoderView, fields: Seq<FieldView>) -> Seq<Seq<u8>> {
    Seq::new(
        fields.len(),
        |i: int| spec_encode_field(spec_encode_fields(e, fields.take(i)).table, fields[i]).bloc,
    )
}

/// The instruction bytes written for each of `fields`, in order (empty for
/// a field that is not inserted).
pub open spec fn spec_field_instructions(e: EncoderView, fields: Seq<FieldView>) -> Seq<Seq<u8>> {
    Seq::new(
        fields.len(),
        |i: int| spec_encode_field(spec_encode_fields(e, fields.take(i)).table, fields[i]).encoder,
    )
}

/// The field lines of a list of fields are the field line of each field,
/// one after the other in the order of the fields, and nothing else; so are
/// its instructions.
pub proof fn lemma_encode_fields_lines(e: EncoderView, fields: Seq<FieldView>)
    ensures
        spec_encode_fields(e, fields).bloc == spec_field_lines(e, fields).flatten(),
        spec_encode_fields(e, fields).encoder == spec_field_instructions(e, fields).flatten(),
    decreases fields.len(),
{
    let lines = spec_field_lines(e, fields);
    let instrs = spec_field_instructions(e, fields);
    if fields.len() == 0 {
        assert(lines =~= Seq::<Seq<u8>>::empty());
        assert(instrs =~= Seq::<Seq<u8>>::empty());
    } else {
        let init = fields.drop_last();
        lemma_encode_fields_lines(e, init);
        assert(lines.drop_last() =~= spec_field_lines(e, init)) by {
            assert forall|i: int| 0 <= i < init.len() implies fields.take(i) == init.take(i) by {
                assert(fields.take(i) =~= init.take(i));
            }
        }
        assert(instrs.drop_last() =~= spec_field_instructions(e, init)) by {
            assert forall|i: int| 0 <= i < init.len() implies fields.take(i) == init.take(i) by {
                assert(fields.take(i) =~= init.take(i));
            }
        }
        assert(fields.take(fields.len() - 1) =~= init);
        lines.lemma_flatten_and_flatten_alt_are_equivalent();
        instrs.lemma_flatten_and_flatten_alt_are_equivalent();
        spec_field_lines(e, init).lemma_flatten_and_flatten_alt_are_equivalent();
        spec_field_instructions(e, init).lemma_flatten_and_flatten_alt_are_equivalent();
    }
}

/// The absolute index of the dynamic entry that the field line of
/// `fields[i]` refers to, if any.
pub open spec fn spec_field_reference(e: EncoderView, fields: Seq<FieldView>, i: int) -> Option<usize> {
    spec_encode_field(spec_encode_fields(e, fields.take(i)).table, fields[i]).reference
}

/// The Required Insert Count of a list of fields is the greatest absolute
/// index that one of its field lines refers to, and 0 where none refers to
/// a dynamic entry.
pub proof fn lemma_encode_fields_required_max(e: EncoderView, fields: Seq<FieldView>)
    requires
        encoder_ok(e, fields.len()),
    ensures
        ({
            let required = spec_encode_fields(e, fields).required;
            &&& forall|i: int|
                0 <= i < fields.len() ==> (#[trigger] spec_field_reference(e, fields, i) matches Some(
                    a,
                ) ==> 0 < a <= required)
            &&& required == 0 <==> forall|i: int|
                0 <= i < fields.len() ==> #[trigger] spec_field_reference(e, fields, i) is None
            &&& required != 0 ==> exists|i: int|
                0 <= i < fields.len() && #[trigger] spec_field_reference(e, fields, i) == Some(
                    required,
                )
        }),
    decreases fields.len(),
{
    if fields.len() > 0 {
        let init = fields.drop_last();
        let n = fields.len() - 1;
        lemma_encode_fields_required_max(e, init);
        lemma_encode_fields_facts(e, init);
        let prev = spec_encode_fields(e, init);
        lemma_encode_field_facts(prev.table, fields.last());
        assert forall|i: int| 0 <= i < init.len() implies spec_field_reference(e, fields, i)
            == spec_field_reference(e, init, i) by {
            assert(fields.take(i) =~= init.take(i));
        }
        assert(fields.take(n) =~= init);
        assert(spec_field_reference(e, fields, n) == spec_encode_field(prev.table, fields.last()).reference);
        let required = spec_encode_fields(e, fields).required;
        if required != 0 {
            if spec_field_reference(e, fields, n) == Some(required) {
            } else {
                let j = choose|j: int| 0 <= j < init.len() && #[trigger] spec_field_reference(e, init, j) == Some(
                    prev.required,
                );
                assert(spec_field_reference(e, fields, j) == Some(required));
            }
        }
    }
}

/// The views of a list of fields.
pub open spec fn fields_view(fields: Seq<HeaderField>) -> Seq<FieldView> {
    fields.map_values(|f: HeaderField| f@)
}

/// An encoder whose table is well formed, whose base is at most the
/// number of inserted fields, and that can take `n` more insertions.
pub open spec fn encoder_ok(e: EncoderView, n: nat) -> bool {
    &&& table_wf(e.table)
    &&& e.base <= e.table.total()
    &&& e.table.total() + n < usize::MAX
}

/// Encoding one field keeps the table's evicted count, capacity and base,
/// adds at most one entry, keeps the table well formed, and refers to an
/// entry that exists.
pub proof fn lemma_encode_field_facts(e: EncoderView, f: FieldView)
    requires
        encoder_ok(e, 1),
    ensures
        ({
            let out = spec_encode_field(e, f);
            &&& out.table.base == e.base
            &&& out.table.table.dropped == e.table.dropped
            &&& out.table.table.max_mem_size == e.table.max_mem_size
            &&& out.table.table.total() == e.table.total() || out.table.table.total()
                == e.table.total() + 1
            &&& encoder_ok(out.table, 0)
            &&& out.reference matches Some(a) ==> out.table.table.dropped < a
                <= out.table.table.total()
            &&& out.table == e || out.table == spec_inserted(e, f)
            &&& out.bloc.len() > 0
            &&& out.encoder.len() > 0 <==> out.table.table.total() == e.table.total() + 1
            &&& out.encoder.len() == 0 ==> out.table == e
            &&& out.reference matches Some(a) ==> (entry_at(out.table.table, a as int) matches Some(
                g,
            ) && g.0 == f.0)
        }),
{
    reveal(spec_encode_field);
    let out = spec_encode_field(e, f);
    lemma_last_field_pos_bound(e.table.entries, f);
    lemma_last_name_pos_bound(e.table.entries, f.0);
    if static_find(f) is None && !(spec_find(e, f) is Relative) && spec_can_insert(e, f) {
        crate::dynamic::lemma_entries_size_push(e.table.entries, f);
        let t2 = spec_inserted(e, f).table;
        assert(t2.entries.len() == e.table.entries.len() + 1);
        assert(t2.entries[t2.entries.len() - 1] == f);
        assert(out.encoder.len() > 0);
    } else {
        assert(out.encoder.len() == 0);
        let fp = last_field_pos(e.table.entries, f);
        let np = last_name_pos(e.table.entries, f.0);
        if fp >= 0 {
            assert(entry_at(e.table, e.table.absolute(fp) as int) == Some(e.table.entries[fp]));
        }
        if np >= 0 {
            assert(entry_at(e.table, e.table.absolute(np) as int) == Some(e.table.entries[np]));
        }
    }
}

/// A field equal to a static entry is written as that entry's index with a
/// 6-bit prefix under the bits `11`. Otherwise, a field equal to a dynamic
/// entry at or below the base is written, by its newest such entry, as the
/// base minus that entry's absolute index, with a 6-bit prefix under the
/// bits `10`. Either way nothing is inserted and no instruction is written.
pub proof fn lemma_encode_field_indexed(e: EncoderView, f: FieldView)
    requires
        encoder_ok(e, 1),
    ensures
        ({
            let out = spec_encode_field(e, f);
            let p = last_field_pos(e.table.entries, f);
            let abs = e.table.dropped + p + 1;
            &&& static_find(f) matches Some(i) ==> out.bloc == spec_encode_int(6, 0b11, i)
                && out.encoder.len() == 0 && out.table == e && out.reference is None
            &&& (static_find(f) is None && p >= 0 && abs <= e.base) ==> {
                &&& entry_at(e.table, abs) == Some(f)
                &&& out.bloc == spec_encode_int(6, 0b10, (e.base - abs) as nat)
                &&& out.encoder.len() == 0
                &&& out.table == e
                &&& out.reference == Some(abs as usize)
            }
        }),
{
    reveal(spec_encode_field);
    lemma_last_field_pos_bound(e.table.entries, f);
    let p = last_field_pos(e.table.entries, f);
    if p >= 0 {
        assert(entry_at(e.table, e.table.dropped + p + 1) == Some(e.table.entries[p]));
    }
}

/// Encoding a longer list of fields extends the field lines and the
/// instructions of a shorter prefix of it.
pub proof fn lemma_encode_fields_grow(e: EncoderView, fields: Seq<FieldView>, i: int)
    requires
        0 <= i <= fields.len(),
    ensures
        spec_encode_fields(e, fields.take(i)).bloc.len() <= spec_encode_fields(e, fields).bloc.len(),
        spec_encode_fields(e, fields.take(i)).encoder.len() <= spec_encode_fields(
            e,
            fields,
        ).encoder.len(),
    decreases fields.len() - i,
{
    if i == fields.len() {
        assert(fields.take(i) =~= fields);
    } else {
        lemma_encode_fields_grow(e, fields, i + 1);
        assert(fields.take(i + 1).drop_last() =~= fields.take(i));
    }
}

/// Errors in encoding a header block.
#[derive(Debug, Clone, Copy, PartialEq, Eq, Structural)]
pub enum Error {
    Insertion(DynamicTableError),
    InvalidString(StringError),
}

impl From<DynamicTableError> for Error {
    fn from(e: DynamicTableError) -> (r: Self) {
        Error::Insertion(e)
    }
}

impl FromSpecImpl<DynamicTableError> for Error {
    open spec fn obeys_from_spec() -> bool {
        true
    }

    open spec fn from_spec(e: DynamicTableError) -> Self {
        Error::Insertion(e)
    }
}

impl From<StringError> for Error {
    fn from(e: StringError) -> (r: Self) {
        Error::InvalidString(e)
    }
}

impl FromSpecImpl<StringError> for Error {
    open spec fn obeys_from_spec() -> bool {
        true
    }

    open spec fn from_spec(e: StringError) -> Self {
        Error::InvalidString(e)
    }
}

/// Encodes `fields` as a header block: the block's prefix and field lines
/// go to `bloc`, the instructions that fill the dynamic table go to
/// `encoder`. Gives back the Required Insert Count of the block: the
/// highest absolute index of a dynamic entry it refers to, or 0.
pub fn encode(
    table: &mut DynamicTableEncoder,
    bloc: &mut Vec<u8>,
    encoder: &mut Vec<u8>,
    fields: &[HeaderField],
) -> (r: Result<usize, Error>)
    requires
        old(table).wf(),
        encoder_ok(old(table)@, fields@.len()),
        old(bloc)@.len() + spec_header_prefix(
            spec_encode_fields(old(table)@, fields_view(fields@)).required as nat,
            old(table)@.base,
            old(table)@.table.max_mem_size,
        ).spec_bytes().len() + spec_encode_fields(old(table)@, fields_view(fields@)).bloc.len()
            <= isize::MAX,
        old(encoder)@.len() + spec_encode_fields(old(table)@, fields_view(fields@)).encoder.len()
            <= isize::MAX,
    ensures
        ({
            let out = spec_encode_fields(old(table)@, fields_view(fields@));
            &&& final(table).wf()
            &&& final(table)@ == out.table
            &&& r == Ok::<usize, Error>(out.required)
            &&& final(encoder)@ == old(encoder)@ + out.encoder
            &&& final(bloc)@ == old(bloc)@ + spec_header_prefix(
                out.required as nat,
                old(table)@.base,
                old(table)@.table.max_mem_size,
            ).spec_bytes() + out.bloc
        }),
        ({
            let required = spec_encode_fields(old(table)@, fields_view(fields@)).required;
            let added = final(encoder)@.skip(old(encoder)@.len() as int);
            let block = final(bloc)@.skip(old(bloc)@.len() as int);
            let total = final(table)@.table.total();
            &&& final(table)@.base == old(table)@.base
            &&& block == spec_header_prefix(
                required as nat,
                old(table)@.base,
                old(table)@.table.max_mem_size,
            ).spec_bytes() + spec_field_lines(old(table)@, fields_view(fields@)).flatten()
            &&& added == spec_field_instructions(old(table)@, fields_view(fields@)).flatten()
            &&& required <= total
            &&& required > old(table)@.table.total() ==> added.len() > 0
            &&& (spec_decode_header_prefix(block) matches Ok((p, _n)) && spec_prefix_get(
                p,
                total,
                final(table)@.table.max_mem_size,
            ) == Ok::<(usize, usize), ParseError>(
                if required == 0 {
                    (0usize, 0usize)
                } else {
                    (required, old(table)@.base as usize)
                },
            ))
            &&& spec_apply_instructions(added, old(table)@.table) == Some(final(table)@.table)
            &&& block_avoids_duplicates(old(table)@, fields_view(fields@)) ==> spec_read_header_block(
                block,
                final(table)@.table,
            ) == Some(fields_view(fields@))
        }),
{
    let ghost e0 = table@;
    let ghost fs = fields_view(fields@);
    let ghost enc0 = encoder@;
    let mut required_ref: usize = 0;
    let mut bloc_buf: Vec<u8> = Vec::new();
    let mut i: usize = 0;
    assert(fs.take(0) =~= Seq::<FieldView>::empty());
    while i < fields.len()
        invariant
            i <= fields@.len(),
            fs == fields_view(fields@),
            fs.len() == fields@.len(),
            e0.base <= e0.table.total(),
            encoder_ok(e0, fields@.len()),
            table.wf(),
            table@ == spec_encode_fields(e0, fs.take(i as int)).table,
            table@.base == e0.base,
            table@.table.max_mem_size == e0.table.max_mem_size,
            encoder_ok(table@, (fields@.len() - i) as nat),
            required_ref == spec_encode_fields(e0, fs.take(i as int)).required,
            required_ref <= table@.table.total(),
            bloc_buf@ == spec_encode_fields(e0, fs.take(i as int)).bloc,
            encoder@ == enc0 + spec_encode_fields(e0, fs.take(i as int)).encoder,
            spec_encode_fields(e0, fs).bloc.len() <= isize::MAX,
            enc0.len() + spec_encode_fields(e0, fs).encoder.len() <= isize::MAX,
        decreases fields.len() - i,
    {
        proof {
            lemma_encode_fields_grow(e0, fs, i + 1);
            assert(fs.take(i + 1).drop_last() =~= fs.take(i as int));
            assert(fs.take(i + 1).last() == fields@[i as int]@);
            lemma_encode_field_facts(table@, fields@[i as int]@);
        }
        match encode_field(table, &mut bloc_buf, encoder, &fields[i]) {
            Ok(Some(reference)) => {
                if reference > required_ref {
                    required_ref = reference;
                }
            },
            Ok(None) => {},
            Err(e) => {
                return Err(e);
            },
        }
        assert(encoder@ =~= enc0 + spec_encode_fields(e0, fs.take(i + 1)).encoder);
        i = i + 1;
    }
    assert(fs.take(i as int) =~= fs);
    let prefix = HeaderPrefix::new(
        required_ref,
        table.base(),
        table.total_inserted(),
        table.max_mem_size(),
    );
    prefix.encode(bloc);
    put_buf(bloc, bloc_buf.as_slice());
    proof {
        let out = spec_encode_fields(e0, fs);
        let p = spec_header_prefix(out.required as nat, e0.base, e0.table.max_mem_size);
        assert(bloc@.skip(old(bloc)@.len() as int) =~= p.spec_bytes() + out.bloc);
        assert(encoder@.skip(old(encoder)@.len() as int) =~= out.encoder);
        assert(fields_fit(fs)) by {
            assert forall|k: int| 0 <= k < fs.len() implies (#[trigger] fs[k]).0.len()
                <= usize::MAX && fs[k].1.len() <= usize::MAX by {
                assert(fs[k] == fields@[k]@);
                assert(fields@[k].name@.len() == fields@[k].name.len());
                assert(fields@[k].value@.len() == fields@[k].value.len());
            }
        }
        lemma_encode_fields_facts(e0, fs);
        lemma_encode_fields_required(e0, fs);
        lemma_encode_prefix_read(e0, fs);
        lemma_header_prefix_bytes_roundtrip(p, out.bloc);
        lemma_encode_block_roundtrip(e0, fs);
        lemma_encode_fields_lines(e0, fs);
    }
    Ok(required_ref)
}

/// Writes the field line for `field` to `bloc`, and to `encoder` the
/// instruction that inserts it into the dynamic table where it is inserted.
/// Gives back the absolute index of the dynamic entry the field line refers
/// to, if any: an entry with the field's name. At most one entry is added,
/// and instruction bytes are written exactly when one is; applied to the
/// table as it was, they give the new table. The field line, read against
/// the new table with the base, stands for `field` (but in the case of
/// `duplicated_above_base`); where it refers to no dynamic entry, it does
/// so against any table, with any base.
pub fn encode_field(
    table: &mut DynamicTableEncoder,
    bloc: &mut Vec<u8>,
    encoder: &mut Vec<u8>,
    field: &HeaderField,
) -> (r: Result<Option<usize>, Error>)
    requires
        old(table).wf(),
        encoder_ok(old(table)@, 1),
        old(bloc)@.len() + spec_encode_field(old(table)@, field@).bloc.len() <= isize::MAX,
        old(encoder)@.len() + spec_encode_field(old(table)@, field@).encoder.len() <= isize::MAX,
    ensures
        ({
            let out = spec_encode_field(old(table)@, field@);
            &&& final(table).wf()
            &&& final(table)@ == out.table
            &&& r == Ok::<Option<usize>, Error>(out.reference)
            &&& final(bloc)@ == old(bloc)@ + out.bloc
            &&& final(encoder)@ == old(encoder)@ + out.encoder
        }),
        ({
            let added = final(encoder)@.skip(old(encoder)@.len() as int);
            let line = final(bloc)@.skip(old(bloc)@.len() as int);
            let total = final(table)@.table.total();
            &&& final(table)@.base == old(table)@.base
            &&& total == old(table)@.table.total() || total == old(table)@.table.total() + 1
            &&& added.len() > 0 <==> total == old(table)@.table.total() + 1
            &&& added.len() == 0 ==> final(table)@ == old(table)@
            &&& added.len() > 0 ==> spec_apply_instruction(added, old(table)@.table) == Some(
                (final(table)@.table, added.len()),
            )
            &&& r matches Ok(Some(a)) ==> (entry_at(final(table)@.table, a as int) matches Some(g)
                && g.0 == field@.0)
            &&& !duplicated_above_base(old(table)@, field@) ==> spec_read_field_line(
                line,
                final(table)@.table,
                old(table)@.base,
            ) == Some((field@, line.len()))
            &&& r matches Ok(None) ==> forall|t: TableView, b: nat|
                #[trigger] spec_read_field_line(line, t, b) == Some((field@, line.len()))
        }),
{
    reveal(spec_encode_field);
    let r = if let Some(index) = StaticTable::find(field) {
        Indexed::Static(index).encode(bloc);
        Ok(None)
    } else if let DynamicLookupResult::Relative { index, absolute } = table.find(field) {
        Indexed::Dynamic(index).encode(bloc);
        Ok(Some(absolute))
    } else if table.can_insert(field) {
        encode_field_insert(table, bloc, encoder, field)
    } else {
        encode_field_literal(table, bloc, field)
    };
    proof {
        let e = old(table)@;
        let f = field@;
        let out = spec_encode_field(e, f);
        let empty = Seq::<u8>::empty();
        assert(encoder@ =~= old(encoder)@ + out.encoder);
        assert(field.name@.len() == field.name.len());
        assert(field.value@.len() == field.value.len());
        lemma_encode_field_facts(e, f);
        lemma_encode_field_read(e, f, empty, e.base);
        assert(out.encoder + empty =~= out.encoder);
        assert(out.bloc + empty =~= out.bloc);
        assert(encoder@.skip(old(encoder)@.len() as int) =~= out.encoder);
        assert(bloc@.skip(old(bloc)@.len() as int) =~= out.bloc);
        if out.reference is None {
            assert forall|t: TableView, b: nat|
                #[trigger] spec_read_field_line(out.bloc + empty, t, b) == Some(
                    (f, out.bloc.len()),
                ) by {
                lemma_encode_field_read_static(e, f, empty, t, b);
            }
        }
    }
    r
}

/// Inserts `field` into the dynamic table where it fits, writing to
/// `encoder` the instruction that does so (a duplicate of an equal entry,
/// else an insertion naming the static entry or the newest dynamic entry of
/// its name, else one with a literal name) and to `bloc` a field line that
/// refers to the new entry by its post-base index. Gives back the new
/// entry's absolute index. Applied to the table as it was, the instruction
/// gives the new table. Where the field's name is not in the static table
/// and an equal entry exists, the field line is an indexed line that takes
/// the post-base index for one relative to the base; otherwise it stands
/// for `field`, read against the new table with the base.
pub fn encode_field_insert(
    table: &mut DynamicTableEncoder,
    bloc: &mut Vec<u8>,
    encoder: &mut Vec<u8>,
    field: &HeaderField,
) -> (r: Result<Option<usize>, Error>)
    requires
        old(table).wf(),
        encoder_ok(old(table)@, 1),
        old(bloc)@.len() + spec_encode_field_insert(old(table)@, field@).bloc.len() <= isize::MAX,
        old(encoder)@.len() + spec_encode_field_insert(old(table)@, field@).encoder.len()
            <= isize::MAX,
    ensures
        final(table).wf(),
        spec_can_insert(old(table)@, field@) ==> ({
            let out = spec_encode_field_insert(old(table)@, field@);
            let added = final(encoder)@.skip(old(encoder)@.len() as int);
            let line = final(bloc)@.skip(old(bloc)@.len() as int);
            &&& final(table)@ == out.table
            &&& r == Ok::<Option<usize>, Error>(out.reference)
            &&& final(bloc)@ == old(bloc)@ + out.bloc
            &&& final(encoder)@ == old(encoder)@ + out.encoder
            &&& final(table)@ == spec_inserted(old(table)@, field@)
            &&& final(table)@.table.total() == old(table)@.table.total() + 1
            &&& final(table)@.base == old(table)@.base
            &&& final(table)@.base < final(table)@.table.total()
            &&& r == Ok::<Option<usize>, Error>(Some(final(table)@.table.total() as usize))
            &&& entry_at(final(table)@.table, final(table)@.table.total() as int) == Some(field@)
            &&& added.len() > 0
            &&& spec_apply_instruction(added, old(table)@.table) == Some(
                (final(table)@.table, added.len()),
            )
            &&& !(static_find_name(field@.0) is None && last_field_pos(
                old(table)@.table.entries,
                field@,
            ) >= 0) ==> spec_read_field_line(line, final(table)@.table, old(table)@.base) == Some(
                (field@, line.len()),
            )
        }),
        !spec_can_insert(old(table)@, field@) ==> r == Err::<Option<usize>, Error>(
            Error::Insertion(DynamicTableError::MaxTableSizeReached),
        ) && final(table)@ == old(table)@ && final(bloc)@ == old(bloc)@ && final(encoder)@ == old(
            encoder,
        )@,
{
    let r = if let Some(static_index) = StaticTable::find_name(field.name.as_slice()) {
        match table.insert_static(field) {
            Ok(DynamicInsertionResult::Duplicated { relative, postbase, absolute }) => {
                Duplicate(relative).encode(encoder);
                IndexedWithPostBase(postbase).encode(bloc);
                Ok(Some(absolute))
            },
            Ok(DynamicInsertionResult::Inserted { postbase, absolute }) => {
                InsertWithNameRef::new_static(static_index, field.value.as_slice()).encode(encoder);
                IndexedWithPostBase(postbase).encode(bloc);
                Ok(Some(absolute))
            },
            Ok(DynamicInsertionResult::InsertedWithNameRef { .. }) => {
                proof {
                    assert(false);
                }
                Ok(None)
            },
            Err(e) => Err(Error::from(e)),
        }
    } else {
        match table.insert(field) {
            Ok(DynamicInsertionResult::Inserted { postbase, absolute }) => {
                InsertWithoutNameRef::new(field.name.as_slice(), field.value.as_slice()).encode(
                    encoder,
                );
                IndexedWithPostBase(postbase).encode(bloc);
                Ok(Some(absolute))
            },
            Ok(DynamicInsertionResult::Duplicated { relative, postbase, absolute }) => {
                Duplicate(relative).encode(encoder);
                Indexed::Dynamic(postbase).encode(bloc);
                Ok(Some(absolute))
            },
            Ok(DynamicInsertionResult::InsertedWithNameRef { postbase, relative, absolute }) => {
                InsertWithNameRef::new_dynamic(relative, field.value.as_slice()).encode(encoder);
                IndexedWithPostBase(postbase).encode(bloc);
                Ok(Some(absolute))
            },
            Err(e) => Err(Error::from(e)),
        }
    };
    proof {
        let e = old(table)@;
        let f = field@;
        if spec_can_insert(e, f) {
            let out = spec_encode_field_insert(e, f);
            let empty = Seq::<u8>::empty();
            assert(field.name@.len() == field.name.len());
            assert(field.value@.len() == field.value.len());
            lemma_insert_read(e, f, empty);
            assert(out.encoder + empty =~= out.encoder);
            assert(out.bloc + empty =~= out.bloc);
            assert(encoder@.skip(old(encoder)@.len() as int) =~= out.encoder);
            assert(bloc@.skip(old(bloc)@.len() as int) =~= out.bloc);
            let t2 = spec_inserted(e, f).table;
            assert(t2.entries[t2.entries.len() - 1] == f);
        }
    }
    r
}

/// Writes `field` to `bloc` as a literal field line: naming a static entry
/// where its name is in the static table, else the newest dynamic entry of
/// that name, else with a literal name. Gives back the absolute index of
/// the dynamic entry it names, if any. The table is left as it is; read
/// against it with its base, the field line stands for `field`, and where
/// it names no dynamic entry, it does so against any table.
pub fn encode_field_literal(table: &DynamicTableEncoder, bloc: &mut Vec<u8>, field: &HeaderField) -> (r:
    Result<Option<usize>, Error>)
    requires
        table.wf(),
        old(bloc)@.len() + spec_encode_field_literal(table@, field@).0.len() <= isize::MAX,
    ensures
        r == Ok::<Option<usize>, Error>(spec_encode_field_literal(table@, field@).1),
        final(bloc)@ == old(bloc)@ + spec_encode_field_literal(table@, field@).0,
        spec_read_field_line(final(bloc)@.skip(old(bloc)@.len() as int), table@.table, table@.base)
            == Some((field@, (final(bloc)@.len() - old(bloc)@.len()) as nat)),
        r matches Ok(Some(a)) ==> (entry_at(table@.table, a as int) matches Some(g) && g.0
            == field@.0),
        r matches Ok(None) ==> forall|t: TableView, b: nat|
            #[trigger] spec_read_field_line(final(bloc)@.skip(old(bloc)@.len() as int), t, b)
                == Some((field@, (final(bloc)@.len() - old(bloc)@.len()) as nat)),
{
    let reference = if let Some(static_index) = StaticTable::find_name(field.name.as_slice()) {
        LiteralWithNameRef::new_static(static_index, field.value.as_slice()).encode(bloc);
        None
    } else {
        match table.find_name(field.name.as_slice()) {
            DynamicLookupResult::Relative { index, absolute } => {
                LiteralWithNameRef::new_dynamic(index, field.value.as_slice()).encode(bloc);
                Some(absolute)
            },
            DynamicLookupResult::PostBase { index, absolute } => {
                LiteralWithPostBaseNameRef::new(index, field.value.as_slice()).encode(bloc);
                Some(absolute)
            },
            DynamicLookupResult::NotFound => {
                Literal::new(field.name.as_slice(), field.value.as_slice()).encode(bloc);
                None
            },
        }
    };
    proof {
        let e = table@;
        let f = field@;
        let bytes = spec_encode_field_literal(e, f).0;
        let empty = Seq::<u8>::empty();
        table.lemma_view_wf();
        assert(field.name@.len() == field.name.len());
        assert(field.value@.len() == field.value.len());
        assert(bloc@.skip(old(bloc)@.len() as int) =~= bytes + empty);
        lemma_literal_read(e, f, empty, e.table, e.base);
        let np = last_name_pos(e.table.entries, f.0);
        lemma_last_name_pos_bound(e.table.entries, f.0);
        if np >= 0 {
            assert(entry_at(e.table, e.table.absolute(np) as int) == Some(e.table.entries[np]));
        }
        if reference is None {
            assert forall|t: TableView, b: nat|
                #[trigger] spec_read_field_line(bytes + empty, t, b) == Some(
                    (f, bytes.len()),
                ) by {
                lemma_literal_read(e, f, empty, t, b);
            }
        }
    }
    Ok(reference)
}

} // verus!
