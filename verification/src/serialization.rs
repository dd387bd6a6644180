//! Timestamped rows of values on the wire.
//!
//! A row is the timestamp in eight bytes and then the fields, each as wide as its declared
//! type, all little-endian.

use vstd::prelude::*;

use crate::double::Double;
use crate::dtype::{carried, decodes_to, dtype_size, encoded, DType};
use crate::error::{ErrorView, PortalError, PortalResult};
use crate::text::{decimal, push_decimal, push_wide_decimal, stands_at};
use crate::wire::{le_bytes, le_value, push_le, read_le};

verus! {

/// Bytes that the fields take.
pub open spec fn payload_size(schema: Seq<DType>) -> nat
    decreases schema.len(),
{
    if schema.len() == 0 {
        0
    } else {
        payload_size(schema.drop_last()) + dtype_size(schema.last())
    }
}

/// The fields on the wire.
pub open spec fn payload(values: Seq<Double>, schema: Seq<DType>) -> Seq<u8>
    decreases schema.len(),
{
    if schema.len() == 0 {
        Seq::empty()
    } else {
        payload(values.drop_last(), schema.drop_last()) + encoded(schema.last(), values.last())
    }
}

/// A row on the wire.
pub open spec fn row(timestamp_us: u64, values: Seq<Double>, schema: Seq<DType>) -> Seq<u8> {
    le_bytes(timestamp_us as nat, 8) + payload(values, schema)
}

/// The bytes of field `i`.
pub open spec fn field_bytes(data: Seq<u8>, schema: Seq<DType>, i: int) -> Seq<u8> {
    let start = 8 + payload_size(schema.take(i)) as int;
    data.subrange(start, start + dtype_size(schema[i]))
}

/// The bytes of a row stand for the timestamp and the values.
pub open spec fn row_decodes_to(
    data: Seq<u8>,
    schema: Seq<DType>,
    timestamp_us: u64,
    values: Seq<Double>,
) -> bool {
    &&& timestamp_us == le_value(data.take(8))
    &&& values.len() == schema.len()
    &&& forall|i: int|
        0 <= i < schema.len() ==> decodes_to(
            schema[i],
            field_bytes(data, schema, i),
            #[trigger] values[i],
        )
}

/// The complaint about a row of the wrong length.
pub open spec fn length_text(expected: nat, got: nat) -> Seq<char> {
    "expected "@ + decimal(expected) + " bytes, got "@ + decimal(got)
}

proof fn lemma_payload_size_mono(schema: Seq<DType>, i: int)
    requires
        0 <= i <= schema.len(),
    ensures
        payload_size(schema.take(i)) <= payload_size(schema),
        i < schema.len() ==> payload_size(schema.take(i + 1)) == payload_size(schema.take(i))
            + dtype_size(schema[i]),
        i < schema.len() ==> payload_size(schema.take(i + 1)) <= payload_size(schema),
    decreases schema.len() - i,
{
    if i < schema.len() {
        assert(schema.take(i + 1).drop_last() =~= schema.take(i));
        lemma_payload_size_mono(schema, i + 1);
    } else {
        assert(schema.take(i) =~= schema);
    }
}

/// Sums up the widths of a schema.
pub fn schema_size(schema: &[DType]) -> (size: u128)
    ensures
        size == payload_size(schema@),
        size <= 8 * usize::MAX,
{
    let mut size: u128 = 0;
    let mut i: usize = 0;
    assert(schema@.take(0) =~= Seq::empty());
    while i < schema.len()
        invariant
            i <= schema@.len(),
            size == payload_size(schema@.take(i as int)),
            size <= 8 * i,
        decreases schema@.len() - i,
    {
        proof {
            lemma_payload_size_mono(schema@, i as int);
        }
        size += schema[i].size_bytes() as u128;
        i += 1;
    }
    assert(schema@.take(i as int) =~= schema@);
    size
}

/// Writes a row.
pub fn serialize_values(timestamp_us: u64, values: &[Double], schema: &[DType]) -> (data: Vec<u8>)
    requires
        values@.len() == schema@.len(),
    ensures
        data@ == row(timestamp_us, values@, schema@),
{
    let mut data: Vec<u8> = Vec::new();
    push_le(&mut data, timestamp_us, 8);
    let ghost head = le_bytes(timestamp_us as nat, 8);
    let mut i: usize = 0;
    proof {
        assert(values@.take(0) =~= Seq::empty());
        assert(schema@.take(0) =~= Seq::empty());
        assert(data@ =~= head + payload(values@.take(0), schema@.take(0)));
    }
    while i < schema.len()
        invariant
            values@.len() == schema@.len(),
            i <= schema@.len(),
            data@ == head + payload(values@.take(i as int), schema@.take(i as int)),
        decreases schema@.len() - i,
    {
        let ghost before = data@;
        schema[i].encode(values[i], &mut data);
        proof {
            assert(values@.take(i + 1).drop_last() =~= values@.take(i as int));
            assert(schema@.take(i + 1).drop_last() =~= schema@.take(i as int));
            assert(data@ =~= head + payload(values@.take(i + 1), schema@.take(i + 1)));
        }
        i += 1;
    }
    proof {
        assert(values@.take(i as int) =~= values@);
        assert(schema@.take(i as int) =~= schema@);
    }
    data
}

/// Reads a row. The number of bytes has to be right.
pub fn deserialize_values(data: &[u8], schema: &[DType]) -> (row: PortalResult<(u64, Vec<Double>)>)
    ensures
        match row {
            Ok((timestamp_us, values)) => data@.len() == 8 + payload_size(schema@)
                && row_decodes_to(data@, schema@, timestamp_us, values@),
            Err(e) => data@.len() != 8 + payload_size(schema@) && e@ == ErrorView::Deserialization(
                length_text(8 + payload_size(schema@), data@.len()),
            ),
        },
{
    let expected: u128 = 8 + schema_size(schema);
    if data.len() as u128 != expected {
        let mut text: String = "expected ".to_owned();
        push_wide_decimal(&mut text, expected);
        text.append(" bytes, got ");
        push_decimal(&mut text, data.len() as u64);
        return Err(PortalError::Deserialization(text));
    }
    let timestamp_us: u64 = read_le(data, 0, 8);
    assert(data@.subrange(0, 8) =~= data@.take(8));
    let mut values: Vec<Double> = Vec::new();
    let mut offset: usize = 8;
    let mut i: usize = 0;
    assert(schema@.take(0) =~= Seq::empty());
    while i < schema.len()
        invariant
            i <= schema@.len(),
            data@.len() == 8 + payload_size(schema@),
            data@.len() <= usize::MAX,
            offset == 8 + payload_size(schema@.take(i as int)),
            values@.len() == i,
            forall|j: int|
                0 <= j < i ==> decodes_to(
                    schema@[j],
                    field_bytes(data@, schema@, j),
                    #[trigger] values@[j],
                ),
        decreases schema@.len() - i,
    {
        proof {
            lemma_payload_size_mono(schema@, i as int);
        }
        let width: usize = schema[i].size_bytes();
        let field = vstd::slice::slice_subrange(data, offset, offset + width);
        match schema[i].decode(field) {
            Ok(v) => {
                assert(field@.take(width as int) =~= field_bytes(data@, schema@, i as int));
                values.push(v);
            },
            Err(e) => {
                return Err(e);
            },
        }
        offset += width;
        i += 1;
    }
    Ok((timestamp_us, values))
}

proof fn lemma_payload_len(values: Seq<Double>, schema: Seq<DType>)
    requires
        values.len() == schema.len(),
    ensures
        payload(values, schema).len() == payload_size(schema),
    decreases schema.len(),
{
    if schema.len() > 0 {
        lemma_payload_len(values.drop_last(), schema.drop_last());
        crate::dtype::lemma_encoded_len(schema.last(), values.last());
    }
}

/// The length of a row is that of its timestamp and its fields.
pub proof fn lemma_row_len(timestamp_us: u64, values: Seq<Double>, schema: Seq<DType>)
    requires
        values.len() == schema.len(),
    ensures
        row(timestamp_us, values, schema).len() == 8 + payload_size(schema),
{
    crate::wire::lemma_le_bytes_len(timestamp_us as nat, 8);
    lemma_payload_len(values, schema);
}

proof fn lemma_payload_field(values: Seq<Double>, schema: Seq<DType>, i: int)
    requires
        values.len() == schema.len(),
        0 <= i < schema.len(),
    ensures
        ({
            let start = payload_size(schema.take(i)) as int;
            let end = start + dtype_size(schema[i]);
            &&& end <= payload(values, schema).len()
            &&& payload(values, schema).subrange(start, end) == encoded(schema[i], values[i])
        }),
    decreases schema.len(),
{
    let start = payload_size(schema.take(i)) as int;
    let end = start + dtype_size(schema[i]);
    let init = payload(values.drop_last(), schema.drop_last());
    lemma_payload_len(values.drop_last(), schema.drop_last());
    crate::dtype::lemma_encoded_len(schema.last(), values.last());
    if i == schema.len() - 1 {
        assert(schema.take(i) =~= schema.drop_last());
        assert(payload(values, schema).subrange(start, end) =~= encoded(schema[i], values[i]));
    } else {
        lemma_payload_field(values.drop_last(), schema.drop_last(), i);
        assert(schema.drop_last().take(i) =~= schema.take(i));
        assert(payload(values, schema).subrange(start, end) =~= init.subrange(start, end));
    }
}

/// A row that was written has the length that the reader asks for, and reading it gives back
/// the timestamp and every value, each as its declared type carries it.
pub proof fn law_row_survives(
    timestamp_us: u64,
    values: Seq<Double>,
    schema: Seq<DType>,
    back_us: u64,
    back: Seq<Double>,
)
    requires
        values.len() == schema.len(),
        row_decodes_to(row(timestamp_us, values, schema), schema, back_us, back),
    ensures
        row(timestamp_us, values, schema).len() == 8 + payload_size(schema),
        back_us == timestamp_us,
        back.len() == values.len(),
        forall|i: int|
            0 <= i < schema.len() ==> carried(schema[i], values[i], #[trigger] back[i]),
{
    let data = row(timestamp_us, values, schema);
    let head = le_bytes(timestamp_us as nat, 8);
    crate::wire::lemma_le_bytes_len(timestamp_us as nat, 8);
    crate::wire::lemma_pow256();
    crate::wire::law_write_then_read(timestamp_us as nat, 8);
    lemma_payload_len(values, schema);
    assert(data.take(8) =~= head);
    assert forall|i: int| 0 <= i < schema.len() implies carried(
        schema[i],
        values[i],
        #[trigger] back[i],
    ) by {
        lemma_payload_field(values, schema, i);
        let start = payload_size(schema.take(i)) as int;
        assert(field_bytes(data, schema, i) =~= payload(values, schema).subrange(
            start,
            start + dtype_size(schema[i]),
        ));
        crate::dtype::law_encode_then_decode(schema[i], values[i], back[i]);
    }
}

/// A row begins with its time in eight bytes, and every further field stands behind the ones before
/// it, as its type writes its value.
pub proof fn law_row_grows_by_field(
    timestamp_us: u64,
    values: Seq<Double>,
    schema: Seq<DType>,
    value: Double,
    dtype: DType,
)
    requires
        values.len() == schema.len(),
    ensures
        row(timestamp_us, Seq::empty(), Seq::empty()) == le_bytes(timestamp_us as nat, 8),
        row(timestamp_us, values.push(value), schema.push(dtype)) == row(
            timestamp_us,
            values,
            schema,
        ) + encoded(dtype, value),
{
    assert(values.push(value).drop_last() =~= values);
    assert(schema.push(dtype).drop_last() =~= schema);
    assert(row(timestamp_us, values.push(value), schema.push(dtype)) =~= row(
        timestamp_us,
        values,
        schema,
    ) + encoded(dtype, value));
    assert(row(timestamp_us, Seq::empty(), Seq::empty()) =~= le_bytes(timestamp_us as nat, 8));
}

/// A row is read field by field: the time from the first eight bytes, and each field from as many
/// bytes as its type has, right behind those of the fields before it.
pub proof fn law_fields_stand_in_order(data: Seq<u8>, schema: Seq<DType>, i: int)
    requires
        data.len() == 8 + payload_size(schema),
        0 <= i < schema.len(),
    ensures
        field_bytes(data, schema, i).len() == dtype_size(schema[i]),
        i == 0 ==> field_bytes(data, schema, i) == data.subrange(
            8,
            8 + dtype_size(schema[0]) as int,
        ),
        i > 0 ==> exists|start: int|
            #![trigger data.subrange(start, start + dtype_size(schema[i]))]
            field_bytes(data, schema, i - 1) == data.subrange(
                start - dtype_size(schema[i - 1]),
                start,
            ) && field_bytes(data, schema, i) == data.subrange(
                start,
                start + dtype_size(schema[i]),
            ),
        i == schema.len() - 1 ==> field_bytes(data, schema, i) == data.skip(
            data.len() - dtype_size(schema[i]),
        ),
{
    let start = 8 + payload_size(schema.take(i)) as int;
    lemma_payload_size_mono(schema, i + 1);
    assert(schema.take(i + 1).drop_last() =~= schema.take(i));
    if i == 0 {
        assert(schema.take(0) =~= Seq::empty());
    } else {
        assert(schema.take(i).drop_last() =~= schema.take(i - 1));
        assert(field_bytes(data, schema, i) == data.subrange(
            start,
            start + dtype_size(schema[i]),
        ));
    }
    if i == schema.len() - 1 {
        assert(schema.take(i + 1) =~= schema);
        assert(field_bytes(data, schema, i) =~= data.skip(data.len() - dtype_size(schema[i])));
    }
}

/// The complaint about a row of the wrong length names the right length first and ends with the
/// one that came.
pub proof fn law_length_complaint_tells(expected: nat, got: nat)
    ensures
        ({
            let text = length_text(expected, got);
            exists|a: int, b: int| #[trigger]
                stands_at(text, decimal(expected), a) && #[trigger] stands_at(text, decimal(got), b)
                    && a + decimal(expected).len() < b && b + decimal(got).len() == text.len()
        }),
{
    reveal_strlit(" bytes, got ");
    let text = length_text(expected, got);
    let first = "expected "@;
    let second = " bytes, got "@;
    crate::text::lemma_stands_at(first, decimal(expected), second + decimal(got));
    assert(first + decimal(expected) + (second + decimal(got)) =~= text);
    crate::text::lemma_stands_at(
        first + decimal(expected) + second,
        decimal(got),
        Seq::empty(),
    );
    assert(first + decimal(expected) + second + decimal(got) + Seq::<char>::empty() =~= text);
    assert(stands_at(text, decimal(expected), first.len() as int));
    assert(stands_at(text, decimal(got), (first + decimal(expected) + second).len() as int));
}

} // verus!
