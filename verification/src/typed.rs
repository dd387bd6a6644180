//! Values together with the type they are meant for.

use vstd::prelude::*;

use crate::config::{FieldSpec, FieldView};
use crate::double::Double;
use crate::dtype::{dtype_name, DType};
use crate::error::{ErrorView, PortalError, PortalResult};
use crate::field_map::{collect, FieldMap};
use crate::sync_model::first_true;

verus! {

/// A value and the type of the field it is meant for.
#[derive(Debug, Clone, Copy, PartialEq, Eq, Structural)]
pub struct TypedValue {
    pub kind: DType,
    pub value: Double,
}

impl TypedValue {
    /// A number for a field of this type. It is kept as it is; what the type cannot hold is
    /// clipped on the wire.
    pub fn from_f64(v: Double, dtype: DType) -> (typed: TypedValue)
        ensures
            typed == (TypedValue { kind: dtype, value: v }),
    {
        TypedValue { kind: dtype, value: v }
    }
}

/// The values alone.
pub open spec fn plain_of(values: Map<Seq<char>, TypedValue>) -> Map<Seq<char>, Double> {
    Map::new(|k: Seq<char>| values.contains_key(k), |k: Seq<char>| values[k].value)
}

/// Which fields a row has a value of another type for.
pub open spec fn mismatches(
    schema: Seq<FieldView>,
    values: Map<Seq<char>, TypedValue>,
) -> Seq<bool> {
    Seq::new(
        schema.len(),
        |i: int|
            values.contains_key(schema[i].name) && values[schema[i].name].kind
                != schema[i].dtype,
    )
}

/// Why a row cannot be sent, if it cannot: its first field with a value of another type. Names
/// that no field has are of any type.
pub open spec fn kind_fault(
    schema: Seq<FieldView>,
    values: Map<Seq<char>, TypedValue>,
) -> Option<ErrorView> {
    match first_true(mismatches(schema, values)) {
        Some(i) => Some(
            ErrorView::DtypeMismatch {
                field: schema[i].name,
                expected: schema[i].dtype,
                got: dtype_name(values[schema[i].name].kind),
            },
        ),
        None => None,
    }
}

/// Checks that every value of a row is of the type that its field was declared with.
pub fn check_kinds(schema: &[FieldSpec], values: &FieldMap<TypedValue>) -> (r: PortalResult<()>)
    ensures
        match r {
            Ok(_) => kind_fault(crate::config::schema_view(schema@), values@) is None,
            Err(e) => kind_fault(crate::config::schema_view(schema@), values@) == Some(e@),
        },
{
    let ghost fields = crate::config::schema_view(schema@);
    let ghost wrong = mismatches(fields, values@);
    let mut i: usize = 0;
    while i < schema.len()
        invariant
            i <= schema@.len(),
            fields == crate::config::schema_view(schema@),
            wrong == mismatches(fields, values@),
            wrong.len() == schema@.len(),
            forall|j: int| 0 <= j < i ==> !#[trigger] wrong[j],
        decreases schema@.len() - i,
    {
        assert(fields[i as int] == schema@[i as int]@);
        if let Some(v) = values.get(schema[i].name.as_str()) {
            let kind: DType = v.kind;
            if kind != schema[i].dtype {
                proof {
                    assert(wrong[i as int]);
                    crate::sync_model::lemma_first_true_is(wrong, i as int);
                }
                return Err(
                    PortalError::DtypeMismatch {
                        field: schema[i].name.clone(),
                        expected: schema[i].dtype,
                        got: kind.name().to_owned(),
                    },
                );
            }
        }
        i += 1;
    }
    proof {
        crate::sync_model::lemma_first_true_none(wrong);
    }
    Ok(())
}

/// The values of a row alone.
pub fn plain_values(values: &FieldMap<TypedValue>) -> (plain: FieldMap<Double>)
    ensures
        plain@ == plain_of(values@),
{
    let n: usize = values.len();
    let ghost pairs = values.pairs();
    let mut plain: FieldMap<Double> = FieldMap::new();
    let mut i: usize = 0;
    assert(pairs.take(0) =~= Seq::empty());
    assert(plain@ =~= plain_of(collect(pairs.take(0))));
    while i < n
        invariant
            n == values.pairs().len(),
            pairs == values.pairs(),
            i <= n,
            plain@ == plain_of(collect(pairs.take(i as int))),
        decreases n - i,
    {
        plain.insert(values.name_at(i).to_owned(), values.value_at(i).value);
        proof {
            assert(pairs.take(i + 1).drop_last() =~= pairs.take(i as int));
            assert(plain@ =~= plain_of(collect(pairs.take(i + 1))));
        }
        i += 1;
    }
    assert(pairs.take(i as int) =~= pairs);
    plain
}

/// The declared type of a field: that of the first of this name, and the widest for a name
/// that no field has, so that it is reported further on.
pub open spec fn declared_dtype(schema: Seq<FieldView>, name: Seq<char>) -> DType
    decreases schema.len(),
{
    if schema.len() == 0 {
        DType::F64
    } else if schema[0].name == name {
        schema[0].dtype
    } else {
        declared_dtype(schema.skip(1), name)
    }
}

/// Numbers, each as a value of the type that its field was declared with.
pub open spec fn as_declared(
    values: Map<Seq<char>, Double>,
    schema: Seq<FieldView>,
) -> Map<Seq<char>, TypedValue> {
    Map::new(
        |k: Seq<char>| values.contains_key(k),
        |k: Seq<char>| TypedValue { kind: declared_dtype(schema, k), value: values[k] },
    )
}

proof fn lemma_declared(schema: Seq<FieldView>, i: int)
    requires
        0 <= i < schema.len(),
        forall|j: int| 0 <= j < i ==> (#[trigger] schema[j]).name != schema[i].name,
    ensures
        declared_dtype(schema, schema[i].name) == schema[i].dtype,
    decreases i,
{
    if i > 0 {
        let rest = schema.skip(1);
        assert(schema[0].name != schema[i].name);
        assert forall|j: int| 0 <= j < i - 1 implies (#[trigger] rest[j]).name != rest[i
            - 1].name by {
            assert(rest[j] == schema[j + 1]);
        }
        lemma_declared(rest, i - 1);
    }
}

/// Numbers taken as their fields were declared are never refused, as long as every name is
/// declared once, and they come out as they went in.
pub proof fn law_declared_values_pass(values: Map<Seq<char>, Double>, schema: Seq<FieldView>)
    ensures
        plain_of(as_declared(values, schema)) == values,
        (forall|i: int, j: int|
            0 <= i < j < schema.len() ==> (#[trigger] schema[i]).name != (
            #[trigger] schema[j]).name) ==> kind_fault(schema, as_declared(values, schema)) is None,
{
    assert(plain_of(as_declared(values, schema)) =~= values);
    let wrong = mismatches(schema, as_declared(values, schema));
    if forall|i: int, j: int|
        0 <= i < j < schema.len() ==> (#[trigger] schema[i]).name != (#[trigger] schema[j]).name {
        assert forall|i: int| 0 <= i < wrong.len() implies !#[trigger] wrong[i] by {
            lemma_declared(schema, i);
        }
        crate::sync_model::lemma_first_true_none(wrong);
    }
}

/// A single value of another type than its field's refuses the whole row.
pub proof fn law_other_kind_is_refused(
    schema: Seq<FieldView>,
    values: Map<Seq<char>, TypedValue>,
    i: int,
)
    requires
        0 <= i < schema.len(),
        values.contains_key(schema[i].name),
        values[schema[i].name].kind != schema[i].dtype,
    ensures
        kind_fault(schema, values) is Some,
{
    crate::sync_model::lemma_first_true_none(mismatches(schema, values));
    assert(mismatches(schema, values)[i]);
}

/// The values alone are under the names they were given under, as they are.
pub proof fn law_plain_values_keep_their_names(values: Map<Seq<char>, TypedValue>, k: Seq<char>)
    ensures
        plain_of(values).contains_key(k) <==> values.contains_key(k),
        values.contains_key(k) ==> plain_of(values)[k] == values[k].value,
{
}

/// A row is refused by its first field with a value of another type, and only for such a value.
pub proof fn law_first_wrong_kind_is_named(
    schema: Seq<FieldView>,
    values: Map<Seq<char>, TypedValue>,
    i: int,
)
    requires
        0 <= i < schema.len(),
        forall|j: int|
            0 <= j < i && values.contains_key((#[trigger] schema[j]).name)
                ==> values[schema[j].name].kind == schema[j].dtype,
    ensures
        values.contains_key(schema[i].name) && values[schema[i].name].kind != schema[i].dtype
            ==> kind_fault(schema, values) == Some(
            ErrorView::DtypeMismatch {
                field: schema[i].name,
                expected: schema[i].dtype,
                got: dtype_name(values[schema[i].name].kind),
            },
        ),
        i == schema.len() - 1 && (values.contains_key(schema[i].name)
            ==> values[schema[i].name].kind == schema[i].dtype) ==> kind_fault(schema, values)
            is None,
{
    let wrong = mismatches(schema, values);
    assert forall|j: int| 0 <= j < i implies !#[trigger] wrong[j] by {
        assert(values.contains_key(schema[j].name) ==> values[schema[j].name].kind
            == schema[j].dtype);
    }
    if wrong[i] {
        crate::sync_model::lemma_first_true_is(wrong, i);
    }
    crate::sync_model::lemma_first_true_none(wrong);
}

/// A number is taken for a value of the type that the first field of its name declares, and for the
/// widest where no field has its name.
pub proof fn law_number_takes_declared_type(
    values: Map<Seq<char>, Double>,
    schema: Seq<FieldView>,
    k: Seq<char>,
)
    ensures
        as_declared(values, schema).contains_key(k) <==> values.contains_key(k),
        values.contains_key(k) ==> as_declared(values, schema)[k].value == values[k],
        values.contains_key(k) ==> forall|i: int|
            0 <= i < schema.len() && (#[trigger] schema[i]).name == k && (forall|j: int|
                0 <= j < i ==> (#[trigger] schema[j]).name != k) ==> as_declared(
                values,
                schema,
            )[k].kind == schema[i].dtype,
        values.contains_key(k) && (forall|i: int|
            0 <= i < schema.len() ==> (#[trigger] schema[i]).name != k) ==> as_declared(
            values,
            schema,
        )[k].kind == DType::F64,
{
    assert forall|i: int|
        0 <= i < schema.len() && (#[trigger] schema[i]).name == k && (forall|j: int|
            0 <= j < i ==> (#[trigger] schema[j]).name != k) implies declared_dtype(schema, k)
        == schema[i].dtype by {
        lemma_declared(schema, i);
    }
    if forall|i: int| 0 <= i < schema.len() ==> (#[trigger] schema[i]).name != k {
        lemma_undeclared(schema, k);
    }
}

proof fn lemma_undeclared(schema: Seq<FieldView>, k: Seq<char>)
    requires
        forall|i: int| 0 <= i < schema.len() ==> (#[trigger] schema[i]).name != k,
    ensures
        declared_dtype(schema, k) == DType::F64,
    decreases schema.len(),
{
    if schema.len() > 0 {
        let rest = schema.skip(1);
        assert(schema[0].name != k);
        assert forall|i: int| 0 <= i < rest.len() implies (#[trigger] rest[i]).name != k by {
            assert(rest[i] == schema[i + 1]);
        }
        lemma_undeclared(rest, k);
    }
}

} // verus!
