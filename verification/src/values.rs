//! The runtime values the engine moves: a closed union mirroring the
//! declared field types, so one pair of encode / decode procedures serves
//! every declared record.
use crate::schema::{FieldType, RecordSchema, RecordShape};
use vstd::prelude::*;

verus! {

broadcast use vstd::std_specs::vec::group_vec_axioms, vstd::seq::group_seq_axioms;

/// One field's runtime value.
#[derive(Debug, PartialEq)]
pub enum FieldValue {
    /// UTF-8 text.
    Text(String),
    /// A signed 64-bit integer.
    Number(i64),
    /// A truth value.
    Truth(bool),
    /// Opaque binary data.
    Raw(Vec<u8>),
    /// An optional value.
    Maybe(Option<Box<FieldValue>>),
    /// A homogeneous list.
    Many(Vec<FieldValue>),
    /// A nested record instance: one value per declared field, in
    /// declaration order.
    Nested(Vec<FieldValue>),
}

/// The mathematical shadow of a field value.
pub ghost enum ValueModel {
    Text(Seq<char>),
    Number(i64),
    Truth(bool),
    Raw(Seq<u8>),
    Maybe(Option<Box<ValueModel>>),
    Many(Seq<ValueModel>),
    Nested(Seq<ValueModel>),
}

/// The model of a field value.
pub open spec fn value_model(v: &FieldValue) -> ValueModel
    decreases v,
{
    match v {
        FieldValue::Text(s) => ValueModel::Text(s@),
        FieldValue::Number(n) => ValueModel::Number(*n),
        FieldValue::Truth(b) => ValueModel::Truth(*b),
        FieldValue::Raw(b) => ValueModel::Raw(b@),
        FieldValue::Maybe(o) => ValueModel::Maybe(
            match o {
                None => None,
                Some(x) => Some(Box::new(value_model(&**x))),
            },
        ),
        FieldValue::Many(items) => ValueModel::Many(value_models(items@)),
        FieldValue::Nested(items) => ValueModel::Nested(value_models(items@)),
    }
}

/// The models of a sequence of field values.
pub open spec fn value_models(items: Seq<FieldValue>) -> Seq<ValueModel>
    decreases items,
{
    if items.len() == 0 {
        Seq::empty()
    } else {
        seq![value_model(&items[0])] + value_models(items.drop_first())
    }
}

/// Whether a value inhabits a declared type.
pub open spec fn conforms(t: &FieldType, v: ValueModel) -> bool
    decreases t, 0int,
{
    match t {
        FieldType::Text => v matches ValueModel::Text(_),
        FieldType::Number => v matches ValueModel::Number(_),
        FieldType::Truth => v matches ValueModel::Truth(_),
        FieldType::Raw => v matches ValueModel::Raw(_),
        FieldType::Optional(inner) => match v {
            ValueModel::Maybe(None) => true,
            ValueModel::Maybe(Some(x)) => conforms(inner, *x),
            _ => false,
        },
        FieldType::Listing(inner) => match v {
            ValueModel::Many(items) => conforms_all(inner, items),
            _ => false,
        },
        FieldType::Nested(s) => match v {
            ValueModel::Nested(items) => conforms_record(s, items),
            _ => false,
        },
    }
}

/// Whether every element of a list inhabits the element type.
pub open spec fn conforms_all(t: &FieldType, items: Seq<ValueModel>) -> bool
    decreases t, items.len() as int + 1,
{
    if items.len() == 0 {
        true
    } else {
        conforms(t, items[0]) && conforms_all(t, items.drop_first())
    }
}

/// Whether a value sequence inhabits a record's declared shape: one value
/// per declared field (or positional type), in declaration order.
pub open spec fn conforms_record(s: &RecordSchema, items: Seq<ValueModel>) -> bool
    decreases s, 0int,
{
    match &s.shape {
        RecordShape::Named(fields) => conforms_fields(fields@, items),
        RecordShape::Tuple(types) => conforms_tuple(types@, items),
        RecordShape::Unit => items.len() == 0,
    }
}

/// Whether each value inhabits the matching field's declared type.
pub open spec fn conforms_fields(
    fields: Seq<crate::schema::FieldDescriptor>,
    items: Seq<ValueModel>,
) -> bool
    decreases fields, 0int,
{
    &&& items.len() == fields.len()
    &&& if fields.len() == 0 {
        true
    } else {
        conforms(&fields[0].ty, items[0]) && conforms_fields(
            fields.drop_first(),
            items.drop_first(),
        )
    }
}

/// Whether each value inhabits the matching positional type.
pub open spec fn conforms_tuple(types: Seq<FieldType>, items: Seq<ValueModel>) -> bool
    decreases types, 0int,
{
    &&& items.len() == types.len()
    &&& if types.len() == 0 {
        true
    } else {
        conforms(&types[0], items[0]) && conforms_tuple(types.drop_first(), items.drop_first())
    }
}

/// The models of a field value sequence, element by element.
pub open spec fn values_model(items: Seq<FieldValue>) -> Seq<ValueModel> {
    Seq::new(items.len(), |i: int| value_model(&items[i]))
}

/// The recursive and the element-wise models of a field value sequence
/// agree.
pub proof fn lemma_value_models_index(items: Seq<FieldValue>)
    ensures
        value_models(items) == values_model(items),
    decreases items,
{
    if items.len() == 0 {
        assert(value_models(items) =~= values_model(items));
    } else {
        lemma_value_models_index(items.drop_first());
        assert(value_models(items) =~= values_model(items));
    }
}

/// A conforming field-value sequence has one value per field, each of its
/// field's type.
pub proof fn lemma_conforms_fields_index(
    fields: Seq<crate::schema::FieldDescriptor>,
    items: Seq<ValueModel>,
)
    requires
        conforms_fields(fields, items),
    ensures
        items.len() == fields.len(),
        forall|i: int| 0 <= i < fields.len() ==> conforms(&fields[i].ty, #[trigger] items[i]),
    decreases fields,
{
    if fields.len() > 0 {
        lemma_conforms_fields_index(fields.drop_first(), items.drop_first());
        assert forall|i: int| 0 <= i < fields.len() implies conforms(
            &fields[i].ty,
            #[trigger] items[i],
        ) by {
            if i > 0 {
                assert(fields.drop_first()[i - 1] == fields[i]);
                assert(items.drop_first()[i - 1] == items[i]);
            }
        }
    }
}

/// A conforming positional sequence has one value per declared type, each
/// of that type.
pub proof fn lemma_conforms_tuple_index(types: Seq<FieldType>, items: Seq<ValueModel>)
    requires
        conforms_tuple(types, items),
    ensures
        items.len() == types.len(),
        forall|i: int| 0 <= i < types.len() ==> conforms(&types[i], #[trigger] items[i]),
    decreases types,
{
    if types.len() > 0 {
        lemma_conforms_tuple_index(types.drop_first(), items.drop_first());
        assert forall|i: int| 0 <= i < types.len() implies conforms(
            &types[i],
            #[trigger] items[i],
        ) by {
            if i > 0 {
                assert(types.drop_first()[i - 1] == types[i]);
                assert(items.drop_first()[i - 1] == items[i]);
            }
        }
    }
}

/// Every element of a conforming list conforms to the element type.
pub proof fn lemma_conforms_all_index(t: &FieldType, items: Seq<ValueModel>)
    requires
        conforms_all(t, items),
    ensures
        forall|i: int| 0 <= i < items.len() ==> conforms(t, #[trigger] items[i]),
    decreases items.len(),
{
    if items.len() > 0 {
        lemma_conforms_all_index(t, items.drop_first());
        assert forall|i: int| 0 <= i < items.len() implies conforms(t, #[trigger] items[i]) by {
            if i > 0 {
                assert(items.drop_first()[i - 1] == items[i]);
            }
        }
    }
}

/// The empty value a null-accepting type decodes the null marker to.
pub open spec fn null_value(t: &FieldType) -> ValueModel {
    match t {
        FieldType::Optional(_) => ValueModel::Maybe(None),
        FieldType::Listing(_) => ValueModel::Many(Seq::empty()),
        _ => ValueModel::Nested(Seq::empty()),
    }
}

} // verus!
