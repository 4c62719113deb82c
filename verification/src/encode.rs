//! The encode direction of the shape dispatcher: a record's values become a
//! named pair sequence, a positional array, or the zero-content marker; an
//! enumeration variant becomes its wire token as a single binary value.
//!
//! Wire-format commitments, fixed here for both directions:
//! - a nested record field is carried as one nested map (or array) value,
//!   never flattened into compound keys;
//! - an absent optional field has no wire representation at all;
//! - within arrays and positional slots, an absent optional is carried as
//!   the null marker, so arity is preserved.
use crate::names::CaseRule;
use crate::numeric::{dec_bytes, truth_bytes, int_to_decimal, truth_to_decimal};
use crate::schema::{
    field_wire_name, variant_wire_name, EnumSchema, FieldDescriptor, FieldType, RecordSchema,
    RecordShape,
};
use crate::text::copy_bytes;
use crate::values::{
    conforms, conforms_all, conforms_fields, conforms_record, conforms_tuple,
    lemma_conforms_all_index, lemma_conforms_fields_index, lemma_conforms_tuple_index,
    lemma_value_models_index, value_model, value_models, values_model, FieldValue, ValueModel,
};
use crate::wire::{
    form_model, lemma_wire_models_index, name_pairs_model, pairs_to_table, table_of_pairs,
    wire_model, EncodedForm, FormModel, WireModel, WireValue,
};
use vstd::prelude::*;
use vstd::string::StrSliceExecFns;
use vstd::utf8::encode_utf8;

verus! {

broadcast use vstd::std_specs::vec::group_vec_axioms, vstd::seq::group_seq_axioms;

/// The wire value one field value encodes to, or nothing when the value has
/// no wire representation (an absent optional, a zero-field nested record).
pub open spec fn spec_encode_value(t: &FieldType, v: ValueModel) -> Option<WireModel>
    decreases t, 0int,
{
    match t {
        FieldType::Text => match v {
            ValueModel::Text(s) => Some(WireModel::Bulk(encode_utf8(s))),
            _ => None,
        },
        FieldType::Number => match v {
            ValueModel::Number(n) => Some(WireModel::Bulk(dec_bytes(n as int))),
            _ => None,
        },
        FieldType::Truth => match v {
            ValueModel::Truth(b) => Some(WireModel::Bulk(truth_bytes(b))),
            _ => None,
        },
        FieldType::Raw => match v {
            ValueModel::Raw(b) => Some(WireModel::Bulk(b)),
            _ => None,
        },
        FieldType::Optional(inner) => match v {
            ValueModel::Maybe(None) => None,
            ValueModel::Maybe(Some(x)) => spec_encode_value(inner, *x),
            _ => None,
        },
        FieldType::Listing(inner) => match v {
            ValueModel::Many(items) => Some(WireModel::Array(spec_encode_list(inner, items))),
            _ => None,
        },
        FieldType::Nested(s) => match v {
            ValueModel::Nested(items) => match spec_encode_record(s, items) {
                FormModel::FlatPairs(pairs) => Some(WireModel::Table(pairs_to_table(pairs))),
                FormModel::Positional(ws) => Some(WireModel::Array(ws)),
                _ => None,
            },
            _ => None,
        },
    }
}

/// The wire value of one element in an array or positional slot: an absent
/// optional becomes the null marker so positions are kept.
pub open spec fn spec_encode_item(t: &FieldType, v: ValueModel) -> WireModel
    decreases t, 1int,
{
    match spec_encode_value(t, v) {
        Some(w) => w,
        None => WireModel::Null,
    }
}

/// The wire values of a list's elements, in order.
pub open spec fn spec_encode_list(t: &FieldType, items: Seq<ValueModel>) -> Seq<WireModel>
    decreases t, items.len() as int + 2,
{
    if items.len() == 0 {
        Seq::empty()
    } else {
        seq![spec_encode_item(t, items[0])] + spec_encode_list(t, items.drop_first())
    }
}

/// The named pair sequence of a record's fields, in declaration order: a
/// field marked `skip` has no wire representation, and neither has a field
/// value without one.
pub open spec fn spec_encode_fields(
    rule: Option<CaseRule>,
    fields: Seq<FieldDescriptor>,
    items: Seq<ValueModel>,
) -> Seq<(Seq<char>, WireModel)>
    decreases fields, 0int,
{
    if fields.len() == 0 || items.len() == 0 {
        Seq::empty()
    } else {
        let rest = spec_encode_fields(rule, fields.drop_first(), items.drop_first());
        if fields[0].skip {
            rest
        } else {
            match spec_encode_value(&fields[0].ty, items[0]) {
                None => rest,
                Some(w) => seq![(field_wire_name(rule, &fields[0]), w)] + rest,
            }
        }
    }
}

/// The wire values of a tuple record's positions, in declaration order.
pub open spec fn spec_encode_tuple(types: Seq<FieldType>, items: Seq<ValueModel>) -> Seq<WireModel>
    decreases types, 0int,
{
    if types.len() == 0 || items.len() == 0 {
        Seq::empty()
    } else {
        seq![spec_encode_item(&types[0], items[0])] + spec_encode_tuple(
            types.drop_first(),
            items.drop_first(),
        )
    }
}

/// The encoded form of a record instance: named fields give the hash-like
/// pair sequence, positional fields the array, a zero-field record the
/// zero-content marker.
pub open spec fn spec_encode_record(s: &RecordSchema, items: Seq<ValueModel>) -> FormModel
    decreases s, 0int,
{
    match &s.shape {
        RecordShape::Named(fields) => FormModel::FlatPairs(
            spec_encode_fields(s.rule, fields@, items),
        ),
        RecordShape::Tuple(types) => FormModel::Positional(spec_encode_tuple(types@, items)),
        RecordShape::Unit => FormModel::EmptyScalar,
    }
}

/// The view of an optionally produced wire value.
pub open spec fn opt_wire_model(r: &Option<WireValue>) -> Option<WireModel> {
    match r {
        Some(w) => Some(wire_model(w)),
        None => None,
    }
}

/// Encodes one field value of a declared type.
#[verifier::loop_isolation(false)]
pub fn encode_value(t: &FieldType, v: &FieldValue) -> (r: Option<WireValue>)
    requires
        conforms(t, value_model(v)),
    ensures
        opt_wire_model(&r) == spec_encode_value(t, value_model(v)),
    decreases t, 0int,
{
    match t {
        FieldType::Text => match v {
            FieldValue::Text(s) => Some(WireValue::Bulk(s.as_str().as_bytes_vec())),
            _ => {
                proof {
                    assert(false);
                }
                None
            },
        },
        FieldType::Number => match v {
            FieldValue::Number(n) => Some(WireValue::Bulk(int_to_decimal(*n))),
            _ => {
                proof {
                    assert(false);
                }
                None
            },
        },
        FieldType::Truth => match v {
            FieldValue::Truth(b) => Some(WireValue::Bulk(truth_to_decimal(*b))),
            _ => {
                proof {
                    assert(false);
                }
                None
            },
        },
        FieldType::Raw => match v {
            FieldValue::Raw(b) => Some(WireValue::Bulk(copy_bytes(b))),
            _ => {
                proof {
                    assert(false);
                }
                None
            },
        },
        FieldType::Optional(inner) => match v {
            FieldValue::Maybe(None) => None,
            FieldValue::Maybe(Some(x)) => encode_value(inner, &**x),
            _ => {
                proof {
                    assert(false);
                }
                None
            },
        },
        FieldType::Listing(inner) => match v {
            FieldValue::Many(items) => {
                let ghost models = value_models(items@);
                proof {
                    lemma_value_models_index(items@);
                    lemma_conforms_all_index(inner, models);
                }
                let mut out: Vec<WireValue> = Vec::new();
                let mut i: usize = 0;
                while i < items.len()
                    invariant
                        i <= items@.len(),
                        models == values_model(items@),
                        conforms_all(inner, models),
                        forall|j: int| 0 <= j < models.len() ==> conforms(
                            inner,
                            #[trigger] models[j],
                        ),
                        out@.len() == i,
                        forall|j: int| 0 <= j < i ==> wire_model(#[trigger] &out@[j])
                            == spec_encode_item(inner, models[j]),
                    decreases items@.len() - i,
                {
                    proof {
                        assert(models[i as int] == value_model(&items@[i as int]));
                    }
                    let item = match encode_value(inner, &items[i]) {
                        Some(w) => w,
                        None => WireValue::Null,
                    };
                    out.push(item);
                    i += 1;
                }
                proof {
                    lemma_wire_models_index(out@);
                    lemma_encode_list_index(inner, models);
                    assert(crate::wire::wire_models(out@) =~= spec_encode_list(inner, models));
                }
                Some(WireValue::Array(out))
            },
            _ => {
                proof {
                    assert(false);
                }
                None
            },
        },
        FieldType::Nested(s) => match v {
            FieldValue::Nested(items) => {
                let form = encode_record(s, items);
                match form {
                    EncodedForm::FlatPairs(pairs) => {
                        let ghost pmodel = name_pairs_model(pairs@);
                        let table = table_of_pairs(pairs);
                        proof {
                            crate::wire::lemma_wire_pair_models_index(table@);
                        }
                        Some(WireValue::Table(table))
                    },
                    EncodedForm::Positional(ws) => {
                        proof {
                            lemma_wire_models_index(ws@);
                        }
                        Some(WireValue::Array(ws))
                    },
                    EncodedForm::EmptyScalar => None,
                    EncodedForm::Scalar(_) => {
                        proof {
                            match &s.shape {
                                RecordShape::Named(_) => {},
                                RecordShape::Tuple(_) => {},
                                RecordShape::Unit => {},
                            }
                            assert(false);
                        }
                        None
                    },
                }
            },
            _ => {
                proof {
                    assert(false);
                }
                None
            },
        },
    }
}

/// The element-wise characterization of a list encoding.
pub proof fn lemma_encode_list_index(t: &FieldType, items: Seq<ValueModel>)
    ensures
        spec_encode_list(t, items).len() == items.len(),
        forall|i: int| 0 <= i < items.len() ==> #[trigger] spec_encode_list(t, items)[i]
            == spec_encode_item(t, items[i]),
    decreases items.len(),
{
    if items.len() > 0 {
        lemma_encode_list_index(t, items.drop_first());
        assert forall|i: int| 0 <= i < items.len() implies #[trigger] spec_encode_list(t, items)[i]
            == spec_encode_item(t, items[i]) by {
            if i > 0 {
                assert(items.drop_first()[i - 1] == items[i]);
            }
        }
    }
}

/// Encodes a record instance to its wire form.
#[verifier::loop_isolation(false)]
pub fn encode_record(s: &RecordSchema, values: &Vec<FieldValue>) -> (r: EncodedForm)
    requires
        conforms_record(s, value_models(values@)),
    ensures
        form_model(&r) == spec_encode_record(s, value_models(values@)),
    decreases s, 0int,
{
    let ghost models = value_models(values@);
    proof {
        lemma_value_models_index(values@);
    }
    match &s.shape {
        RecordShape::Named(fields) => {
            proof {
                lemma_conforms_fields_index(fields@, models);
            }
            let mut out: Vec<(String, WireValue)> = Vec::new();
            let mut i: usize = 0;
            proof {
                assert(models.skip(0) =~= models);
                assert(fields@.skip(0) =~= fields@);
                assert(Seq::<(Seq<char>, WireModel)>::empty() + spec_encode_fields(
                    s.rule,
                    fields@,
                    models,
                ) =~= spec_encode_fields(s.rule, fields@, models));
            }
            while i < fields.len()
                invariant
                    i <= fields@.len(),
                    models.len() == fields@.len(),
                    models == values_model(values@),
                    values@.len() == fields@.len(),
                    conforms_fields(fields@, models),
                    forall|j: int| 0 <= j < fields@.len() ==> conforms(
                        &fields@[j].ty,
                        #[trigger] models[j],
                    ),
                    spec_encode_fields(s.rule, fields@, models) == name_pairs_model(out@)
                        + spec_encode_fields(
                        s.rule,
                        fields@.skip(i as int),
                        models.skip(i as int),
                    ),
                decreases fields@.len() - i,
            {
                let ghost gi = i as int;
                let ghost pre = name_pairs_model(out@);
                let f = &fields[i];
                proof {
                    assert(fields@.skip(gi)[0] == fields@[gi]);
                    assert(models.skip(gi)[0] == models[gi]);
                    assert(fields@.skip(gi).drop_first() =~= fields@.skip(gi + 1));
                    assert(models.skip(gi).drop_first() =~= models.skip(gi + 1));
                }
                if !f.skip {
                    match encode_value(&f.ty, &values[i]) {
                        None => (),
                        Some(w) => {
                            let name = crate::schema::wire_name_of_field(s.rule, f);
                            out.push((name, w));
                            proof {
                                assert(name_pairs_model(out@) =~= pre.push(
                                    (field_wire_name(s.rule, &fields@[gi]), wire_model(&w)),
                                ));
                                assert(pre + (seq![
                                    (field_wire_name(s.rule, &fields@[gi]), wire_model(&w)),
                                ] + spec_encode_fields(
                                    s.rule,
                                    fields@.skip(gi + 1),
                                    models.skip(gi + 1),
                                )) =~= name_pairs_model(out@) + spec_encode_fields(
                                    s.rule,
                                    fields@.skip(gi + 1),
                                    models.skip(gi + 1),
                                ));
                            }
                        },
                    }
                }
                i += 1;
            }
            proof {
                assert(spec_encode_fields(
                    s.rule,
                    fields@.skip(fields@.len() as int),
                    models.skip(fields@.len() as int),
                ) =~= Seq::<(Seq<char>, WireModel)>::empty());
                assert(name_pairs_model(out@) + Seq::<(Seq<char>, WireModel)>::empty()
                    =~= name_pairs_model(out@));
            }
            EncodedForm::FlatPairs(out)
        },
        RecordShape::Tuple(types) => {
            proof {
                lemma_conforms_tuple_index(types@, models);
            }
            let mut out: Vec<WireValue> = Vec::new();
            let mut i: usize = 0;
            while i < types.len()
                invariant
                    i <= types@.len(),
                    models.len() == types@.len(),
                    models == values_model(values@),
                    values@.len() == types@.len(),
                    forall|j: int| 0 <= j < types@.len() ==> conforms(
                        &types@[j],
                        #[trigger] models[j],
                    ),
                    out@.len() == i,
                    forall|j: int| 0 <= j < i ==> wire_model(#[trigger] &out@[j])
                        == spec_encode_item(&types@[j], models[j]),
                decreases types@.len() - i,
            {
                proof {
                    assert(models[i as int] == value_model(&values@[i as int]));
                }
                let item = match encode_value(&types[i], &values[i]) {
                    Some(w) => w,
                    None => WireValue::Null,
                };
                out.push(item);
                i += 1;
            }
            proof {
                lemma_wire_models_index(out@);
                lemma_encode_tuple_index(types@, models);
                assert(crate::wire::wire_models(out@) =~= spec_encode_tuple(types@, models));
            }
            EncodedForm::Positional(out)
        },
        RecordShape::Unit => EncodedForm::EmptyScalar,
    }
}

/// The element-wise characterization of a tuple encoding.
pub proof fn lemma_encode_tuple_index(types: Seq<FieldType>, items: Seq<ValueModel>)
    requires
        items.len() == types.len(),
    ensures
        spec_encode_tuple(types, items).len() == types.len(),
        forall|i: int| 0 <= i < types.len() ==> #[trigger] spec_encode_tuple(types, items)[i]
            == spec_encode_item(&types[i], items[i]),
    decreases types.len(),
{
    if types.len() > 0 {
        lemma_encode_tuple_index(types.drop_first(), items.drop_first());
        assert forall|i: int| 0 <= i < types.len() implies #[trigger] spec_encode_tuple(
            types,
            items,
        )[i] == spec_encode_item(&types[i], items[i]) by {
            if i > 0 {
                assert(types.drop_first()[i - 1] == types[i]);
                assert(items.drop_first()[i - 1] == items[i]);
            }
        }
    }
}

/// The wire token of one enumeration variant, as a single binary value.
pub open spec fn spec_encode_variant(s: &EnumSchema, idx: int) -> FormModel {
    FormModel::Scalar(encode_utf8(variant_wire_name(s.rule, &s.variants@[idx])))
}

/// Encodes an enumeration variant, chosen by its declaration index.
pub fn encode_variant(s: &EnumSchema, idx: usize) -> (r: EncodedForm)
    requires
        idx < s.variants@.len(),
    ensures
        form_model(&r) == spec_encode_variant(s, idx as int),
{
    let token = crate::schema::wire_name_of_variant(s.rule, &s.variants[idx]);
    EncodedForm::Scalar(token.as_str().as_bytes_vec())
}

} // verus!
