//! The store's generic wire value, held as plain data so the engine's
//! decisions about it can be stated and checked. The host side converts
//! between this type and the client library's own value union.
use vstd::prelude::*;
use vstd::string::StrSliceExecFns;
use vstd::utf8::encode_utf8;

verus! {

broadcast use vstd::std_specs::vec::group_vec_axioms, vstd::seq::group_seq_axioms;

/// A wire value: the discriminated union the store's protocol speaks.
#[derive(Debug, PartialEq)]
pub enum WireValue {
    /// A nil response.
    Null,
    /// An integer response.
    Int(i64),
    /// A simple (line-oriented, not binary safe) string.
    Simple(String),
    /// Arbitrary binary data, the usual carrier for stored fields.
    Bulk(Vec<u8>),
    /// A verbatim string with a format tag.
    Verbatim { format: String, text: String },
    /// An ordered sequence of wire values.
    Array(Vec<WireValue>),
    /// An ordered key-value list.
    Table(Vec<(WireValue, WireValue)>),
}

/// The mathematical shadow of a wire value.
pub ghost enum WireModel {
    Null,
    Int(i64),
    Simple(Seq<char>),
    Bulk(Seq<u8>),
    Verbatim { format: Seq<char>, text: Seq<char> },
    Array(Seq<WireModel>),
    Table(Seq<(WireModel, WireModel)>),
}

/// The model of a wire value.
pub open spec fn wire_model(w: &WireValue) -> WireModel
    decreases w,
{
    match w {
        WireValue::Null => WireModel::Null,
        WireValue::Int(n) => WireModel::Int(*n),
        WireValue::Simple(s) => WireModel::Simple(s@),
        WireValue::Bulk(b) => WireModel::Bulk(b@),
        WireValue::Verbatim { format, text } => WireModel::Verbatim {
            format: format@,
            text: text@,
        },
        WireValue::Array(items) => WireModel::Array(wire_models(items@)),
        WireValue::Table(pairs) => WireModel::Table(wire_pair_models(pairs@)),
    }
}

/// The models of a sequence of wire values.
pub open spec fn wire_models(items: Seq<WireValue>) -> Seq<WireModel>
    decreases items,
{
    if items.len() == 0 {
        Seq::empty()
    } else {
        seq![wire_model(&items[0])] + wire_models(items.drop_first())
    }
}

/// The models of a sequence of wire value pairs.
pub open spec fn wire_pair_models(pairs: Seq<(WireValue, WireValue)>) -> Seq<(
    WireModel,
    WireModel,
)>
    decreases pairs,
{
    if pairs.len() == 0 {
        Seq::empty()
    } else {
        seq![(wire_model(&pairs[0].0), wire_model(&pairs[0].1))] + wire_pair_models(
            pairs.drop_first(),
        )
    }
}

/// The models of a sequence of wire values, element by element.
pub open spec fn items_model(items: Seq<WireValue>) -> Seq<WireModel> {
    Seq::new(items.len(), |i: int| wire_model(&items[i]))
}

/// The models of a key-value list, element by element.
pub open spec fn table_model(pairs: Seq<(WireValue, WireValue)>) -> Seq<(WireModel, WireModel)> {
    Seq::new(pairs.len(), |i: int| (wire_model(&pairs[i].0), wire_model(&pairs[i].1)))
}

/// The models of a named pair list, element by element.
pub open spec fn name_pairs_model(pairs: Seq<(String, WireValue)>) -> Seq<(Seq<char>, WireModel)> {
    Seq::new(pairs.len(), |i: int| (pairs[i].0@, wire_model(&pairs[i].1)))
}

/// The models of a sequence of binary arguments.
pub open spec fn bytes_model(items: Seq<Vec<u8>>) -> Seq<Seq<u8>> {
    Seq::new(items.len(), |i: int| items[i]@)
}

/// The recursive and the element-wise models of a wire value sequence
/// agree.
pub proof fn lemma_wire_models_index(items: Seq<WireValue>)
    ensures
        wire_models(items) == items_model(items),
    decreases items,
{
    if items.len() == 0 {
        assert(wire_models(items) =~= items_model(items));
    } else {
        lemma_wire_models_index(items.drop_first());
        assert(wire_models(items) =~= items_model(items));
    }
}

/// The recursive and the element-wise models of a key-value list agree.
pub proof fn lemma_wire_pair_models_index(pairs: Seq<(WireValue, WireValue)>)
    ensures
        wire_pair_models(pairs) == table_model(pairs),
    decreases pairs,
{
    if pairs.len() == 0 {
        assert(wire_pair_models(pairs) =~= table_model(pairs));
    } else {
        lemma_wire_pair_models_index(pairs.drop_first());
        assert(wire_pair_models(pairs) =~= table_model(pairs));
    }
}

/// The shape serialization produces for one value of a declared type.
#[derive(Debug, PartialEq)]
pub enum EncodedForm {
    /// A single binary value.
    Scalar(Vec<u8>),
    /// An ordered sequence of wire-name / value pairs (the hash-like
    /// representation of a named-field record).
    FlatPairs(Vec<(String, WireValue)>),
    /// An ordered sequence of unnamed values (a tuple-shaped record).
    Positional(Vec<WireValue>),
    /// The zero-content marker of a zero-field record.
    EmptyScalar,
}

/// The mathematical shadow of an encoded form.
pub ghost enum FormModel {
    Scalar(Seq<u8>),
    FlatPairs(Seq<(Seq<char>, WireModel)>),
    Positional(Seq<WireModel>),
    EmptyScalar,
}

/// The model of an encoded form.
pub open spec fn form_model(f: &EncodedForm) -> FormModel {
    match f {
        EncodedForm::Scalar(b) => FormModel::Scalar(b@),
        EncodedForm::FlatPairs(pairs) => FormModel::FlatPairs(
            Seq::new(pairs@.len(), |i: int| (pairs@[i].0@, wire_model(&pairs@[i].1))),
        ),
        EncodedForm::Positional(items) => FormModel::Positional(
            Seq::new(items@.len(), |i: int| wire_model(&items@[i])),
        ),
        EncodedForm::EmptyScalar => FormModel::EmptyScalar,
    }
}

/// Named map keys on the wire are the binary encodings of the wire names.
pub open spec fn pairs_to_table(pairs: Seq<(Seq<char>, WireModel)>) -> Seq<(
    WireModel,
    WireModel,
)> {
    Seq::new(pairs.len(), |i: int| (WireModel::Bulk(encode_utf8(pairs[i].0)), pairs[i].1))
}

/// Turns a named pair list into the key-value list a wire map holds, each
/// name as its binary encoding.
pub fn table_of_pairs(pairs: Vec<(String, WireValue)>) -> (r: Vec<(WireValue, WireValue)>)
    ensures
        table_model(r@) == pairs_to_table(name_pairs_model(pairs@)),
{
    let ghost pmodel = name_pairs_model(pairs@);
    let mut table: Vec<(WireValue, WireValue)> = Vec::new();
    let mut rest = pairs;
    proof {
        assert(name_pairs_model(rest@) =~= pmodel.skip(0));
    }
    while rest.len() > 0
        invariant
            table@.len() + rest@.len() == pmodel.len(),
            name_pairs_model(rest@) == pmodel.skip(table@.len() as int),
            forall|j: int| 0 <= j < table@.len() ==> (#[trigger] table_model(table@)[j]) == (
                WireModel::Bulk(encode_utf8(pmodel[j].0)),
                pmodel[j].1,
            ),
        decreases rest@.len(),
    {
        let ghost k = table@.len() as int;
        let ghost rest_pre = rest@;
        let (name, w) = rest.remove(0);
        proof {
            assert(rest@ =~= rest_pre.drop_first());
            assert(name_pairs_model(rest_pre)[0] == pmodel.skip(k)[0]);
            assert(pmodel.skip(k)[0] == pmodel[k]);
            assert(name@ == pmodel[k].0);
            assert(wire_model(&w) == pmodel[k].1);
        }
        let ghost table_pre = table@;
        let ghost wm = wire_model(&w);
        let key_bytes = name.as_str().as_bytes_vec();
        let ghost kb = key_bytes@;
        table.push((WireValue::Bulk(key_bytes), w));
        proof {
            assert forall|j: int| 0 <= j < rest@.len() implies name_pairs_model(rest@)[j]
                == pmodel.skip(k + 1)[j] by {
                assert(name_pairs_model(rest_pre)[j + 1] == pmodel.skip(k)[j + 1]);
            }
            assert(name_pairs_model(rest@) =~= pmodel.skip(k + 1));
            assert(table@.len() == k + 1);
            assert forall|j: int| 0 <= j < table@.len() implies (#[trigger] table_model(table@)[j])
                == (WireModel::Bulk(encode_utf8(pmodel[j].0)), pmodel[j].1) by {
                if j < k {
                    assert(table@[j] == table_pre[j]);
                    assert(table_model(table_pre)[j] == (
                    WireModel::Bulk(encode_utf8(pmodel[j].0)),
                    pmodel[j].1,
                    ));
                } else {
                    assert(j == k);
                    assert(wire_model(&table@[j].0) == WireModel::Bulk(kb));
                    assert(wire_model(&table@[j].1) == wm);
                    assert(kb == encode_utf8(pmodel[j].0));
                    assert(wm == pmodel[j].1);
                }
            }
        }
    }
    proof {
        assert(table_model(table@) =~= pairs_to_table(pmodel));
    }
    table
}

} // verus!
