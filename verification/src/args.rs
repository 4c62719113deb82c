//! Assembling an encoded form for the outbound side: either as one wire
//! value (the shape the decode direction accepts), or flattened into the
//! sequence of binary arguments that a write-sink receives one by one.
use crate::numeric::{dec_bytes, int_to_decimal};
use crate::text::copy_bytes;
use crate::wire::{
    form_model, name_pairs_model, wire_model, EncodedForm, FormModel, WireModel, WireValue,
};
use vstd::prelude::*;
use vstd::string::StrSliceExecFns;
use vstd::utf8::encode_utf8;

verus! {

broadcast use vstd::std_specs::vec::group_vec_axioms, vstd::seq::group_seq_axioms;

/// The single wire value that carries an encoded form: named pairs travel
/// as a map with binary-string keys, positional values as an array, a
/// scalar as a binary string, and the zero-content marker as null.
pub open spec fn wire_of_form(f: FormModel) -> WireModel {
    match f {
        FormModel::Scalar(b) => WireModel::Bulk(b),
        FormModel::FlatPairs(pairs) => WireModel::Table(crate::wire::pairs_to_table(pairs)),
        FormModel::Positional(ws) => WireModel::Array(ws),
        FormModel::EmptyScalar => WireModel::Null,
    }
}

/// Builds the single wire value that carries an encoded form.
pub fn form_to_wire(form: EncodedForm) -> (r: WireValue)
    ensures
        wire_model(&r) == wire_of_form(form_model(&form)),
{
    match form {
        EncodedForm::Scalar(b) => WireValue::Bulk(b),
        EncodedForm::FlatPairs(pairs) => {
            let table = crate::wire::table_of_pairs(pairs);
            proof {
                crate::wire::lemma_wire_pair_models_index(table@);
            }
            WireValue::Table(table)
        },
        EncodedForm::Positional(ws) => {
            proof {
                crate::wire::lemma_wire_models_index(ws@);
            }
            WireValue::Array(ws)
        },
        EncodedForm::EmptyScalar => WireValue::Null,
    }
}

/// The flat argument stream one wire value contributes to a write-sink:
/// binary and integer leaves give one argument, strings their bytes, arrays
/// and maps each member in order, and null nothing.
pub open spec fn spec_wire_args(w: WireModel) -> Seq<Seq<u8>>
    decreases w, 1int,
{
    match w {
        WireModel::Null => Seq::empty(),
        WireModel::Int(n) => seq![dec_bytes(n as int)],
        WireModel::Simple(s) => seq![encode_utf8(s)],
        WireModel::Bulk(b) => seq![b],
        WireModel::Verbatim { text, .. } => seq![encode_utf8(text)],
        WireModel::Array(ws) => spec_items_args(ws),
        WireModel::Table(pairs) => spec_table_args(pairs),
    }
}

/// The flat argument stream of a sequence of wire values.
pub open spec fn spec_items_args(ws: Seq<WireModel>) -> Seq<Seq<u8>>
    decreases ws, 0int,
{
    if ws.len() == 0 {
        Seq::empty()
    } else {
        spec_wire_args(ws[0]) + spec_items_args(ws.drop_first())
    }
}

/// The flat argument stream of a key-value list, alternating key and value.
pub open spec fn spec_table_args(pairs: Seq<(WireModel, WireModel)>) -> Seq<Seq<u8>>
    decreases pairs, 0int,
{
    if pairs.len() == 0 {
        Seq::empty()
    } else {
        spec_wire_args(pairs[0].0) + spec_wire_args(pairs[0].1) + spec_table_args(
            pairs.drop_first(),
        )
    }
}

/// The full argument stream of an encoded form: a scalar is one argument;
/// named pairs alternate each wire name with its value's arguments; a
/// positional form lists each value's arguments; the zero-content marker is
/// one empty argument.
pub open spec fn spec_form_args(f: FormModel) -> Seq<Seq<u8>> {
    match f {
        FormModel::Scalar(b) => seq![b],
        FormModel::FlatPairs(pairs) => spec_pairs_args(pairs),
        FormModel::Positional(ws) => spec_items_args(ws),
        FormModel::EmptyScalar => seq![Seq::<u8>::empty()],
    }
}

/// The argument stream of a named pair sequence.
pub open spec fn spec_pairs_args(pairs: Seq<(Seq<char>, WireModel)>) -> Seq<Seq<u8>>
    decreases pairs,
{
    if pairs.len() == 0 {
        Seq::empty()
    } else {
        seq![encode_utf8(pairs[0].0)] + spec_wire_args(pairs[0].1) + spec_pairs_args(
            pairs.drop_first(),
        )
    }
}

/// Appends one wire value's argument stream to a sink vector.
#[verifier::loop_isolation(false)]
fn push_wire_args(out: &mut Vec<Vec<u8>>, w: &WireValue)
    ensures
        crate::wire::bytes_model(final(out)@) == crate::wire::bytes_model(old(out)@)
            + spec_wire_args(wire_model(w)),
    decreases w, 1int,
{
    let ghost base = crate::wire::bytes_model(old(out)@);
    match w {
        WireValue::Null => {
            proof {
                assert(crate::wire::bytes_model(out@) =~= base + spec_wire_args(wire_model(w)));
            }
        },
        WireValue::Int(n) => {
            out.push(int_to_decimal(*n));
            proof {
                assert(crate::wire::bytes_model(out@) =~= base + spec_wire_args(wire_model(w)));
            }
        },
        WireValue::Simple(s) => {
            out.push(s.as_str().as_bytes_vec());
            proof {
                assert(crate::wire::bytes_model(out@) =~= base + spec_wire_args(wire_model(w)));
            }
        },
        WireValue::Bulk(b) => {
            out.push(copy_bytes(b));
            proof {
                assert(crate::wire::bytes_model(out@) =~= base + spec_wire_args(wire_model(w)));
            }
        },
        WireValue::Verbatim { text, .. } => {
            out.push(text.as_str().as_bytes_vec());
            proof {
                assert(crate::wire::bytes_model(out@) =~= base + spec_wire_args(wire_model(w)));
            }
        },
        WireValue::Array(items) => {
            let ghost wsm = crate::wire::wire_models(items@);
            proof {
                crate::wire::lemma_wire_models_index(items@);
                assert(wsm.skip(0) =~= wsm);
                assert(base + spec_items_args(wsm) =~= base + spec_items_args(wsm.skip(0)));
            }
            let mut i: usize = 0;
            while i < items.len()
                invariant
                    i <= items@.len(),
                    crate::wire::bytes_model(out@) + spec_items_args(wsm.skip(i as int)) == base
                        + spec_items_args(wsm),
                decreases items@.len() - i,
            {
                let ghost gi = i as int;
                let ghost pre = crate::wire::bytes_model(out@);
                proof {
                    assert(wsm.skip(gi)[0] == wsm[gi]);
                    assert(wsm.skip(gi).drop_first() =~= wsm.skip(gi + 1));
                    assert(wsm[gi] == wire_model(&items@[gi]));
                }
                push_wire_args(out, &items[i]);
                proof {
                    assert(crate::wire::bytes_model(out@) + spec_items_args(wsm.skip(gi + 1))
                        =~= pre + spec_items_args(wsm.skip(gi)));
                }
                i += 1;
            }
            proof {
                assert(spec_items_args(wsm.skip(items@.len() as int)) =~= Seq::<Seq<u8>>::empty());
                assert(crate::wire::bytes_model(out@) + Seq::<Seq<u8>>::empty()
                    =~= crate::wire::bytes_model(out@));
            }
        },
        WireValue::Table(pairs) => {
            let ghost pm = crate::wire::wire_pair_models(pairs@);
            proof {
                crate::wire::lemma_wire_pair_models_index(pairs@);
                assert(pm.skip(0) =~= pm);
                assert(base + spec_table_args(pm) =~= base + spec_table_args(pm.skip(0)));
            }
            let mut i: usize = 0;
            while i < pairs.len()
                invariant
                    i <= pairs@.len(),
                    crate::wire::bytes_model(out@) + spec_table_args(pm.skip(i as int)) == base
                        + spec_table_args(pm),
                decreases pairs@.len() - i,
            {
                let ghost gi = i as int;
                let ghost pre = crate::wire::bytes_model(out@);
                proof {
                    assert(pm.skip(gi)[0] == pm[gi]);
                    assert(pm.skip(gi).drop_first() =~= pm.skip(gi + 1));
                    assert(pm[gi] == (wire_model(&pairs@[gi].0), wire_model(&pairs@[gi].1)));
                }
                push_wire_args(out, &pairs[i].0);
                let ghost mid = crate::wire::bytes_model(out@);
                push_wire_args(out, &pairs[i].1);
                proof {
                    assert(crate::wire::bytes_model(out@) + spec_table_args(pm.skip(gi + 1))
                        =~= pre + spec_table_args(pm.skip(gi)));
                }
                i += 1;
            }
            proof {
                assert(spec_table_args(pm.skip(pairs@.len() as int)) =~= Seq::<Seq<u8>>::empty());
                assert(crate::wire::bytes_model(out@) + Seq::<Seq<u8>>::empty()
                    =~= crate::wire::bytes_model(out@));
            }
        },
    }
}

/// Flattens an encoded form into the argument stream a write-sink receives.
#[verifier::loop_isolation(false)]
pub fn form_to_args(form: &EncodedForm) -> (r: Vec<Vec<u8>>)
    ensures
        crate::wire::bytes_model(r@) == spec_form_args(form_model(form)),
{
    let mut out: Vec<Vec<u8>> = Vec::new();
    match form {
        EncodedForm::Scalar(b) => {
            out.push(copy_bytes(b));
            proof {
                assert(crate::wire::bytes_model(out@) =~= spec_form_args(form_model(form)));
            }
        },
        EncodedForm::FlatPairs(pairs) => {
            let ghost pm = name_pairs_model(pairs@);
            proof {
                assert(pm.skip(0) =~= pm);
                assert(crate::wire::bytes_model(out@) =~= Seq::<Seq<u8>>::empty());
                assert(Seq::<Seq<u8>>::empty() + spec_pairs_args(pm) =~= spec_pairs_args(pm));
            }
            let mut i: usize = 0;
            while i < pairs.len()
                invariant
                    i <= pairs@.len(),
                    crate::wire::bytes_model(out@) + spec_pairs_args(pm.skip(i as int))
                        == spec_pairs_args(pm),
                decreases pairs@.len() - i,
            {
                let ghost gi = i as int;
                let ghost pre = crate::wire::bytes_model(out@);
                proof {
                    assert(pm.skip(gi)[0] == pm[gi]);
                    assert(pm.skip(gi).drop_first() =~= pm.skip(gi + 1));
                    assert(pm[gi] == (pairs@[gi].0@, wire_model(&pairs@[gi].1)));
                }
                out.push(pairs[i].0.as_str().as_bytes_vec());
                proof {
                    assert(crate::wire::bytes_model(out@) =~= pre.push(encode_utf8(pm[gi].0)));
                }
                push_wire_args(&mut out, &pairs[i].1);
                proof {
                    assert(crate::wire::bytes_model(out@) + spec_pairs_args(pm.skip(gi + 1)) =~= pre
                        + spec_pairs_args(pm.skip(gi)));
                }
                i += 1;
            }
            proof {
                assert(spec_pairs_args(pm.skip(pairs@.len() as int)) =~= Seq::<Seq<u8>>::empty());
                assert(crate::wire::bytes_model(out@) + Seq::<Seq<u8>>::empty()
                    =~= crate::wire::bytes_model(out@));
            }
        },
        EncodedForm::Positional(ws) => {
            let ghost wsm = crate::wire::wire_models(ws@);
            proof {
                crate::wire::lemma_wire_models_index(ws@);
                assert(wsm.skip(0) =~= wsm);
                assert(crate::wire::bytes_model(out@) =~= Seq::<Seq<u8>>::empty());
                assert(Seq::<Seq<u8>>::empty() + spec_items_args(wsm) =~= spec_items_args(wsm));
            }
            let mut i: usize = 0;
            while i < ws.len()
                invariant
                    i <= ws@.len(),
                    crate::wire::bytes_model(out@) + spec_items_args(wsm.skip(i as int))
                        == spec_items_args(wsm),
                decreases ws@.len() - i,
            {
                let ghost gi = i as int;
                let ghost pre = crate::wire::bytes_model(out@);
                proof {
                    assert(wsm.skip(gi)[0] == wsm[gi]);
                    assert(wsm.skip(gi).drop_first() =~= wsm.skip(gi + 1));
                    assert(wsm[gi] == wire_model(&ws@[gi]));
                }
                push_wire_args(&mut out, &ws[i]);
                proof {
                    assert(crate::wire::bytes_model(out@) + spec_items_args(wsm.skip(gi + 1))
                        =~= pre + spec_items_args(wsm.skip(gi)));
                }
                i += 1;
            }
            proof {
                assert(spec_items_args(wsm.skip(ws@.len() as int)) =~= Seq::<Seq<u8>>::empty());
                assert(crate::wire::bytes_model(out@) + Seq::<Seq<u8>>::empty()
                    =~= crate::wire::bytes_model(out@));
            }
        },
        EncodedForm::EmptyScalar => {
            let empty: Vec<u8> = Vec::new();
            out.push(empty);
            proof {
                assert(crate::wire::bytes_model(out@) =~= spec_form_args(form_model(form)));
            }
        },
    }
    out
}

} // verus!
