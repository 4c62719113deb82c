//! The decode direction of the shape dispatcher. A named-field record
//! accepts either an even-length alternating pair sequence or a native map
//! (folded identically, last write winning on duplicate keys); a tuple
//! record accepts exactly its declared arity; a zero-field record accepts
//! anything; an enumeration accepts any string-shaped value holding a
//! declared token. All failures surface immediately, wrapped with field or
//! index context.
use crate::errors::{DecodeError, ErrModel};
use crate::names::CaseRule;
use crate::numeric::parse_decimal;
use crate::schema::{
    accepts_null, field_wire_name, variant_wire_name, EnumSchema, FieldDescriptor, FieldType,
    RecordSchema, RecordShape, VariantDescriptor,
};
use crate::values::{null_value, FieldValue, ValueModel};
use crate::wire::{wire_model, WireModel, WireValue};
use vstd::prelude::*;
use vstd::utf8::{decode_utf8, encode_utf8, valid_utf8};

verus! {

broadcast use vstd::std_specs::vec::group_vec_axioms, vstd::seq::group_seq_axioms;

/// The name of a wire value's shape, for error text.
pub open spec fn spec_shape_name(w: WireModel) -> Seq<char> {
    match w {
        WireModel::Null => "null"@,
        WireModel::Int(_) => "integer"@,
        WireModel::Simple(_) => "simple string"@,
        WireModel::Bulk(_) => "binary string"@,
        WireModel::Verbatim { .. } => "verbatim string"@,
        WireModel::Array(_) => "array"@,
        WireModel::Table(_) => "map"@,
    }
}

/// The text payload of a string-shaped wire value: a binary string must be
/// valid UTF-8, a simple or verbatim string carries its text directly.
pub open spec fn spec_text_payload(w: WireModel) -> Option<Seq<char>> {
    match w {
        WireModel::Bulk(b) => if valid_utf8(b) {
            Some(decode_utf8(b))
        } else {
            None
        },
        WireModel::Simple(s) => Some(s),
        WireModel::Verbatim { text, .. } => Some(text),
        _ => None,
    }
}

/// What one wire value decodes to at a declared type.
pub open spec fn spec_decode_value(t: &FieldType, w: WireModel) -> Result<ValueModel, ErrModel>
    decreases t, 0int,
{
    match t {
        FieldType::Text => match w {
            WireModel::Bulk(b) => if valid_utf8(b) {
                Ok(ValueModel::Text(decode_utf8(b)))
            } else {
                Err(ErrModel::EncodingError)
            },
            WireModel::Simple(s) => Ok(ValueModel::Text(s)),
            WireModel::Verbatim { text, .. } => Ok(ValueModel::Text(text)),
            _ => Err(ErrModel::TypeMismatch { expected: "text"@, actual: spec_shape_name(w) }),
        },
        FieldType::Number => match w {
            WireModel::Int(n) => Ok(ValueModel::Number(n)),
            WireModel::Bulk(b) => match parse_decimal(b) {
                Some(v) => Ok(ValueModel::Number(v as i64)),
                None => Err(
                    ErrModel::TypeMismatch { expected: "integer"@, actual: "binary string"@ },
                ),
            },
            WireModel::Simple(s) => match parse_decimal(encode_utf8(s)) {
                Some(v) => Ok(ValueModel::Number(v as i64)),
                None => Err(
                    ErrModel::TypeMismatch { expected: "integer"@, actual: "simple string"@ },
                ),
            },
            WireModel::Verbatim { text, .. } => match parse_decimal(encode_utf8(text)) {
                Some(v) => Ok(ValueModel::Number(v as i64)),
                None => Err(
                    ErrModel::TypeMismatch { expected: "integer"@, actual: "verbatim string"@ },
                ),
            },
            _ => Err(ErrModel::TypeMismatch { expected: "integer"@, actual: spec_shape_name(w) }),
        },
        FieldType::Truth => match w {
            WireModel::Int(n) => Ok(ValueModel::Truth(n != 0)),
            WireModel::Bulk(b) => if b == seq![49u8] {
                Ok(ValueModel::Truth(true))
            } else if b == seq![48u8] {
                Ok(ValueModel::Truth(false))
            } else {
                Err(ErrModel::TypeMismatch { expected: "truth"@, actual: "binary string"@ })
            },
            WireModel::Simple(s) => if s == "1"@ {
                Ok(ValueModel::Truth(true))
            } else if s == "0"@ {
                Ok(ValueModel::Truth(false))
            } else {
                Err(ErrModel::TypeMismatch { expected: "truth"@, actual: "simple string"@ })
            },
            _ => Err(ErrModel::TypeMismatch { expected: "truth"@, actual: spec_shape_name(w) }),
        },
        FieldType::Raw => match w {
            WireModel::Bulk(b) => Ok(ValueModel::Raw(b)),
            _ => Err(
                ErrModel::TypeMismatch { expected: "binary string"@, actual: spec_shape_name(w) },
            ),
        },
        FieldType::Optional(inner) => match w {
            WireModel::Null => Ok(ValueModel::Maybe(None)),
            _ => match spec_decode_value(inner, w) {
                Ok(v) => Ok(ValueModel::Maybe(Some(Box::new(v)))),
                Err(e) => Err(e),
            },
        },
        FieldType::Listing(inner) => match w {
            WireModel::Null => Ok(ValueModel::Many(Seq::empty())),
            WireModel::Array(ws) => match spec_decode_list(inner, ws, 0) {
                Ok(items) => Ok(ValueModel::Many(items)),
                Err(e) => Err(e),
            },
            _ => Err(ErrModel::TypeMismatch { expected: "array"@, actual: spec_shape_name(w) }),
        },
        FieldType::Nested(s) => match spec_decode_record(s, w) {
            Ok(items) => Ok(ValueModel::Nested(items)),
            Err(e) => Err(e),
        },
    }
}

/// What an array's elements decode to at one element type; the first
/// failure aborts, wrapped with the element's index.
pub open spec fn spec_decode_list(t: &FieldType, ws: Seq<WireModel>, idx: int) -> Result<
    Seq<ValueModel>,
    ErrModel,
>
    decreases t, ws.len() as int + 2,
{
    if ws.len() == 0 {
        Ok(Seq::empty())
    } else {
        match spec_decode_value(t, ws[0]) {
            Err(e) => Err(ErrModel::ElementFailure { index: idx, cause: Box::new(e) }),
            Ok(v) => match spec_decode_list(t, ws.drop_first(), idx + 1) {
                Err(e) => Err(e),
                Ok(rest) => Ok(seq![v] + rest),
            },
        }
    }
}

/// Folds a pair-shaped wire value into a name-to-value lookup sequence: an
/// even-length alternating sequence or a native map, whose keys must all be
/// string-shaped. Any other shape is a shape mismatch.
pub open spec fn spec_entries_of(w: WireModel) -> Result<Seq<(Seq<char>, WireModel)>, ErrModel> {
    match w {
        WireModel::Array(ws) => if ws.len() % 2 == 0 {
            spec_pair_up(ws)
        } else {
            Err(
                ErrModel::ShapeMismatch {
                    expected: "even-length pair sequence"@,
                    actual: "odd-length array"@,
                },
            )
        },
        WireModel::Table(pairs) => spec_keyed_entries(pairs),
        _ => Err(
            ErrModel::ShapeMismatch {
                expected: "pair sequence or map"@,
                actual: spec_shape_name(w),
            },
        ),
    }
}

/// Pairs up an even-length alternating name/value sequence.
pub open spec fn spec_pair_up(ws: Seq<WireModel>) -> Result<Seq<(Seq<char>, WireModel)>, ErrModel>
    decreases ws.len(),
{
    if ws.len() < 2 {
        Ok(Seq::empty())
    } else {
        match spec_text_payload(ws[0]) {
            None => Err(
                ErrModel::ShapeMismatch {
                    expected: "string-shaped key"@,
                    actual: spec_shape_name(ws[0]),
                },
            ),
            Some(k) => match spec_pair_up(ws.skip(2)) {
                Err(e) => Err(e),
                Ok(rest) => Ok(seq![(k, ws[1])] + rest),
            },
        }
    }
}

/// Reads a native map's keys as text.
pub open spec fn spec_keyed_entries(pairs: Seq<(WireModel, WireModel)>) -> Result<
    Seq<(Seq<char>, WireModel)>,
    ErrModel,
>
    decreases pairs.len(),
{
    if pairs.len() == 0 {
        Ok(Seq::empty())
    } else {
        match spec_text_payload(pairs[0].0) {
            None => Err(
                ErrModel::ShapeMismatch {
                    expected: "string-shaped key"@,
                    actual: spec_shape_name(pairs[0].0),
                },
            ),
            Some(k) => match spec_keyed_entries(pairs.drop_first()) {
                Err(e) => Err(e),
                Ok(rest) => Ok(seq![(k, pairs[0].1)] + rest),
            },
        }
    }
}

/// Looks a wire name up in the folded entries, last write winning.
pub open spec fn spec_lookup(entries: Seq<(Seq<char>, WireModel)>, name: Seq<char>) -> Option<
    WireModel,
>
    decreases entries.len(),
{
    if entries.len() == 0 {
        None
    } else if entries.last().0 == name {
        Some(entries.last().1)
    } else {
        spec_lookup(entries.drop_last(), name)
    }
}

/// What a named record's fields decode to from the folded entries, in
/// declaration order. A skipped field is treated exactly like an absent
/// one: both decode to the type's empty value when it accepts null, and are
/// a missing required field otherwise. A present field's failure is wrapped
/// with its wire name.
pub open spec fn spec_decode_fields(
    rule: Option<CaseRule>,
    fields: Seq<FieldDescriptor>,
    entries: Seq<(Seq<char>, WireModel)>,
) -> Result<Seq<ValueModel>, ErrModel>
    decreases fields, 0int,
{
    if fields.len() == 0 {
        Ok(Seq::empty())
    } else {
        let name = field_wire_name(rule, &fields[0]);
        let present = if fields[0].skip {
            None
        } else {
            spec_lookup(entries, name)
        };
        let head = match present {
            Some(w) => match spec_decode_value(&fields[0].ty, w) {
                Ok(v) => Ok(v),
                Err(e) => Err(ErrModel::FieldFailure { field: name, cause: Box::new(e) }),
            },
            None => if accepts_null(&fields[0].ty) {
                Ok(null_value(&fields[0].ty))
            } else {
                Err(ErrModel::MissingField { field: name })
            },
        };
        match head {
            Err(e) => Err(e),
            Ok(v) => match spec_decode_fields(rule, fields.drop_first(), entries) {
                Err(e) => Err(e),
                Ok(rest) => Ok(seq![v] + rest),
            },
        }
    }
}

/// What a tuple record's positions decode to; a failure is wrapped with its
/// index.
pub open spec fn spec_decode_tuple(types: Seq<FieldType>, ws: Seq<WireModel>, idx: int) -> Result<
    Seq<ValueModel>,
    ErrModel,
>
    decreases types, 0int,
{
    if types.len() == 0 || ws.len() == 0 {
        Ok(Seq::empty())
    } else {
        match spec_decode_value(&types[0], ws[0]) {
            Err(e) => Err(ErrModel::ElementFailure { index: idx, cause: Box::new(e) }),
            Ok(v) => match spec_decode_tuple(types.drop_first(), ws.drop_first(), idx + 1) {
                Err(e) => Err(e),
                Ok(rest) => Ok(seq![v] + rest),
            },
        }
    }
}

/// What one wire value decodes to at a record schema. A named record wants
/// a pair sequence or map; a tuple record wants an array of exactly its
/// declared arity; a zero-field record accepts any wire value at all (a
/// deliberate permissiveness, kept as the wire-format commitment).
pub open spec fn spec_decode_record(s: &RecordSchema, w: WireModel) -> Result<
    Seq<ValueModel>,
    ErrModel,
>
    decreases s, 0int,
{
    match &s.shape {
        RecordShape::Named(fields) => match spec_entries_of(w) {
            Err(e) => Err(e),
            Ok(entries) => spec_decode_fields(s.rule, fields@, entries),
        },
        RecordShape::Tuple(types) => match w {
            WireModel::Array(ws) => if ws.len() != types@.len() {
                Err(
                    ErrModel::ArityMismatch {
                        expected: types@.len() as int,
                        actual: ws.len() as int,
                    },
                )
            } else {
                spec_decode_tuple(types@, ws, 0)
            },
            _ => Err(ErrModel::ShapeMismatch { expected: "array"@, actual: spec_shape_name(w) }),
        },
        RecordShape::Unit => Ok(Seq::empty()),
    }
}

/// The declaration index of the first variant whose wire token equals the
/// offered token.
pub open spec fn spec_find_variant(
    rule: Option<CaseRule>,
    variants: Seq<VariantDescriptor>,
    token: Seq<char>,
    idx: int,
) -> Option<int>
    decreases variants.len(),
{
    if variants.len() == 0 {
        None
    } else if variant_wire_name(rule, &variants[0]) == token {
        Some(idx)
    } else {
        spec_find_variant(rule, variants.drop_first(), token, idx + 1)
    }
}

/// All wire tokens of an enumeration, joined with `, ` in declaration
/// order.
pub open spec fn spec_token_list(rule: Option<CaseRule>, variants: Seq<VariantDescriptor>) -> Seq<
    char,
>
    decreases variants.len(),
{
    if variants.len() == 0 {
        Seq::empty()
    } else if variants.len() == 1 {
        variant_wire_name(rule, &variants[0])
    } else {
        variant_wire_name(rule, &variants[0]) + ", "@ + spec_token_list(
            rule,
            variants.drop_first(),
        )
    }
}

/// What one wire value decodes to at an enumeration: a string-shaped value
/// holding the wire token of some variant, first match winning. An unknown
/// token reports every valid token; a shape that can never hold a token is
/// a type mismatch; a binary token that is not UTF-8 is an encoding error.
pub open spec fn spec_decode_variant(s: &EnumSchema, w: WireModel) -> Result<int, ErrModel> {
    match w {
        WireModel::Bulk(b) => if valid_utf8(b) {
            spec_match_token(s, decode_utf8(b))
        } else {
            Err(ErrModel::EncodingError)
        },
        WireModel::Simple(st) => spec_match_token(s, st),
        WireModel::Verbatim { text, .. } => spec_match_token(s, text),
        _ => Err(
            ErrModel::TypeMismatch { expected: "string token"@, actual: spec_shape_name(w) },
        ),
    }
}

/// Matches an extracted token against the declared variants.
pub open spec fn spec_match_token(s: &EnumSchema, token: Seq<char>) -> Result<int, ErrModel> {
    match spec_find_variant(s.rule, s.variants@, token, 0) {
        Some(i) => Ok(i),
        None => Err(
            ErrModel::UnknownVariant { token, allowed: spec_token_list(s.rule, s.variants@) },
        ),
    }
}

/// Names a wire value's shape for error text.
pub fn shape_name_of(w: &WireValue) -> (out: String)
    ensures
        out@ == spec_shape_name(wire_model(w)),
{
    match w {
        WireValue::Null => "null".to_owned(),
        WireValue::Int(_) => "integer".to_owned(),
        WireValue::Simple(_) => "simple string".to_owned(),
        WireValue::Bulk(_) => "binary string".to_owned(),
        WireValue::Verbatim { .. } => "verbatim string".to_owned(),
        WireValue::Array(_) => "array".to_owned(),
        WireValue::Table(_) => "map".to_owned(),
    }
}

/// Extracts the text payload of a string-shaped wire value.
pub fn text_payload(w: &WireValue) -> (r: Option<String>)
    ensures
        match r {
            Some(s) => spec_text_payload(wire_model(w)) == Some(s@),
            None => spec_text_payload(wire_model(w)) is None,
        },
{
    match w {
        WireValue::Bulk(b) => crate::text::string_from_utf8(crate::text::copy_bytes(b)),
        WireValue::Simple(s) => Some(s.clone()),
        WireValue::Verbatim { text, .. } => Some(text.clone()),
        _ => None,
    }
}

/// The model of a folded entry list.
pub open spec fn entries_model<'a>(entries: Seq<(String, &'a WireValue)>) -> Seq<
    (Seq<char>, WireModel),
> {
    Seq::new(entries.len(), |i: int| (entries[i].0@, wire_model(entries[i].1)))
}

/// Whether a declared type accepts the null marker as its empty value.
pub fn type_accepts_null(t: &FieldType) -> (r: bool)
    ensures
        r == accepts_null(t),
{
    match t {
        FieldType::Optional(_) => true,
        FieldType::Listing(_) => true,
        FieldType::Nested(s) => matches!(s.shape, RecordShape::Unit),
        _ => false,
    }
}

/// Builds the empty value of a null-accepting type.
pub fn empty_value(t: &FieldType) -> (r: FieldValue)
    requires
        accepts_null(t),
    ensures
        crate::values::value_model(&r) == null_value(t),
{
    match t {
        FieldType::Optional(_) => FieldValue::Maybe(None),
        FieldType::Listing(_) => {
            let items: Vec<FieldValue> = Vec::new();
            proof {
                assert(crate::values::value_models(items@) =~= Seq::<ValueModel>::empty());
            }
            FieldValue::Many(items)
        },
        _ => {
            let items: Vec<FieldValue> = Vec::new();
            proof {
                assert(crate::values::value_models(items@) =~= Seq::<ValueModel>::empty());
            }
            FieldValue::Nested(items)
        },
    }
}

/// Folds a pair-shaped wire value into a name-to-value lookup list.
#[verifier::loop_isolation(false)]
fn fold_entries<'a>(w: &'a WireValue) -> (r: Result<Vec<(String, &'a WireValue)>, DecodeError>)
    ensures
        match r {
            Ok(entries) => spec_entries_of(wire_model(w)) == Ok::<_, ErrModel>(
                entries_model(entries@),
            ),
            Err(e) => spec_entries_of(wire_model(w)) == Err::<Seq<(Seq<char>, WireModel)>, _>(
                crate::errors::err_model(&e),
            ),
        },
{
    match w {
        WireValue::Array(items) => {
            let ghost ws = crate::wire::wire_models(items@);
            proof {
                crate::wire::lemma_wire_models_index(items@);
            }
            if items.len() % 2 != 0 {
                return Err(
                    DecodeError::ShapeMismatch {
                        expected: "even-length pair sequence".to_owned(),
                        actual: "odd-length array".to_owned(),
                    },
                );
            }
            let mut entries: Vec<(String, &'a WireValue)> = Vec::new();
            let mut i: usize = 0;
            proof {
                assert(ws.skip(0) =~= ws);
                assert(Seq::<(Seq<char>, WireModel)>::empty() + spec_pair_up(ws)->Ok_0
                    =~= spec_pair_up(ws)->Ok_0);
            }
            while i < items.len()
                invariant
                    i % 2 == 0,
                    i <= items@.len(),
                    spec_pair_up(ws) == match spec_pair_up(ws.skip(i as int)) {
                        Ok(rest) => Ok::<_, ErrModel>(entries_model(entries@) + rest),
                        Err(e) => Err(e),
                    },
                decreases items@.len() - i,
            {
                let ghost gi = i as int;
                let ghost pre = entries_model(entries@);
                proof {
                    assert(ws.skip(gi)[0] == ws[gi]);
                    assert(ws.skip(gi)[1] == ws[gi + 1]);
                    assert(ws.skip(gi).skip(2) =~= ws.skip(gi + 2));
                    assert(ws[gi] == wire_model(&items@[gi]));
                    assert(ws[gi + 1] == wire_model(&items@[gi + 1]));
                }
                let key = match text_payload(&items[i]) {
                    Some(k) => k,
                    None => {
                        return Err(
                            DecodeError::ShapeMismatch {
                                expected: "string-shaped key".to_owned(),
                                actual: shape_name_of(&items[i]),
                            },
                        );
                    },
                };
                entries.push((key, &items[i + 1]));
                i += 2;
                proof {
                    assert(entries_model(entries@) =~= pre.push(
                        (entries@.last().0@, wire_model(entries@.last().1)),
                    ));
                    assert(pre + (seq![(entries@.last().0@, wire_model(entries@.last().1))]
                        + spec_pair_up(ws.skip(i as int))->Ok_0) =~= entries_model(entries@)
                        + spec_pair_up(ws.skip(i as int))->Ok_0);
                }
            }
            proof {
                assert(spec_pair_up(ws.skip(items@.len() as int)) == Ok::<_, ErrModel>(
                    Seq::<(Seq<char>, WireModel)>::empty(),
                ));
                assert(entries_model(entries@) + Seq::<(Seq<char>, WireModel)>::empty()
                    =~= entries_model(entries@));
            }
            Ok(entries)
        },
        WireValue::Table(pairs) => {
            let ghost pws = crate::wire::wire_pair_models(pairs@);
            proof {
                crate::wire::lemma_wire_pair_models_index(pairs@);
            }
            let mut entries: Vec<(String, &'a WireValue)> = Vec::new();
            let mut i: usize = 0;
            proof {
                assert(pws.skip(0) =~= pws);
                assert(Seq::<(Seq<char>, WireModel)>::empty() + spec_keyed_entries(pws)->Ok_0
                    =~= spec_keyed_entries(pws)->Ok_0);
            }
            while i < pairs.len()
                invariant
                    i <= pairs@.len(),
                    spec_keyed_entries(pws) == match spec_keyed_entries(pws.skip(i as int)) {
                        Ok(rest) => Ok::<_, ErrModel>(entries_model(entries@) + rest),
                        Err(e) => Err(e),
                    },
                decreases pairs@.len() - i,
            {
                let ghost gi = i as int;
                let ghost pre = entries_model(entries@);
                proof {
                    assert(pws.skip(gi)[0] == pws[gi]);
                    assert(pws.skip(gi).drop_first() =~= pws.skip(gi + 1));
                    assert(pws[gi] == (wire_model(&pairs@[gi].0), wire_model(&pairs@[gi].1)));
                }
                let key = match text_payload(&pairs[i].0) {
                    Some(k) => k,
                    None => {
                        return Err(
                            DecodeError::ShapeMismatch {
                                expected: "string-shaped key".to_owned(),
                                actual: shape_name_of(&pairs[i].0),
                            },
                        );
                    },
                };
                entries.push((key, &pairs[i].1));
                i += 1;
                proof {
                    assert(entries_model(entries@) =~= pre.push(
                        (entries@.last().0@, wire_model(entries@.last().1)),
                    ));
                    assert(pre + (seq![(entries@.last().0@, wire_model(entries@.last().1))]
                        + spec_keyed_entries(pws.skip(i as int))->Ok_0) =~= entries_model(entries@)
                        + spec_keyed_entries(pws.skip(i as int))->Ok_0);
                }
            }
            proof {
                assert(spec_keyed_entries(pws.skip(pairs@.len() as int)) == Ok::<_, ErrModel>(
                    Seq::<(Seq<char>, WireModel)>::empty(),
                ));
                assert(entries_model(entries@) + Seq::<(Seq<char>, WireModel)>::empty()
                    =~= entries_model(entries@));
            }
            Ok(entries)
        },
        _ => Err(
            DecodeError::ShapeMismatch {
                expected: "pair sequence or map".to_owned(),
                actual: shape_name_of(w),
            },
        ),
    }
}

/// Looks a wire name up in the folded entries, last write winning.
#[verifier::loop_isolation(false)]
fn lookup_entry<'a, 'b>(entries: &Vec<(String, &'a WireValue)>, name: &'b String) -> (r: Option<
    &'a WireValue,
>)
    ensures
        match r {
            Some(wv) => spec_lookup(entries_model(entries@), name@) == Some(wire_model(wv)),
            None => spec_lookup(entries_model(entries@), name@) is None,
        },
{
    let ghost em = entries_model(entries@);
    let mut i: usize = entries.len();
    proof {
        assert(em.take(entries@.len() as int) =~= em);
    }
    while i > 0
        invariant
            i <= entries@.len(),
            spec_lookup(em, name@) == spec_lookup(em.take(i as int), name@),
        decreases i,
    {
        i -= 1;
        proof {
            assert(em.take(i + 1).last() == em[i as int]);
            assert(em.take(i + 1).drop_last() =~= em.take(i as int));
        }
        if entries[i].0 == *name {
            return Some(entries[i].1);
        }
    }
    proof {
        assert(em.take(0) =~= Seq::<(Seq<char>, WireModel)>::empty());
    }
    None
}

/// Decodes one wire value at a declared type.
#[verifier::loop_isolation(false)]
#[verifier::rlimit(60)]
pub fn decode_value(t: &FieldType, w: &WireValue) -> (r: Result<FieldValue, DecodeError>)
    ensures
        match r {
            Ok(v) => spec_decode_value(t, wire_model(w)) == Ok::<_, ErrModel>(
                crate::values::value_model(&v),
            ),
            Err(e) => spec_decode_value(t, wire_model(w)) == Err::<ValueModel, _>(
                crate::errors::err_model(&e),
            ),
        },
    decreases t, 0int,
{
    match t {
        FieldType::Text => match w {
            WireValue::Bulk(b) => match crate::text::string_from_utf8(crate::text::copy_bytes(b)) {
                Some(s) => Ok(FieldValue::Text(s)),
                None => Err(DecodeError::EncodingError),
            },
            WireValue::Simple(s) => Ok(FieldValue::Text(s.clone())),
            WireValue::Verbatim { text, .. } => Ok(FieldValue::Text(text.clone())),
            _ => Err(
                DecodeError::TypeMismatch { expected: "text".to_owned(), actual: shape_name_of(w) },
            ),
        },
        FieldType::Number => match w {
            WireValue::Int(n) => Ok(FieldValue::Number(*n)),
            WireValue::Bulk(b) => match crate::numeric::decimal_to_int(b) {
                Some(v) => Ok(FieldValue::Number(v)),
                None => Err(
                    DecodeError::TypeMismatch {
                        expected: "integer".to_owned(),
                        actual: "binary string".to_owned(),
                    },
                ),
            },
            WireValue::Simple(s) => {
                let bytes = s.as_str().as_bytes_vec();
                match crate::numeric::decimal_to_int(&bytes) {
                    Some(v) => Ok(FieldValue::Number(v)),
                    None => Err(
                        DecodeError::TypeMismatch {
                            expected: "integer".to_owned(),
                            actual: "simple string".to_owned(),
                        },
                    ),
                }
            },
            WireValue::Verbatim { text, .. } => {
                let bytes = text.as_str().as_bytes_vec();
                match crate::numeric::decimal_to_int(&bytes) {
                    Some(v) => Ok(FieldValue::Number(v)),
                    None => Err(
                        DecodeError::TypeMismatch {
                            expected: "integer".to_owned(),
                            actual: "verbatim string".to_owned(),
                        },
                    ),
                }
            },
            _ => Err(
                DecodeError::TypeMismatch {
                    expected: "integer".to_owned(),
                    actual: shape_name_of(w),
                },
            ),
        },
        FieldType::Truth => match w {
            WireValue::Int(n) => Ok(FieldValue::Truth(*n != 0)),
            WireValue::Bulk(b) => {
                if b.len() == 1 && b[0] == 49 {
                    proof {
                        assert(b@ =~= seq![49u8]);
                    }
                    Ok(FieldValue::Truth(true))
                } else if b.len() == 1 && b[0] == 48 {
                    proof {
                        assert(b@ =~= seq![48u8]);
                    }
                    Ok(FieldValue::Truth(false))
                } else {
                    proof {
                        assert(b@ != seq![49u8] && b@ != seq![48u8]) by {
                            if b@ == seq![49u8] {
                                assert(b@.len() == 1 && b@[0] == 49);
                            }
                            if b@ == seq![48u8] {
                                assert(b@.len() == 1 && b@[0] == 48);
                            }
                        }
                    }
                    Err(
                        DecodeError::TypeMismatch {
                            expected: "truth".to_owned(),
                            actual: "binary string".to_owned(),
                        },
                    )
                }
            },
            WireValue::Simple(s) => {
                if crate::text::str_eq(s.as_str(), "1") {
                    Ok(FieldValue::Truth(true))
                } else if crate::text::str_eq(s.as_str(), "0") {
                    Ok(FieldValue::Truth(false))
                } else {
                    Err(
                        DecodeError::TypeMismatch {
                            expected: "truth".to_owned(),
                            actual: "simple string".to_owned(),
                        },
                    )
                }
            },
            _ => Err(
                DecodeError::TypeMismatch { expected: "truth".to_owned(), actual: shape_name_of(w) },
            ),
        },
        FieldType::Raw => match w {
            WireValue::Bulk(b) => Ok(FieldValue::Raw(crate::text::copy_bytes(b))),
            _ => Err(
                DecodeError::TypeMismatch {
                    expected: "binary string".to_owned(),
                    actual: shape_name_of(w),
                },
            ),
        },
        FieldType::Optional(inner) => match w {
            WireValue::Null => Ok(FieldValue::Maybe(None)),
            _ => match decode_value(inner, w) {
                Ok(v) => Ok(FieldValue::Maybe(Some(Box::new(v)))),
                Err(e) => Err(e),
            },
        },
        FieldType::Listing(inner) => match w {
            WireValue::Null => {
                let items: Vec<FieldValue> = Vec::new();
                proof {
                    assert(crate::values::value_models(items@) =~= Seq::<ValueModel>::empty());
                }
                Ok(FieldValue::Many(items))
            },
            WireValue::Array(ws) => {
                let ghost wsm = crate::wire::wire_models(ws@);
                proof {
                    crate::wire::lemma_wire_models_index(ws@);
                }
                let mut out: Vec<FieldValue> = Vec::new();
                let mut i: usize = 0;
                proof {
                    assert(wsm.skip(0) =~= wsm);
                    crate::values::lemma_value_models_index(out@);
                    assert(crate::values::value_models(out@) =~= Seq::<ValueModel>::empty());
                    assert(Seq::<ValueModel>::empty() + spec_decode_list(inner, wsm, 0)->Ok_0
                        =~= spec_decode_list(inner, wsm, 0)->Ok_0);
                }
                while i < ws.len()
                    invariant
                        i <= ws@.len(),
                        spec_decode_list(inner, wsm, 0) == match spec_decode_list(
                            inner,
                            wsm.skip(i as int),
                            i as int,
                        ) {
                            Ok(rest) => Ok::<_, ErrModel>(
                                crate::values::value_models(out@) + rest,
                            ),
                            Err(e) => Err(e),
                        },
                    decreases ws@.len() - i,
                {
                    let ghost gi = i as int;
                    let ghost pre = crate::values::value_models(out@);
                    proof {
                        assert(wsm.skip(gi)[0] == wsm[gi]);
                        assert(wsm.skip(gi).drop_first() =~= wsm.skip(gi + 1));
                        assert(wsm[gi] == wire_model(&ws@[gi]));
                    }
                    match decode_value(inner, &ws[i]) {
                        Err(e) => {
                            return Err(
                                DecodeError::ElementFailure { index: i, cause: Box::new(e) },
                            );
                        },
                        Ok(v) => {
                            let ghost vm = crate::values::value_model(&v);
                            proof {
                                crate::values::lemma_value_models_index(out@);
                            }
                            out.push(v);
                            proof {
                                crate::values::lemma_value_models_index(out@);
                                assert(crate::values::value_models(out@) =~= pre.push(vm));
                                assert(pre + (seq![vm] + spec_decode_list(
                                    inner,
                                    wsm.skip(gi + 1),
                                    gi + 1,
                                )->Ok_0) =~= crate::values::value_models(out@) + spec_decode_list(
                                    inner,
                                    wsm.skip(gi + 1),
                                    gi + 1,
                                )->Ok_0);
                            }
                        },
                    }
                    i += 1;
                }
                proof {
                    assert(spec_decode_list(inner, wsm.skip(ws@.len() as int), ws@.len() as int)
                        == Ok::<_, ErrModel>(Seq::<ValueModel>::empty()));
                    assert(crate::values::value_models(out@) + Seq::<ValueModel>::empty()
                        =~= crate::values::value_models(out@));
                }
                Ok(FieldValue::Many(out))
            },
            _ => Err(
                DecodeError::TypeMismatch { expected: "array".to_owned(), actual: shape_name_of(w) },
            ),
        },
        FieldType::Nested(s) => match decode_record(s, w) {
            Ok(items) => Ok(FieldValue::Nested(items)),
            Err(e) => Err(e),
        },
    }
}

/// Decodes one wire value at a record schema, yielding one value per
/// declared field in declaration order.
#[verifier::loop_isolation(false)]
#[verifier::rlimit(60)]
pub fn decode_record(s: &RecordSchema, w: &WireValue) -> (r: Result<Vec<FieldValue>, DecodeError>)
    ensures
        match r {
            Ok(vals) => spec_decode_record(s, wire_model(w)) == Ok::<_, ErrModel>(
                crate::values::value_models(vals@),
            ),
            Err(e) => spec_decode_record(s, wire_model(w)) == Err::<Seq<ValueModel>, _>(
                crate::errors::err_model(&e),
            ),
        },
    decreases s, 0int,
{
    match &s.shape {
        RecordShape::Named(fields) => {
            let entries = match fold_entries(w) {
                Ok(entries) => entries,
                Err(e) => {
                    return Err(e);
                },
            };
            let ghost em = entries_model(entries@);
            let mut out: Vec<FieldValue> = Vec::new();
            let mut i: usize = 0;
            proof {
                assert(fields@.skip(0) =~= fields@);
                crate::values::lemma_value_models_index(out@);
                assert(crate::values::value_models(out@) =~= Seq::<ValueModel>::empty());
                assert(Seq::<ValueModel>::empty() + spec_decode_fields(s.rule, fields@, em)->Ok_0
                    =~= spec_decode_fields(s.rule, fields@, em)->Ok_0);
            }
            while i < fields.len()
                invariant
                    i <= fields@.len(),
                    spec_decode_fields(s.rule, fields@, em) == match spec_decode_fields(
                        s.rule,
                        fields@.skip(i as int),
                        em,
                    ) {
                        Ok(rest) => Ok::<_, ErrModel>(crate::values::value_models(out@) + rest),
                        Err(e) => Err(e),
                    },
                decreases fields@.len() - i,
            {
                let ghost gi = i as int;
                let ghost pre = crate::values::value_models(out@);
                let f = &fields[i];
                proof {
                    assert(fields@.skip(gi)[0] == fields@[gi]);
                    assert(fields@.skip(gi).drop_first() =~= fields@.skip(gi + 1));
                }
                let name = crate::schema::wire_name_of_field(s.rule, f);
                let present: Option<&WireValue> = if f.skip {
                    None
                } else {
                    lookup_entry(&entries, &name)
                };
                let v = match present {
                    Some(wv) => match decode_value(&f.ty, wv) {
                        Ok(v) => v,
                        Err(e) => {
                            return Err(
                                DecodeError::FieldFailure { field: name, cause: Box::new(e) },
                            );
                        },
                    },
                    None => {
                        if type_accepts_null(&f.ty) {
                            empty_value(&f.ty)
                        } else {
                            return Err(DecodeError::MissingField { field: name });
                        }
                    },
                };
                let ghost vm = crate::values::value_model(&v);
                proof {
                    crate::values::lemma_value_models_index(out@);
                }
                out.push(v);
                proof {
                    crate::values::lemma_value_models_index(out@);
                    assert(crate::values::value_models(out@) =~= pre.push(vm));
                    assert(pre + (seq![vm] + spec_decode_fields(
                        s.rule,
                        fields@.skip(gi + 1),
                        em,
                    )->Ok_0) =~= crate::values::value_models(out@) + spec_decode_fields(
                        s.rule,
                        fields@.skip(gi + 1),
                        em,
                    )->Ok_0);
                }
                i += 1;
            }
            proof {
                assert(spec_decode_fields(s.rule, fields@.skip(fields@.len() as int), em)
                    == Ok::<_, ErrModel>(Seq::<ValueModel>::empty()));
                assert(crate::values::value_models(out@) + Seq::<ValueModel>::empty()
                    =~= crate::values::value_models(out@));
            }
            Ok(out)
        },
        RecordShape::Tuple(types) => match w {
            WireValue::Array(ws) => {
                let ghost wsm = crate::wire::wire_models(ws@);
                proof {
                    crate::wire::lemma_wire_models_index(ws@);
                }
                if ws.len() != types.len() {
                    return Err(
                        DecodeError::ArityMismatch { expected: types.len(), actual: ws.len() },
                    );
                }
                let mut out: Vec<FieldValue> = Vec::new();
                let mut i: usize = 0;
                proof {
                    assert(types@.skip(0) =~= types@);
                    assert(wsm.skip(0) =~= wsm);
                    crate::values::lemma_value_models_index(out@);
                    assert(crate::values::value_models(out@) =~= Seq::<ValueModel>::empty());
                    assert(Seq::<ValueModel>::empty() + spec_decode_tuple(types@, wsm, 0)->Ok_0
                        =~= spec_decode_tuple(types@, wsm, 0)->Ok_0);
                }
                while i < types.len()
                    invariant
                        i <= types@.len(),
                        wsm.len() == types@.len(),
                        spec_decode_tuple(types@, wsm, 0) == match spec_decode_tuple(
                            types@.skip(i as int),
                            wsm.skip(i as int),
                            i as int,
                        ) {
                            Ok(rest) => Ok::<_, ErrModel>(
                                crate::values::value_models(out@) + rest,
                            ),
                            Err(e) => Err(e),
                        },
                    decreases types@.len() - i,
                {
                    let ghost gi = i as int;
                    let ghost pre = crate::values::value_models(out@);
                    proof {
                        assert(types@.skip(gi)[0] == types@[gi]);
                        assert(types@.skip(gi).drop_first() =~= types@.skip(gi + 1));
                        assert(wsm.skip(gi)[0] == wsm[gi]);
                        assert(wsm.skip(gi).drop_first() =~= wsm.skip(gi + 1));
                        assert(wsm[gi] == wire_model(&ws@[gi]));
                    }
                    match decode_value(&types[i], &ws[i]) {
                        Err(e) => {
                            return Err(
                                DecodeError::ElementFailure { index: i, cause: Box::new(e) },
                            );
                        },
                        Ok(v) => {
                            let ghost vm = crate::values::value_model(&v);
                            proof {
                                crate::values::lemma_value_models_index(out@);
                            }
                            out.push(v);
                            proof {
                                crate::values::lemma_value_models_index(out@);
                                assert(crate::values::value_models(out@) =~= pre.push(vm));
                                assert(pre + (seq![vm] + spec_decode_tuple(
                                    types@.skip(gi + 1),
                                    wsm.skip(gi + 1),
                                    gi + 1,
                                )->Ok_0) =~= crate::values::value_models(out@) + spec_decode_tuple(
                                    types@.skip(gi + 1),
                                    wsm.skip(gi + 1),
                                    gi + 1,
                                )->Ok_0);
                            }
                        },
                    }
                    i += 1;
                }
                proof {
                    assert(spec_decode_tuple(
                        types@.skip(types@.len() as int),
                        wsm.skip(types@.len() as int),
                        types@.len() as int,
                    ) == Ok::<_, ErrModel>(Seq::<ValueModel>::empty()));
                    assert(crate::values::value_models(out@) + Seq::<ValueModel>::empty()
                        =~= crate::values::value_models(out@));
                }
                Ok(out)
            },
            _ => Err(
                DecodeError::ShapeMismatch {
                    expected: "array".to_owned(),
                    actual: shape_name_of(w),
                },
            ),
        },
        RecordShape::Unit => {
            let out: Vec<FieldValue> = Vec::new();
            proof {
                assert(crate::values::value_models(out@) =~= Seq::<ValueModel>::empty());
            }
            Ok(out)
        },
    }
}

/// Decodes one wire value at an enumeration, yielding the matched variant's
/// declaration index.
#[verifier::loop_isolation(false)]
pub fn decode_variant(s: &EnumSchema, w: &WireValue) -> (r: Result<usize, DecodeError>)
    ensures
        match r {
            Ok(i) => i < s.variants@.len() && spec_decode_variant(s, wire_model(w)) == Ok::<
                _,
                ErrModel,
            >(i as int),
            Err(e) => spec_decode_variant(s, wire_model(w)) == Err::<int, _>(
                crate::errors::err_model(&e),
            ),
        },
{
    let token: String = match w {
        WireValue::Bulk(b) => match crate::text::string_from_utf8(crate::text::copy_bytes(b)) {
            Some(st) => st,
            None => {
                return Err(DecodeError::EncodingError);
            },
        },
        WireValue::Simple(st) => st.clone(),
        WireValue::Verbatim { text, .. } => text.clone(),
        _ => {
            return Err(
                DecodeError::TypeMismatch {
                    expected: "string token".to_owned(),
                    actual: shape_name_of(w),
                },
            );
        },
    };
    let variants = &s.variants;
    let mut i: usize = 0;
    proof {
        assert(variants@.skip(0) =~= variants@);
    }
    while i < variants.len()
        invariant
            i <= variants@.len(),
            spec_find_variant(s.rule, variants@, token@, 0) == spec_find_variant(
                s.rule,
                variants@.skip(i as int),
                token@,
                i as int,
            ),
        decreases variants@.len() - i,
    {
        let ghost gi = i as int;
        proof {
            assert(variants@.skip(gi)[0] == variants@[gi]);
            assert(variants@.skip(gi).drop_first() =~= variants@.skip(gi + 1));
        }
        let name = crate::schema::wire_name_of_variant(s.rule, &variants[i]);
        if name == token {
            return Ok(i);
        }
        i += 1;
    }
    let mut allowed = String::new();
    let mut j: usize = 0;
    proof {
        assert(variants@.skip(0) =~= variants@);
        assert(Seq::<char>::empty() + spec_token_list(s.rule, variants@) =~= spec_token_list(
            s.rule,
            variants@,
        ));
    }
    while j < variants.len()
        invariant
            j <= variants@.len(),
            spec_token_list(s.rule, variants@) == allowed@ + spec_token_list(
                s.rule,
                variants@.skip(j as int),
            ),
        decreases variants@.len() - j,
    {
        let ghost gj = j as int;
        let ghost pre = allowed@;
        proof {
            assert(variants@.skip(gj)[0] == variants@[gj]);
            assert(variants@.skip(gj).drop_first() =~= variants@.skip(gj + 1));
        }
        let name = crate::schema::wire_name_of_variant(s.rule, &variants[j]);
        crate::text::push_str(&mut allowed, name.as_str());
        if j + 1 < variants.len() {
            crate::text::push_str(&mut allowed, ", ");
            proof {
                assert(pre + (variant_wire_name(s.rule, &variants@[gj]) + ", "@ + spec_token_list(
                    s.rule,
                    variants@.skip(gj + 1),
                )) =~= allowed@ + spec_token_list(s.rule, variants@.skip(gj + 1)));
            }
        } else {
            proof {
                assert(variants@.skip(gj).len() == 1);
                assert(variants@.skip(gj + 1) =~= Seq::<VariantDescriptor>::empty());
                assert(pre + variant_wire_name(s.rule, &variants@[gj]) =~= allowed@
                    + spec_token_list(s.rule, variants@.skip(gj + 1)));
            }
        }
        j += 1;
    }
    proof {
        if variants@.len() == 0 {
            assert(spec_token_list(s.rule, variants@) =~= allowed@);
        } else {
            assert(spec_token_list(s.rule, variants@.skip(variants@.len() as int))
                =~= Seq::<char>::empty());
            assert(allowed@ + Seq::<char>::empty() =~= allowed@);
        }
    }
    Err(DecodeError::UnknownVariant { token, allowed })
}

} // verus!
