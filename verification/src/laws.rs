//! The engine's laws: the guarantees that hold across encode and decode as
//! a whole, stated over the same specification functions the procedures'
//! own contracts use, and proved.
use crate::errors::ErrModel;
use crate::decode::{
    spec_decode_fields, spec_decode_list, spec_decode_record, spec_decode_tuple, spec_decode_value,
    spec_decode_variant, spec_entries_of, spec_find_variant, spec_keyed_entries, spec_lookup,
    spec_match_token,
};
use crate::encode::{
    spec_encode_fields, spec_encode_item, spec_encode_list, spec_encode_record, spec_encode_tuple,
    spec_encode_value, spec_encode_variant,
};
use crate::wire::pairs_to_table;
use crate::args::wire_of_form;
use crate::names::{
    apply_rule, camel_chars, dash_for_underscore, is_lower_char, is_upper_char, is_word_sep,
    kebab_chars, lower_char, lower_chars, pascal_chars, pascal_from, snake_boundary, snake_chars,
    snake_from, upper_char, upper_chars, CaseRule,
};
use crate::numeric::lemma_parse_of_dec_bytes;
use crate::schema::{
    accepts_null, distinct_variant_names, distinct_wire_names, field_wire_name, variant_wire_name,
    EnumSchema, FieldDescriptor, FieldType, RecordSchema, RecordShape, VariantDescriptor,
};
use crate::values::{
    conforms, conforms_all, conforms_fields, conforms_record, conforms_tuple, null_value,
    ValueModel,
};
use crate::wire::WireModel;
use vstd::prelude::*;
use vstd::utf8::{decode_utf8, encode_utf8, valid_utf8};

verus! {

broadcast use vstd::std_specs::vec::group_vec_axioms, vstd::seq::group_seq_axioms, vstd::utf8::encode_utf8_valid_utf8, vstd::utf8::encode_utf8_decode_utf8;

/// A declared type whose nested record schemas are all faithful.
pub open spec fn faithful_type(t: &FieldType) -> bool
    decreases t, 0int,
{
    match t {
        FieldType::Optional(inner) => faithful_type(inner),
        FieldType::Listing(inner) => faithful_type(inner),
        FieldType::Nested(s) => faithful_schema(s),
        _ => true,
    }
}

/// Faithful named fields: none skipped, each type faithful.
pub open spec fn faithful_fields(fields: Seq<FieldDescriptor>) -> bool
    decreases fields, 0int,
{
    if fields.len() == 0 {
        true
    } else {
        &&& !fields[0].skip
        &&& faithful_type(&fields[0].ty)
        &&& faithful_fields(fields.drop_first())
    }
}

/// Faithful positional types.
pub open spec fn faithful_types(types: Seq<FieldType>) -> bool
    decreases types, 0int,
{
    if types.len() == 0 {
        true
    } else {
        faithful_type(&types[0]) && faithful_types(types.drop_first())
    }
}

/// A schema that loses nothing on the wire: no field is skipped, and the
/// wire names of a named record are pairwise distinct, recursively.
pub open spec fn faithful_schema(s: &RecordSchema) -> bool
    decreases s, 0int,
{
    match &s.shape {
        RecordShape::Named(fields) => distinct_wire_names(s.rule, fields@) && faithful_fields(
            fields@,
        ),
        RecordShape::Tuple(types) => faithful_types(types@),
        RecordShape::Unit => true,
    }
}

/// A value that survives the optional-collapsing encoding: no present
/// optional anywhere wraps a value without a wire representation (an
/// absent optional, a zero-field nested record).
pub open spec fn lossless_value(t: &FieldType, v: ValueModel) -> bool
    decreases t, 0int,
{
    match t {
        FieldType::Optional(inner) => match v {
            ValueModel::Maybe(Some(x)) => spec_encode_value(inner, *x) is Some && lossless_value(
                inner,
                *x,
            ),
            _ => true,
        },
        FieldType::Listing(inner) => match v {
            ValueModel::Many(items) => lossless_list(inner, items),
            _ => true,
        },
        FieldType::Nested(s) => match v {
            ValueModel::Nested(items) => lossless_record(s, items),
            _ => true,
        },
        _ => true,
    }
}

/// Every element of a list is lossless.
pub open spec fn lossless_list(t: &FieldType, items: Seq<ValueModel>) -> bool
    decreases t, items.len() as int + 1,
{
    if items.len() == 0 {
        true
    } else {
        lossless_value(t, items[0]) && lossless_list(t, items.drop_first())
    }
}

/// Every field value of a record instance is lossless.
pub open spec fn lossless_record(s: &RecordSchema, items: Seq<ValueModel>) -> bool
    decreases s, 0int,
{
    match &s.shape {
        RecordShape::Named(fields) => lossless_fields(fields@, items),
        RecordShape::Tuple(types) => lossless_tuple(types@, items),
        RecordShape::Unit => true,
    }
}

/// Lossless values for each named field.
pub open spec fn lossless_fields(fields: Seq<FieldDescriptor>, items: Seq<ValueModel>) -> bool
    decreases fields, 0int,
{
    if fields.len() == 0 || items.len() == 0 {
        true
    } else {
        lossless_value(&fields[0].ty, items[0]) && lossless_fields(
            fields.drop_first(),
            items.drop_first(),
        )
    }
}

/// Lossless values for each positional type.
pub open spec fn lossless_tuple(types: Seq<FieldType>, items: Seq<ValueModel>) -> bool
    decreases types, 0int,
{
    if types.len() == 0 || items.len() == 0 {
        true
    } else {
        lossless_value(&types[0], items[0]) && lossless_tuple(
            types.drop_first(),
            items.drop_first(),
        )
    }
}

/// The null marker decodes to the empty value of every null-accepting type.
proof fn lemma_decode_null(t: &FieldType)
    requires
        accepts_null(t),
    ensures
        spec_decode_value(t, WireModel::Null) == Ok::<_, ErrModel>(null_value(t)),
{
    match t {
        FieldType::Optional(_) => {},
        FieldType::Listing(_) => {},
        FieldType::Nested(s) => {
            assert(spec_decode_record(s, WireModel::Null) == Ok::<_, ErrModel>(
                Seq::<ValueModel>::empty(),
            ));
        },
        _ => {},
    }
}

/// A native map whose keys are the binary encodings of names folds back to
/// exactly those named entries.
proof fn lemma_table_entries(pairs: Seq<(Seq<char>, WireModel)>)
    ensures
        spec_keyed_entries(pairs_to_table(pairs)) == Ok::<_, ErrModel>(pairs),
    decreases pairs.len(),
{
    if pairs.len() == 0 {
        assert(pairs_to_table(pairs).len() == 0);
        assert(spec_keyed_entries(pairs_to_table(pairs)) == Ok::<_, ErrModel>(
            Seq::<(Seq<char>, WireModel)>::empty(),
        ));
        assert(pairs =~= Seq::<(Seq<char>, WireModel)>::empty());
    } else {
        let table = pairs_to_table(pairs);
        assert(table[0] == (WireModel::Bulk(encode_utf8(pairs[0].0)), pairs[0].1));
        assert(valid_utf8(encode_utf8(pairs[0].0)));
        assert(decode_utf8(encode_utf8(pairs[0].0)) == pairs[0].0);
        assert(table.drop_first() =~= pairs_to_table(pairs.drop_first()));
        lemma_table_entries(pairs.drop_first());
        assert(seq![(pairs[0].0, pairs[0].1)] + pairs.drop_first() =~= pairs);
    }
}

/// Looking a name up in a concatenation tries the later entries first.
proof fn lemma_lookup_concat(
    a: Seq<(Seq<char>, WireModel)>,
    b: Seq<(Seq<char>, WireModel)>,
    name: Seq<char>,
)
    ensures
        spec_lookup(a + b, name) == match spec_lookup(b, name) {
            Some(w) => Some(w),
            None => spec_lookup(a, name),
        },
    decreases b.len(),
{
    if b.len() == 0 {
        assert(a + b =~= a);
    } else {
        let ab = a + b;
        assert(ab.last() == b.last());
        if b.last().0 == name {
        } else {
            assert(ab.drop_last() =~= a + b.drop_last());
            lemma_lookup_concat(a, b.drop_last(), name);
        }
    }
}

/// A name no encoded field carries is not found.
proof fn lemma_lookup_absent(
    rule: Option<CaseRule>,
    fields: Seq<FieldDescriptor>,
    items: Seq<ValueModel>,
    name: Seq<char>,
)
    requires
        forall|j: int| 0 <= j < fields.len() ==> #[trigger] field_wire_name(rule, &fields[j])
            != name,
    ensures
        spec_lookup(spec_encode_fields(rule, fields, items), name) is None,
    decreases fields.len(),
{
    if fields.len() == 0 || items.len() == 0 {
    } else {
        let rest = spec_encode_fields(rule, fields.drop_first(), items.drop_first());
        assert forall|j: int| 0 <= j < fields.drop_first().len() implies #[trigger] field_wire_name(
            rule,
            &fields.drop_first()[j],
        ) != name by {
            assert(fields.drop_first()[j] == fields[j + 1]);
        }
        lemma_lookup_absent(rule, fields.drop_first(), items.drop_first(), name);
        if fields[0].skip {
        } else {
            match spec_encode_value(&fields[0].ty, items[0]) {
                None => {},
                Some(w) => {
                    let head = seq![(field_wire_name(rule, &fields[0]), w)];
                    lemma_lookup_concat(head, rest, name);
                    assert(spec_lookup(head, name) is None) by {
                        assert(field_wire_name(rule, &fields[0]) != name);
                        assert(head.last().0 != name);
                        assert(head.drop_last() =~= Seq::<(Seq<char>, WireModel)>::empty());
                        assert(spec_lookup(Seq::<(Seq<char>, WireModel)>::empty(), name) is None);
                    }
                },
            }
        }
    }
}

/// The entry of the one field carrying a name is what the lookup finds:
/// its encoded wire value when it has one, nothing when it is omitted.
proof fn lemma_lookup_found(
    rule: Option<CaseRule>,
    fields: Seq<FieldDescriptor>,
    items: Seq<ValueModel>,
    k: int,
)
    requires
        0 <= k < fields.len(),
        items.len() == fields.len(),
        distinct_wire_names(rule, fields),
        !fields[k].skip,
    ensures
        spec_lookup(spec_encode_fields(rule, fields, items), field_wire_name(rule, &fields[k]))
            == spec_encode_value(&fields[k].ty, items[k]),
    decreases k,
{
    let name = field_wire_name(rule, &fields[k]);
    let rest = spec_encode_fields(rule, fields.drop_first(), items.drop_first());
    if k == 0 {
        assert forall|j: int| 0 <= j < fields.drop_first().len() implies #[trigger] field_wire_name(
            rule,
            &fields.drop_first()[j],
        ) != name by {
            assert(fields.drop_first()[j] == fields[j + 1]);
        }
        lemma_lookup_absent(rule, fields.drop_first(), items.drop_first(), name);
        match spec_encode_value(&fields[0].ty, items[0]) {
            None => {},
            Some(w) => {
                let head = seq![(name, w)];
                lemma_lookup_concat(head, rest, name);
                assert(spec_lookup(head, name) == Some(w));
            },
        }
    } else {
        assert(fields.drop_first()[k - 1] == fields[k]);
        assert(items.drop_first()[k - 1] == items[k]);
        assert forall|i: int, j: int| 0 <= i < j < fields.drop_first().len() implies
            #[trigger] field_wire_name(rule, &fields.drop_first()[i])
            != #[trigger] field_wire_name(rule, &fields.drop_first()[j]) by {
            assert(fields.drop_first()[i] == fields[i + 1]);
            assert(fields.drop_first()[j] == fields[j + 1]);
        }
        lemma_lookup_found(rule, fields.drop_first(), items.drop_first(), k - 1);
        if fields[0].skip {
        } else {
            match spec_encode_value(&fields[0].ty, items[0]) {
                None => {},
                Some(w) => {
                    let head = seq![(field_wire_name(rule, &fields[0]), w)];
                    lemma_lookup_concat(head, rest, name);
                    if spec_lookup(rest, name) is None {
                        assert(field_wire_name(rule, &fields[0]) != name);
                        assert(spec_lookup(head, name) is None) by {
                            assert(head.last().0 != name);
                            assert(head.drop_last() =~= Seq::<(Seq<char>, WireModel)>::empty());
                            assert(spec_lookup(Seq::<(Seq<char>, WireModel)>::empty(), name)
                                is None);
                        }
                    }
                },
            }
        }
    }
}

/// Index form of `faithful_fields`.
proof fn lemma_faithful_fields_index(fields: Seq<FieldDescriptor>)
    requires
        faithful_fields(fields),
    ensures
        forall|i: int| 0 <= i < fields.len() ==> !(#[trigger] fields[i]).skip && faithful_type(
            &fields[i].ty,
        ),
    decreases fields,
{
    if fields.len() > 0 {
        lemma_faithful_fields_index(fields.drop_first());
        assert forall|i: int| 0 <= i < fields.len() implies !(#[trigger] fields[i]).skip
            && faithful_type(&fields[i].ty) by {
            if i > 0 {
                assert(fields.drop_first()[i - 1] == fields[i]);
            }
        }
    }
}

/// Index form of `faithful_types`.
proof fn lemma_faithful_types_index(types: Seq<FieldType>)
    requires
        faithful_types(types),
    ensures
        forall|i: int| 0 <= i < types.len() ==> faithful_type(#[trigger] &types[i]),
    decreases types,
{
    if types.len() > 0 {
        lemma_faithful_types_index(types.drop_first());
        assert forall|i: int| 0 <= i < types.len() implies faithful_type(
            #[trigger] &types[i],
        ) by {
            if i > 0 {
                assert(types.drop_first()[i - 1] == types[i]);
            }
        }
    }
}

/// Index form of `lossless_fields`.
proof fn lemma_lossless_fields_index(fields: Seq<FieldDescriptor>, items: Seq<ValueModel>)
    requires
        lossless_fields(fields, items),
        items.len() == fields.len(),
    ensures
        forall|i: int| 0 <= i < fields.len() ==> lossless_value(
            &fields[i].ty,
            #[trigger] items[i],
        ),
    decreases fields,
{
    if fields.len() > 0 {
        lemma_lossless_fields_index(fields.drop_first(), items.drop_first());
        assert forall|i: int| 0 <= i < fields.len() implies lossless_value(
            &fields[i].ty,
            #[trigger] items[i],
        ) by {
            if i > 0 {
                assert(fields.drop_first()[i - 1] == fields[i]);
                assert(items.drop_first()[i - 1] == items[i]);
            }
        }
    }
}

/// One value of a declared type survives the round trip: what it encodes to
/// decodes back to it, and a value with no wire representation is exactly
/// the type's empty value.
proof fn lemma_value_round_trip(t: &FieldType, v: ValueModel)
    requires
        faithful_type(t),
        conforms(t, v),
        lossless_value(t, v),
    ensures
        match spec_encode_value(t, v) {
            Some(w) => !(w is Null) && spec_decode_value(t, w) == Ok::<_, ErrModel>(v),
            None => accepts_null(t) && v == null_value(t),
        },
    decreases t, 0int,
{
    match t {
        FieldType::Text => {},
        FieldType::Number => {
            if let ValueModel::Number(n) = v {
                lemma_parse_of_dec_bytes(n);
            }
        },
        FieldType::Truth => {
            if let ValueModel::Truth(b) = v {
                if !b {
                    assert(seq![48u8] != seq![49u8]) by {
                        assert(seq![48u8][0] == 48u8);
                        assert(seq![49u8][0] == 49u8);
                    }
                }
            }
        },
        FieldType::Raw => {},
        FieldType::Optional(inner) => match v {
            ValueModel::Maybe(None) => {},
            ValueModel::Maybe(Some(x)) => {
                lemma_value_round_trip(inner, *x);
            },
            _ => {},
        },
        FieldType::Listing(inner) => match v {
            ValueModel::Many(items) => {
                lemma_list_round_trip(inner, items, 0);
            },
            _ => {},
        },
        FieldType::Nested(s) => match v {
            ValueModel::Nested(items) => {
                lemma_record_round_trip(s, items);
                match &s.shape {
                    RecordShape::Named(_) => {},
                    RecordShape::Tuple(_) => {},
                    RecordShape::Unit => {
                        assert(items =~= Seq::<ValueModel>::empty());
                    },
                }
            },
            _ => {},
        },
    }
}

/// A list's elements survive the round trip element by element; an element
/// without a wire representation travels as the null marker and comes back
/// as the type's empty value.
proof fn lemma_list_round_trip(t: &FieldType, items: Seq<ValueModel>, idx: int)
    requires
        faithful_type(t),
        conforms_all(t, items),
        lossless_list(t, items),
    ensures
        spec_decode_list(t, spec_encode_list(t, items), idx) == Ok::<_, ErrModel>(items),
    decreases t, items.len() as int + 1,
{
    if items.len() == 0 {
        assert(items =~= Seq::<ValueModel>::empty());
    } else {
        let ws = spec_encode_list(t, items);
        let head = spec_encode_item(t, items[0]);
        assert(ws[0] == head);
        assert(ws.drop_first() =~= spec_encode_list(t, items.drop_first()));
        lemma_value_round_trip(t, items[0]);
        match spec_encode_value(t, items[0]) {
            Some(w) => {
                assert(head == w);
                assert(spec_decode_value(t, head) == Ok::<_, ErrModel>(items[0]));
            },
            None => {
                lemma_decode_null(t);
                assert(head == WireModel::Null);
                assert(items[0] == null_value(t));
                assert(spec_decode_value(t, head) == Ok::<_, ErrModel>(items[0]));
            },
        }
        lemma_list_round_trip(t, items.drop_first(), idx + 1);
        assert(spec_decode_list(t, ws, idx) == Ok::<_, ErrModel>(
            seq![items[0]] + items.drop_first(),
        ));
        assert(seq![items[0]] + items.drop_first() =~= items);
    }
}

/// A tuple's positions survive the round trip.
proof fn lemma_tuple_round_trip(types: Seq<FieldType>, items: Seq<ValueModel>, idx: int)
    requires
        faithful_types(types),
        conforms_tuple(types, items),
        lossless_tuple(types, items),
    ensures
        spec_decode_tuple(types, spec_encode_tuple(types, items), idx) == Ok::<_, ErrModel>(items),
    decreases types, 0int,
{
    if types.len() == 0 {
        assert(items =~= Seq::<ValueModel>::empty());
    } else {
        let ws = spec_encode_tuple(types, items);
        assert(ws[0] == spec_encode_item(&types[0], items[0]));
        assert(ws.drop_first() =~= spec_encode_tuple(types.drop_first(), items.drop_first()));
        lemma_value_round_trip(&types[0], items[0]);
        match spec_encode_value(&types[0], items[0]) {
            Some(w) => {},
            None => {
                lemma_decode_null(&types[0]);
            },
        }
        lemma_tuple_round_trip(types.drop_first(), items.drop_first(), idx + 1);
        assert(seq![items[0]] + items.drop_first() =~= items);
    }
}

/// The length of an encoded tuple equals its declared arity.
proof fn lemma_encode_tuple_len(types: Seq<FieldType>, items: Seq<ValueModel>)
    requires
        items.len() == types.len(),
    ensures
        spec_encode_tuple(types, items).len() == types.len(),
    decreases types,
{
    if types.len() > 0 {
        lemma_encode_tuple_len(types.drop_first(), items.drop_first());
    }
}

/// Decoding the encoded entries recovers the field values from position `k`
/// on.
proof fn lemma_fields_decode(
    rule: Option<CaseRule>,
    fields: Seq<FieldDescriptor>,
    items: Seq<ValueModel>,
    k: int,
)
    requires
        0 <= k <= fields.len(),
        distinct_wire_names(rule, fields),
        faithful_fields(fields),
        conforms_fields(fields, items),
        lossless_fields(fields, items),
    ensures
        spec_decode_fields(rule, fields.skip(k), spec_encode_fields(rule, fields, items))
            == Ok::<_, ErrModel>(items.skip(k)),
    decreases fields, fields.len() - k,
{
    let entries = spec_encode_fields(rule, fields, items);
    if k == fields.len() {
        assert(fields.skip(k) =~= Seq::<FieldDescriptor>::empty());
        assert(items.skip(k) =~= Seq::<ValueModel>::empty());
    } else {
        crate::values::lemma_conforms_fields_index(fields, items);
        lemma_faithful_fields_index(fields);
        lemma_lossless_fields_index(fields, items);
        let tail = fields.skip(k);
        assert(tail[0] == fields[k]);
        let name = field_wire_name(rule, &fields[k]);
        assert(!fields[k].skip);
        lemma_lookup_found(rule, fields, items, k);
        lemma_value_round_trip(&fields[k].ty, items[k]);
        match spec_encode_value(&fields[k].ty, items[k]) {
            Some(w) => {
                assert(spec_lookup(entries, name) == Some(w));
            },
            None => {
                assert(spec_lookup(entries, name) is None);
            },
        }
        assert(tail.drop_first() =~= fields.skip(k + 1));
        lemma_fields_decode(rule, fields, items, k + 1);
        assert(seq![items[k]] + items.skip(k + 1) =~= items.skip(k));
    }
}

/// Round trip: encoding a record instance and decoding the wire value that
/// carries the result yields the instance back, for every faithful schema
/// (no skipped fields, pairwise distinct wire names) and every conforming,
/// lossless instance (no present optional wrapping a value without a wire
/// representation).
pub proof fn lemma_record_round_trip(s: &RecordSchema, items: Seq<ValueModel>)
    requires
        faithful_schema(s),
        conforms_record(s, items),
        lossless_record(s, items),
    ensures
        spec_decode_record(s, wire_of_form(spec_encode_record(s, items))) == Ok::<_, ErrModel>(
            items,
        ),
    decreases s, 1int,
{
    match &s.shape {
        RecordShape::Named(fields) => {
            let entries = spec_encode_fields(s.rule, fields@, items);
            lemma_table_entries(entries);
            assert(spec_entries_of(WireModel::Table(pairs_to_table(entries))) == Ok::<
                _,
                ErrModel,
            >(entries));
            lemma_fields_decode(s.rule, fields@, items, 0);
            assert(fields@.skip(0) =~= fields@);
            assert(items.skip(0) =~= items);
        },
        RecordShape::Tuple(types) => {
            crate::values::lemma_conforms_tuple_index(types@, items);
            lemma_encode_tuple_len(types@, items);
            lemma_tuple_round_trip(types@, items, 0);
        },
        RecordShape::Unit => {
            assert(items =~= Seq::<ValueModel>::empty());
        },
    }
}

/// ASCII case-folding facts shared by the idempotence proofs.
proof fn lemma_char_case_facts(c: char)
    ensures
        !is_upper_char(lower_char(c)),
        !is_lower_char(upper_char(c)),
        lower_char(lower_char(c)) == lower_char(c),
        upper_char(upper_char(c)) == upper_char(c),
        !is_word_sep(c) ==> !is_word_sep(lower_char(c)) && !is_word_sep(upper_char(c)),
        lower_char(upper_char(lower_char(c))) == lower_char(c),
{
}

/// No character of a snake_case conversion is uppercase.
proof fn lemma_snake_no_upper(s: Seq<char>, i: int)
    ensures
        forall|j: int| 0 <= j < snake_from(s, i).len() ==> !is_upper_char(
            #[trigger] snake_from(s, i)[j],
        ),
    decreases s.len() - i,
{
    if i < 0 || i >= s.len() {
    } else {
        lemma_snake_no_upper(s, i + 1);
        lemma_char_case_facts(s[i]);
        assert forall|j: int| 0 <= j < snake_from(s, i).len() implies !is_upper_char(
            #[trigger] snake_from(s, i)[j],
        ) by {
            let head: Seq<char> = if snake_boundary(s, i) {
                seq!['_']
            } else {
                Seq::empty()
            };
            let whole = head + seq![lower_char(s[i])] + snake_from(s, i + 1);
            if j < head.len() {
                assert(whole[j] == '_');
            } else if j == head.len() {
                assert(whole[j] == lower_char(s[i]));
            } else {
                assert(whole[j] == snake_from(s, i + 1)[j - head.len() - 1]);
            }
        }
    }
}

/// A string without uppercase characters is a fixed point of the
/// snake_case conversion.
proof fn lemma_snake_fixed(t: Seq<char>, i: int)
    requires
        0 <= i <= t.len(),
        forall|j: int| 0 <= j < t.len() ==> !is_upper_char(#[trigger] t[j]),
    ensures
        snake_from(t, i) == t.skip(i),
    decreases t.len() - i,
{
    if i == t.len() {
        assert(t.skip(i) =~= Seq::<char>::empty());
    } else {
        lemma_snake_fixed(t, i + 1);
        assert(!snake_boundary(t, i));
        assert(lower_char(t[i]) == t[i]);
        assert(Seq::<char>::empty() + seq![t[i]] + t.skip(i + 1) =~= t.skip(i));
    }
}

/// Law: the snake_case conversion is idempotent — converting an
/// already-converted identifier changes nothing.
pub proof fn lemma_snake_idempotent(s: Seq<char>)
    ensures
        snake_chars(snake_chars(s)) == snake_chars(s),
{
    let t = snake_chars(s);
    lemma_snake_no_upper(s, 0);
    lemma_snake_fixed(t, 0);
    assert(t.skip(0) =~= t);
}

/// Law: the full-string lowercase folding is idempotent.
pub proof fn lemma_lowercase_idempotent(s: Seq<char>)
    ensures
        lower_chars(lower_chars(s)) == lower_chars(s),
{
    assert forall|j: int| 0 <= j < lower_chars(lower_chars(s)).len() implies lower_chars(
        lower_chars(s),
    )[j] == lower_chars(s)[j] by {
        lemma_char_case_facts(s[j]);
    }
    assert(lower_chars(lower_chars(s)) =~= lower_chars(s));
}

/// Law: the full-string uppercase folding is idempotent.
pub proof fn lemma_uppercase_idempotent(s: Seq<char>)
    ensures
        upper_chars(upper_chars(s)) == upper_chars(s),
{
    assert forall|j: int| 0 <= j < upper_chars(upper_chars(s)).len() implies upper_chars(
        upper_chars(s),
    )[j] == upper_chars(s)[j] by {
        lemma_char_case_facts(s[j]);
        assert(upper_char(upper_char(s[j])) == upper_char(s[j]));
    }
    assert(upper_chars(upper_chars(s)) =~= upper_chars(s));
}

/// Law: the kebab-case conversion is idempotent.
pub proof fn lemma_kebab_idempotent(s: Seq<char>)
    ensures
        kebab_chars(kebab_chars(s)) == kebab_chars(s),
{
    let t = kebab_chars(s);
    lemma_snake_no_upper(s, 0);
    assert forall|j: int| 0 <= j < t.len() implies !is_upper_char(#[trigger] t[j]) && t[j]
        != '_' by {
        assert(t[j] == dash_for_underscore(snake_chars(s)[j]));
    }
    lemma_snake_fixed(t, 0);
    assert(t.skip(0) =~= t);
    assert(kebab_chars(t) =~= t);
}

/// No stranded uppercase: every uppercase character past the start follows
/// a lowercase one. This is exactly the shape on which the word splitting
/// of PascalCase and camelCase can see the word boundaries it produced.
pub open spec fn no_stranded_upper(t: Seq<char>) -> bool {
    forall|j: int| 0 < j < t.len() && is_upper_char(#[trigger] t[j]) ==> is_lower_char(t[j - 1])
}

/// No character of a PascalCase conversion is a word separator.
proof fn lemma_pascal_no_sep(s: Seq<char>, i: int, cap: bool)
    ensures
        forall|j: int| 0 <= j < pascal_from(s, i, cap).len() ==> !is_word_sep(
            #[trigger] pascal_from(s, i, cap)[j],
        ),
    decreases s.len() - i,
{
    if i < 0 || i >= s.len() {
    } else if is_word_sep(s[i]) {
        lemma_pascal_no_sep(s, i + 1, true);
        assert(pascal_from(s, i, cap) == pascal_from(s, i + 1, true));
        assert forall|j: int| 0 <= j < pascal_from(s, i, cap).len() implies !is_word_sep(
            #[trigger] pascal_from(s, i, cap)[j],
        ) by {
            assert(pascal_from(s, i, cap)[j] == pascal_from(s, i + 1, true)[j]);
        }
    } else {
        lemma_pascal_no_sep(s, i + 1, false);
        lemma_char_case_facts(s[i]);
        let head: Seq<char> = if cap || (is_upper_char(s[i]) && i > 0 && is_lower_char(s[i - 1])) {
            seq![upper_char(s[i])]
        } else {
            seq![lower_char(s[i])]
        };
        assert(pascal_from(s, i, cap) == head + pascal_from(s, i + 1, false));
        assert forall|j: int| 0 <= j < pascal_from(s, i, cap).len() implies !is_word_sep(
            #[trigger] pascal_from(s, i, cap)[j],
        ) by {
            if j == 0 {
                assert(pascal_from(s, i, cap)[0] == head[0]);
            } else {
                assert(pascal_from(s, i, cap)[j] == pascal_from(s, i + 1, false)[j - 1]);
            }
        }
    }
}

/// A word-start emission of the PascalCase conversion is fixed by the
/// uppercase folding.
proof fn lemma_pascal_first_fixed(s: Seq<char>, i: int)
    ensures
        pascal_from(s, i, true).len() > 0 ==> upper_char(pascal_from(s, i, true)[0])
            == pascal_from(s, i, true)[0],
    decreases s.len() - i,
{
    if i < 0 || i >= s.len() {
    } else if is_word_sep(s[i]) {
        lemma_pascal_first_fixed(s, i + 1);
    } else {
        lemma_char_case_facts(s[i]);
        assert(pascal_from(s, i, true)[0] == upper_char(s[i]));
    }
}

/// A separator-free string whose uppercase characters all follow lowercase
/// ones is a fixed point of the PascalCase tail conversion.
proof fn lemma_pascal_fixed(t: Seq<char>, i: int)
    requires
        1 <= i <= t.len(),
        forall|j: int| 0 <= j < t.len() ==> !is_word_sep(#[trigger] t[j]),
        no_stranded_upper(t),
    ensures
        pascal_from(t, i, false) == t.skip(i),
    decreases t.len() - i,
{
    if i == t.len() {
        assert(t.skip(i) =~= Seq::<char>::empty());
    } else {
        lemma_pascal_fixed(t, i + 1);
        lemma_char_case_facts(t[i]);
        if is_upper_char(t[i]) && i > 0 && is_lower_char(t[i - 1]) {
            assert(upper_char(t[i]) == t[i]);
            assert(seq![t[i]] + t.skip(i + 1) =~= t.skip(i));
        } else {
            assert(!is_upper_char(t[i]));
            assert(lower_char(t[i]) == t[i]);
            assert(seq![t[i]] + t.skip(i + 1) =~= t.skip(i));
        }
    }
}

/// Law: the PascalCase conversion is idempotent on every identifier whose
/// conversion has no stranded uppercase character (an uppercase word start
/// directly after a digit-final or single-uppercase word, as `a2_bc` or
/// `my_a_field` produce, is re-split differently on a second pass).
pub proof fn lemma_pascal_idempotent(s: Seq<char>)
    requires
        no_stranded_upper(pascal_chars(s)),
    ensures
        pascal_chars(pascal_chars(s)) == pascal_chars(s),
{
    let t = pascal_chars(s);
    lemma_pascal_no_sep(s, 0, true);
    lemma_pascal_first_fixed(s, 0);
    if t.len() == 0 {
    } else {
        lemma_pascal_fixed(t, 1);
        assert(!is_word_sep(t[0]));
        assert(pascal_from(t, 0, true) == seq![upper_char(t[0])] + pascal_from(t, 1, false));
        assert(upper_char(t[0]) == t[0]);
        assert(seq![t[0]] + t.skip(1) =~= t);
    }
}

/// Law: the camelCase conversion is idempotent on every identifier whose
/// conversion has no stranded uppercase character.
pub proof fn lemma_camel_idempotent(s: Seq<char>)
    requires
        no_stranded_upper(camel_chars(s)),
    ensures
        camel_chars(camel_chars(s)) == camel_chars(s),
{
    let p = pascal_chars(s);
    let t = camel_chars(s);
    lemma_pascal_no_sep(s, 0, true);
    lemma_pascal_first_fixed(s, 0);
    if p.len() == 0 {
    } else {
        assert(t == seq![lower_char(p[0])] + p.drop_first());
        assert(t.len() == p.len());
        assert(t[0] == lower_char(p[0]));
        assert forall|j: int| 0 <= j < t.len() implies !is_word_sep(#[trigger] t[j]) by {
            lemma_char_case_facts(p[0]);
            if j > 0 {
                assert(t[j] == p[j]);
            }
        }
        lemma_pascal_fixed(t, 1);
        assert(!is_word_sep(t[0]));
        assert(pascal_from(t, 0, true) == seq![upper_char(t[0])] + pascal_from(t, 1, false));
        let q = pascal_chars(t);
        assert(q == seq![upper_char(t[0])] + t.skip(1));
        assert(q.len() == t.len());
        assert(camel_chars(t) == seq![lower_char(q[0])] + q.drop_first());
        lemma_char_case_facts(p[0]);
        assert(lower_char(upper_char(t[0])) == t[0]);
        assert(q.drop_first() =~= t.skip(1));
        assert(seq![t[0]] + t.skip(1) =~= t);
    }
}

/// Law: applying a rule to its own output changes nothing, for every rule
/// and every identifier — except PascalCase and camelCase on the
/// identifiers whose converted form carries a stranded uppercase character,
/// where the split is not recoverable.
pub proof fn lemma_rule_idempotent(r: CaseRule, s: Seq<char>)
    requires
        r == CaseRule::Pascal ==> no_stranded_upper(apply_rule(r, s)),
        r == CaseRule::Camel ==> no_stranded_upper(apply_rule(r, s)),
    ensures
        apply_rule(r, apply_rule(r, s)) == apply_rule(
            r,
            s,
        ),
{
    match r {
        CaseRule::Lower => lemma_lowercase_idempotent(s),
        CaseRule::Upper => lemma_uppercase_idempotent(s),
        CaseRule::Pascal => lemma_pascal_idempotent(s),
        CaseRule::Camel => lemma_camel_idempotent(s),
        CaseRule::Snake => lemma_snake_idempotent(s),
        CaseRule::Kebab => lemma_kebab_idempotent(s),
    }
}

/// The token of the variant at position `k` is found at position `k`.
proof fn lemma_find_variant_at(
    rule: Option<CaseRule>,
    variants: Seq<VariantDescriptor>,
    k: int,
    idx: int,
)
    requires
        0 <= k < variants.len(),
        distinct_variant_names(rule, variants),
    ensures
        spec_find_variant(rule, variants, variant_wire_name(rule, &variants[k]), idx) == Some(
            idx + k,
        ),
    decreases k,
{
    let token = variant_wire_name(rule, &variants[k]);
    if k == 0 {
    } else {
        assert(variant_wire_name(rule, &variants[0]) != token);
        assert forall|i: int, j: int| 0 <= i < j < variants.drop_first().len() implies #[trigger]
        variant_wire_name(rule, &variants.drop_first()[i]) != #[trigger] variant_wire_name(
            rule,
            &variants.drop_first()[j],
        ) by {
            assert(variants.drop_first()[i] == variants[i + 1]);
            assert(variants.drop_first()[j] == variants[j + 1]);
        }
        assert(variants.drop_first()[k - 1] == variants[k]);
        lemma_find_variant_at(rule, variants.drop_first(), k - 1, idx + 1);
    }
}

/// Round trip for enumerations: encoding a variant's wire token and
/// decoding the wire value that carries it yields the variant's declaration
/// index back, whenever the declared variants resolve to pairwise distinct
/// tokens.
pub proof fn lemma_variant_round_trip(s: &EnumSchema, k: int)
    requires
        0 <= k < s.variants@.len(),
        distinct_variant_names(s.rule, s.variants@),
    ensures
        spec_decode_variant(s, wire_of_form(spec_encode_variant(s, k))) == Ok::<_, ErrModel>(k),
{
    let token = variant_wire_name(s.rule, &s.variants@[k]);
    assert(valid_utf8(encode_utf8(token)));
    assert(decode_utf8(encode_utf8(token)) == token);
    lemma_find_variant_at(s.rule, s.variants@, k, 0);
}

/// Shape-independent token acceptance: a variant token decodes to the same
/// outcome whether it arrives as a binary, simple or verbatim string, and a
/// wire shape that can never hold a token (an integer, an array, a map,
/// null) is always a type mismatch.
pub proof fn lemma_variant_shape_acceptance(s: &EnumSchema, token: Seq<char>, format: Seq<char>)
    ensures
        spec_decode_variant(s, WireModel::Bulk(encode_utf8(token))) == spec_match_token(s, token),
        spec_decode_variant(s, WireModel::Simple(token)) == spec_match_token(s, token),
        spec_decode_variant(s, WireModel::Verbatim { format, text: token }) == spec_match_token(
            s,
            token,
        ),
        forall|n: i64| #[trigger] spec_decode_variant(s, WireModel::Int(n)) matches Err(
            ErrModel::TypeMismatch { .. },
        ),
        forall|ws: Seq<WireModel>| #[trigger] spec_decode_variant(s, WireModel::Array(ws))
            matches Err(ErrModel::TypeMismatch { .. }),
        forall|pairs: Seq<(WireModel, WireModel)>|
            #[trigger] spec_decode_variant(s, WireModel::Table(pairs)) matches Err(
                ErrModel::TypeMismatch { .. },
            ),
        spec_decode_variant(s, WireModel::Null) matches Err(ErrModel::TypeMismatch { .. }),
{
    assert(valid_utf8(encode_utf8(token)));
    assert(decode_utf8(encode_utf8(token)) == token);
}

} // verus!
