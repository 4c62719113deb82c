//! The static description of a declared type: its shape (named fields,
//! positional fields, or none), each field's declared type and renaming
//! directives, and the enumeration variant lists. Everything the encode and
//! decode procedures do is decided from this description.
use crate::attrs::opt_view;
use crate::names::{
    apply_case_rule, apply_directive, directive_of, resolved_name, rule_of_name, CaseRule,
};
use vstd::prelude::*;

verus! {

broadcast use vstd::std_specs::vec::group_vec_axioms, vstd::seq::group_seq_axioms;

/// The declared type of one field, as far as the engine needs to know it.
///
/// The leaves are delegated encodings: text (UTF-8), 64-bit integers
/// (decimal), truth values (`1` / `0`) and raw binary passed through
/// unchanged. The composites are an optional value, a homogeneous list, and
/// a nested record.
#[derive(Debug, PartialEq)]
pub enum FieldType {
    /// UTF-8 text.
    Text,
    /// A signed 64-bit integer, decimal on the wire.
    Number,
    /// A truth value, `1` or `0` on the wire.
    Truth,
    /// Opaque binary data passed through unchanged.
    Raw,
    /// An optional value; absence has no wire representation.
    Optional(Box<FieldType>),
    /// A homogeneous list, an array on the wire.
    Listing(Box<FieldType>),
    /// A nested record, a nested map on the wire.
    Nested(Box<RecordSchema>),
}

/// One named field: its declared identifier, the optional explicit wire-name
/// override, the omission directive, and its declared type.
#[derive(Debug, PartialEq)]
pub struct FieldDescriptor {
    pub identifier: String,
    pub renamed: Option<String>,
    pub skip: bool,
    pub ty: FieldType,
}

/// The shape of a record: named fields, positional fields, or none.
#[derive(Debug, PartialEq)]
pub enum RecordShape {
    Named(Vec<FieldDescriptor>),
    Tuple(Vec<FieldType>),
    Unit,
}

/// A record's full static description: the type-level naming rule and its
/// shape.
#[derive(Debug, PartialEq)]
pub struct RecordSchema {
    pub rule: Option<CaseRule>,
    pub shape: RecordShape,
}

/// One enumeration variant; only unit variants (no associated data) are in
/// scope.
#[derive(Debug, PartialEq)]
pub struct VariantDescriptor {
    pub identifier: String,
}

/// An enumeration's full static description.
#[derive(Debug, PartialEq)]
pub struct EnumSchema {
    pub rule: Option<CaseRule>,
    pub variants: Vec<VariantDescriptor>,
}

/// A build-time configuration fault: it aborts generation and is never a
/// runtime decode error.
#[derive(Debug, PartialEq)]
pub enum ConfigurationError {
    /// A `rename_all` directive named none of the six case rules.
    InvalidRule(String),
    /// An enumeration variant carries fields.
    VariantWithFields(String),
    /// The declared item is neither a record nor an enumeration.
    UnsupportedShape(String),
    /// Two fields of one record resolve to the same wire name; carries the
    /// colliding name.
    NameCollision(String),
}

/// Resolves an optional `rename_all` directive string to its case rule; an
/// unrecognized value is a configuration fault carrying that value.
pub fn resolve_directive(rename_all: &Option<String>) -> (r: Result<
    Option<CaseRule>,
    ConfigurationError,
>)
    ensures
        match rename_all {
            None => r == Ok::<Option<CaseRule>, ConfigurationError>(None),
            Some(n) => match r {
                Ok(d) => rule_of_name(n@) is Some && d == rule_of_name(n@),
                Err(e) => rule_of_name(n@) is None && (e matches ConfigurationError::InvalidRule(m)
                    && m@ == n@),
            },
        },
{
    match rename_all {
        None => Ok(None),
        Some(name) => match crate::names::parse_case_rule(name.as_str()) {
            Some(rule) => Ok(Some(rule)),
            None => Err(ConfigurationError::InvalidRule(name.clone())),
        },
    }
}

/// The wire string of a field under a type-level rule: the explicit override
/// when there is one, the transformed identifier otherwise.
pub open spec fn field_wire_name(rule: Option<CaseRule>, f: &FieldDescriptor) -> Seq<char> {
    resolved_name(f.identifier@, rule, opt_view(f.renamed))
}

/// The wire token of an enumeration variant under a type-level rule.
pub open spec fn variant_wire_name(rule: Option<CaseRule>, v: &VariantDescriptor) -> Seq<char> {
    apply_directive(rule, v.identifier@)
}

/// Computes a field's wire string.
pub fn wire_name_of_field(rule: Option<CaseRule>, f: &FieldDescriptor) -> (out: String)
    ensures
        out@ == field_wire_name(rule, f),
{
    match &f.renamed {
        Some(over) => over.clone(),
        None => match rule {
            None => f.identifier.as_str().to_owned(),
            Some(r) => apply_case_rule(r, f.identifier.as_str()),
        },
    }
}

/// Computes a variant's wire token.
pub fn wire_name_of_variant(rule: Option<CaseRule>, v: &VariantDescriptor) -> (out: String)
    ensures
        out@ == variant_wire_name(rule, v),
{
    match rule {
        None => v.identifier.as_str().to_owned(),
        Some(r) => apply_case_rule(r, v.identifier.as_str()),
    }
}

/// Whether every pair of declared fields resolves to distinct wire names
/// under the type-level rule.
pub open spec fn distinct_wire_names(
    rule: Option<CaseRule>,
    fields: Seq<FieldDescriptor>,
) -> bool {
    forall|i: int, j: int|
        0 <= i < j < fields.len() ==> #[trigger] field_wire_name(rule, &fields[i])
            != #[trigger] field_wire_name(rule, &fields[j])
}

/// Whether a declared type accepts the null marker as its empty value: an
/// optional decodes to absent, a list to empty, and a zero-field nested
/// record to its only instance.
pub open spec fn accepts_null(t: &FieldType) -> bool {
    match t {
        FieldType::Optional(_) => true,
        FieldType::Listing(_) => true,
        FieldType::Nested(s) => s.shape matches RecordShape::Unit,
        _ => false,
    }
}

/// Whether no two fields of any named record in the schema, nested records
/// included, resolve to the same wire name.
pub open spec fn collision_free_schema(s: &RecordSchema) -> bool
    decreases s, 0int,
{
    match &s.shape {
        RecordShape::Named(fields) => distinct_wire_names(s.rule, fields@)
            && collision_free_fields(fields@),
        RecordShape::Tuple(types) => collision_free_types(types@),
        RecordShape::Unit => true,
    }
}

/// Collision freedom of every field's declared type.
pub open spec fn collision_free_fields(fields: Seq<FieldDescriptor>) -> bool
    decreases fields, 0int,
{
    if fields.len() == 0 {
        true
    } else {
        collision_free_type(&fields[0].ty) && collision_free_fields(fields.drop_first())
    }
}

/// Collision freedom of every positional type.
pub open spec fn collision_free_types(types: Seq<FieldType>) -> bool
    decreases types, 0int,
{
    if types.len() == 0 {
        true
    } else {
        collision_free_type(&types[0]) && collision_free_types(types.drop_first())
    }
}

/// Collision freedom of the records nested in one declared type.
pub open spec fn collision_free_type(t: &FieldType) -> bool
    decreases t, 1int,
{
    match t {
        FieldType::Optional(inner) => collision_free_type(inner),
        FieldType::Listing(inner) => collision_free_type(inner),
        FieldType::Nested(s) => collision_free_schema(s),
        _ => true,
    }
}

/// The recursive and the index forms of field collision freedom agree.
proof fn lemma_collision_free_fields_index(fields: Seq<FieldDescriptor>)
    ensures
        collision_free_fields(fields) <==> (forall|i: int| 0 <= i < fields.len()
            ==> collision_free_type(&(#[trigger] fields[i]).ty)),
    decreases fields,
{
    if fields.len() > 0 {
        lemma_collision_free_fields_index(fields.drop_first());
        assert forall|i: int| 0 <= i < fields.len() && collision_free_fields(fields) implies
            collision_free_type(&(#[trigger] fields[i]).ty) by {
            if i > 0 {
                assert(fields.drop_first()[i - 1] == fields[i]);
            }
        }
        if forall|i: int| 0 <= i < fields.len() ==> collision_free_type(
            &(#[trigger] fields[i]).ty,
        ) {
            assert forall|i: int| 0 <= i < fields.drop_first().len() implies collision_free_type(
                &(#[trigger] fields.drop_first()[i]).ty,
            ) by {
                assert(fields.drop_first()[i] == fields[i + 1]);
            }
        }
    }
}

/// The recursive and the index forms of positional collision freedom agree.
proof fn lemma_collision_free_types_index(types: Seq<FieldType>)
    ensures
        collision_free_types(types) <==> (forall|i: int| 0 <= i < types.len()
            ==> collision_free_type(#[trigger] &types[i])),
    decreases types,
{
    if types.len() > 0 {
        lemma_collision_free_types_index(types.drop_first());
        assert forall|i: int| 0 <= i < types.len() && collision_free_types(types) implies
            collision_free_type(#[trigger] &types[i]) by {
            if i > 0 {
                assert(types.drop_first()[i - 1] == types[i]);
            }
        }
        if forall|i: int| 0 <= i < types.len() ==> collision_free_type(#[trigger] &types[i]) {
            assert forall|i: int| 0 <= i < types.drop_first().len() implies collision_free_type(
                #[trigger] &types.drop_first()[i],
            ) by {
                assert(types.drop_first()[i] == types[i + 1]);
            }
        }
    }
}

/// Whether every pair of declared variants resolves to distinct wire
/// tokens under the type-level rule.
pub open spec fn distinct_variant_names(
    rule: Option<CaseRule>,
    variants: Seq<VariantDescriptor>,
) -> bool {
    forall|i: int, j: int|
        0 <= i < j < variants.len() ==> #[trigger] variant_wire_name(rule, &variants[i])
            != #[trigger] variant_wire_name(rule, &variants[j])
}

/// Checks an enumeration for wire-token collisions: two variants resolving
/// to the same token would leave the later one unreachable on decode, so
/// generation should refuse the enumeration. On a collision the fault
/// carries the colliding token.
#[verifier::loop_isolation(false)]
pub fn check_token_collisions(s: &EnumSchema) -> (r: Result<(), ConfigurationError>)
    ensures
        r is Ok <==> distinct_variant_names(s.rule, s.variants@),
{
    let variants = &s.variants;
    let mut names: Vec<String> = Vec::new();
    let mut i: usize = 0;
    while i < variants.len()
        invariant
            i <= variants@.len(),
            names@.len() == i,
            forall|j: int| 0 <= j < i ==> (#[trigger] names@[j])@ == variant_wire_name(
                s.rule,
                &variants@[j],
            ),
        decreases variants@.len() - i,
    {
        let name = wire_name_of_variant(s.rule, &variants[i]);
        names.push(name);
        i += 1;
    }
    let mut a: usize = 0;
    while a < variants.len()
        invariant
            a <= variants@.len(),
            names@.len() == variants@.len(),
            forall|j: int| 0 <= j < variants@.len() ==> (#[trigger] names@[j])@
                == variant_wire_name(s.rule, &variants@[j]),
            forall|x: int, y: int| 0 <= x < y < variants@.len() && x < a
                ==> #[trigger] variant_wire_name(s.rule, &variants@[x])
                != #[trigger] variant_wire_name(s.rule, &variants@[y]),
        decreases variants@.len() - a,
    {
        let mut b: usize = a + 1;
        while b < variants.len()
            invariant
                a < variants@.len(),
                a + 1 <= b <= variants@.len(),
                forall|y: int| a < y < b ==> #[trigger] variant_wire_name(
                    s.rule,
                    &variants@[a as int],
                ) != variant_wire_name(s.rule, &variants@[y]),
            decreases variants@.len() - b,
        {
            if names[a] == names[b] {
                proof {
                    assert(variant_wire_name(s.rule, &variants@[a as int]) == variant_wire_name(
                        s.rule,
                        &variants@[b as int],
                    ));
                    assert(!distinct_variant_names(s.rule, variants@));
                }
                return Err(ConfigurationError::NameCollision(names[a].clone()));
            }
            b += 1;
        }
        a += 1;
    }
    Ok(())
}

/// Checks one declared type for wire-name collisions in its nested records.
#[verifier::loop_isolation(false)]
fn check_type_collisions(t: &FieldType) -> (r: Result<(), ConfigurationError>)
    ensures
        r is Ok <==> collision_free_type(t),
    decreases t, 1int,
{
    match t {
        FieldType::Optional(inner) => check_type_collisions(inner),
        FieldType::Listing(inner) => check_type_collisions(inner),
        FieldType::Nested(s) => check_name_collisions(s),
        _ => Ok(()),
    }
}

/// Checks a record schema for wire-name collisions, nested records
/// included: two fields resolving to the same wire string would silently
/// shadow each other on decode, so generation should refuse the schema. On
/// a collision the fault carries the colliding wire name.
#[verifier::loop_isolation(false)]
pub fn check_name_collisions(s: &RecordSchema) -> (r: Result<(), ConfigurationError>)
    ensures
        r is Ok <==> collision_free_schema(s),
    decreases s, 0int,
{
    match &s.shape {
        RecordShape::Named(fields) => {
            let mut names: Vec<String> = Vec::new();
            let mut i: usize = 0;
            while i < fields.len()
                invariant
                    i <= fields@.len(),
                    names@.len() == i,
                    forall|j: int| 0 <= j < i ==> (#[trigger] names@[j])@ == field_wire_name(
                        s.rule,
                        &fields@[j],
                    ),
                decreases fields@.len() - i,
            {
                let name = wire_name_of_field(s.rule, &fields[i]);
                names.push(name);
                i += 1;
            }
            let mut a: usize = 0;
            while a < fields.len()
                invariant
                    a <= fields@.len(),
                    names@.len() == fields@.len(),
                    forall|j: int| 0 <= j < fields@.len() ==> (#[trigger] names@[j])@
                        == field_wire_name(s.rule, &fields@[j]),
                    forall|x: int, y: int| 0 <= x < y < fields@.len() && x < a
                        ==> #[trigger] field_wire_name(s.rule, &fields@[x])
                        != #[trigger] field_wire_name(s.rule, &fields@[y]),
                decreases fields@.len() - a,
            {
                let mut b: usize = a + 1;
                while b < fields.len()
                    invariant
                        a < b || a + 1 == b,
                        a < fields@.len(),
                        a + 1 <= b <= fields@.len(),
                        forall|y: int| a < y < b ==> #[trigger] field_wire_name(
                            s.rule,
                            &fields@[a as int],
                        ) != field_wire_name(s.rule, &fields@[y]),
                    decreases fields@.len() - b,
                {
                    if names[a] == names[b] {
                        proof {
                            assert(field_wire_name(s.rule, &fields@[a as int]) == field_wire_name(
                                s.rule,
                                &fields@[b as int],
                            ));
                            assert(!distinct_wire_names(s.rule, fields@));
                        }
                        return Err(ConfigurationError::NameCollision(names[a].clone()));
                    }
                    b += 1;
                }
                a += 1;
            }
            proof {
                assert(distinct_wire_names(s.rule, fields@));
            }
            let mut k: usize = 0;
            proof {
                lemma_collision_free_fields_index(fields@);
            }
            while k < fields.len()
                invariant
                    k <= fields@.len(),
                    distinct_wire_names(s.rule, fields@),
                    forall|j: int| 0 <= j < k ==> collision_free_type(
                        &(#[trigger] fields@[j]).ty,
                    ),
                decreases fields@.len() - k,
            {
                if let Err(e) = check_type_collisions(&fields[k].ty) {
                    return Err(e);
                }
                k += 1;
            }
            Ok(())
        },
        RecordShape::Tuple(types) => {
            let mut k: usize = 0;
            proof {
                lemma_collision_free_types_index(types@);
            }
            while k < types.len()
                invariant
                    k <= types@.len(),
                    forall|j: int| 0 <= j < k ==> collision_free_type(#[trigger] &types@[j]),
                decreases types@.len() - k,
            {
                if let Err(e) = check_type_collisions(&types[k]) {
                    return Err(e);
                }
                k += 1;
            }
            Ok(())
        },
        RecordShape::Unit => Ok(()),
    }
}

} // verus!
