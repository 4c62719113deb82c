//! Name transformation: turning a declared identifier into its wire-format
//! string under an optional case-conversion rule and an optional explicit
//! override.
//!
//! Word boundaries are detected both at `_` / `-` separators and at
//! lower-to-upper case transitions, so identifiers that are already
//! `PascalCase`, `camelCase` or `snake_case` all split the same way.
//! Case folding is ASCII: characters outside `a`..`z` / `A`..`Z` are
//! never altered.
use crate::text::push_char;
use vstd::prelude::*;
use vstd::string::StrSliceExecFns;

verus! {

/// True for `A`..`Z`.
pub open spec fn is_upper_char(c: char) -> bool {
    65 <= c as u32 && c as u32 <= 90
}

/// True for `a`..`z`.
pub open spec fn is_lower_char(c: char) -> bool {
    97 <= c as u32 && c as u32 <= 122
}

/// ASCII lowercase folding of one character.
pub open spec fn lower_char(c: char) -> char {
    if is_upper_char(c) {
        ((c as u32 + 32) as u8) as char
    } else {
        c
    }
}

/// ASCII uppercase folding of one character.
pub open spec fn upper_char(c: char) -> char {
    if is_lower_char(c) {
        ((c as u32 - 32) as u8) as char
    } else {
        c
    }
}

/// Word separators consumed by the splitting rules.
pub open spec fn is_word_sep(c: char) -> bool {
    c == '_' || c == '-'
}

/// Full-string lowercase folding, no word splitting.
pub open spec fn lower_chars(s: Seq<char>) -> Seq<char> {
    s.map_values(|c: char| lower_char(c))
}

/// Full-string uppercase folding, no word splitting.
pub open spec fn upper_chars(s: Seq<char>) -> Seq<char> {
    s.map_values(|c: char| upper_char(c))
}

/// A `_` is inserted before position `i` when an uppercase letter follows a
/// lowercase one, or itself precedes a lowercase one (this second clause
/// splits acronym-like runs before their last letter).
pub open spec fn snake_boundary(s: Seq<char>, i: int) -> bool {
    &&& is_upper_char(s[i])
    &&& i > 0
    &&& (is_lower_char(s[i - 1]) || (i + 1 < s.len() && is_lower_char(s[i + 1])))
}

/// The tail of the snake_case conversion from position `i` on.
pub open spec fn snake_from(s: Seq<char>, i: int) -> Seq<char>
    decreases s.len() - i,
{
    if i < 0 || i >= s.len() {
        Seq::empty()
    } else {
        (if snake_boundary(s, i) {
            seq!['_']
        } else {
            Seq::empty()
        }) + seq![lower_char(s[i])] + snake_from(s, i + 1)
    }
}

/// snake_case conversion: split at case-transition boundaries, lowercase
/// everything, join with `_`.
pub open spec fn snake_chars(s: Seq<char>) -> Seq<char> {
    snake_from(s, 0)
}

/// kebab-case replaces the underscores that snake_case produced (or kept)
/// by dashes.
pub open spec fn dash_for_underscore(c: char) -> char {
    if c == '_' {
        '-'
    } else {
        c
    }
}

/// kebab-case conversion: snake_case, then `_` becomes `-`.
pub open spec fn kebab_chars(s: Seq<char>) -> Seq<char> {
    snake_chars(s).map_values(|c: char| dash_for_underscore(c))
}

/// The tail of the PascalCase conversion from position `i` on; `cap` says
/// whether the next non-separator character starts a word.
pub open spec fn pascal_from(s: Seq<char>, i: int, cap: bool) -> Seq<char>
    decreases s.len() - i,
{
    if i < 0 || i >= s.len() {
        Seq::empty()
    } else if is_word_sep(s[i]) {
        pascal_from(s, i + 1, true)
    } else if cap || (is_upper_char(s[i]) && i > 0 && is_lower_char(s[i - 1])) {
        seq![upper_char(s[i])] + pascal_from(s, i + 1, false)
    } else {
        seq![lower_char(s[i])] + pascal_from(s, i + 1, false)
    }
}

/// PascalCase conversion: split on `_` / `-` and on lower-to-upper
/// transitions, capitalize each word's first letter, lowercase the rest,
/// join with nothing.
pub open spec fn pascal_chars(s: Seq<char>) -> Seq<char> {
    pascal_from(s, 0, true)
}

/// camelCase conversion: PascalCase with the leading letter lowercased.
pub open spec fn camel_chars(s: Seq<char>) -> Seq<char> {
    let p = pascal_chars(s);
    if p.len() == 0 {
        p
    } else {
        seq![lower_char(p[0])] + p.drop_first()
    }
}

/// Lowercase one character, ASCII-only.
pub fn lower_of(c: char) -> (r: char)
    ensures
        r == lower_char(c),
{
    let u = c as u32;
    if 65 <= u && u <= 90 {
        ((u + 32) as u8) as char
    } else {
        c
    }
}

/// Uppercase one character, ASCII-only.
pub fn upper_of(c: char) -> (r: char)
    ensures
        r == upper_char(c),
{
    let u = c as u32;
    if 97 <= u && u <= 122 {
        ((u - 32) as u8) as char
    } else {
        c
    }
}

/// Whether `c` is an ASCII uppercase letter.
pub fn is_upper(c: char) -> (r: bool)
    ensures
        r == is_upper_char(c),
{
    let u = c as u32;
    65 <= u && u <= 90
}

/// Whether `c` is an ASCII lowercase letter.
pub fn is_lower(c: char) -> (r: bool)
    ensures
        r == is_lower_char(c),
{
    let u = c as u32;
    97 <= u && u <= 122
}

/// Full-string lowercase folding.
pub fn to_lower_case(s: &str) -> (out: String)
    ensures
        out@ == lower_chars(s@),
{
    let n = s.unicode_len();
    let mut out = String::new();
    let mut i: usize = 0;
    while i < n
        invariant
            n == s@.len(),
            i <= n,
            out@ == s@.subrange(0, i as int).map_values(|c: char| lower_char(c)),
        decreases n - i,
    {
        let c = s.get_char(i);
        push_char(&mut out, lower_of(c));
        proof {
            assert(s@.subrange(0, i + 1 as int).map_values(|c: char| lower_char(c)) =~= s@
                .subrange(0, i as int)
                .map_values(|c: char| lower_char(c))
                .push(lower_char(s@[i as int])));
        }
        i += 1;
    }
    proof {
        assert(s@.subrange(0, n as int) =~= s@);
    }
    out
}

/// Full-string uppercase folding.
pub fn to_upper_case(s: &str) -> (out: String)
    ensures
        out@ == upper_chars(s@),
{
    let n = s.unicode_len();
    let mut out = String::new();
    let mut i: usize = 0;
    while i < n
        invariant
            n == s@.len(),
            i <= n,
            out@ == s@.subrange(0, i as int).map_values(|c: char| upper_char(c)),
        decreases n - i,
    {
        let c = s.get_char(i);
        push_char(&mut out, upper_of(c));
        proof {
            assert(s@.subrange(0, i + 1 as int).map_values(|c: char| upper_char(c)) =~= s@
                .subrange(0, i as int)
                .map_values(|c: char| upper_char(c))
                .push(upper_char(s@[i as int])));
        }
        i += 1;
    }
    proof {
        assert(s@.subrange(0, n as int) =~= s@);
    }
    out
}

/// snake_case conversion of an identifier.
pub fn to_snake_case(s: &str) -> (out: String)
    ensures
        out@ == snake_chars(s@),
{
    let n = s.unicode_len();
    let mut out = String::new();
    let mut i: usize = 0;
    proof {
        assert(Seq::<char>::empty() + snake_from(s@, 0) =~= snake_from(s@, 0));
    }
    while i < n
        invariant
            n == s@.len(),
            i <= n,
            snake_chars(s@) == out@ + snake_from(s@, i as int),
        decreases n - i,
    {
        let ghost pre = out@;
        let c = s.get_char(i);
        let prev_lower = i > 0 && is_lower(s.get_char(i - 1));
        let next_lower = i + 1 < n && is_lower(s.get_char(i + 1));
        let boundary = is_upper(c) && i > 0 && (prev_lower || next_lower);
        if boundary {
            push_char(&mut out, '_');
        }
        push_char(&mut out, lower_of(c));
        proof {
            assert(boundary == snake_boundary(s@, i as int));
            if boundary {
                assert(out@ =~= pre + (seq!['_'] + seq![lower_char(s@[i as int])]));
                assert(pre + (seq!['_'] + seq![lower_char(s@[i as int])] + snake_from(
                    s@,
                    i + 1 as int,
                )) =~= out@ + snake_from(s@, i + 1 as int));
            } else {
                assert(out@ =~= pre + (Seq::<char>::empty() + seq![lower_char(s@[i as int])]));
                assert(pre + (Seq::<char>::empty() + seq![lower_char(s@[i as int])] + snake_from(
                    s@,
                    i + 1 as int,
                )) =~= out@ + snake_from(s@, i + 1 as int));
            }
        }
        i += 1;
    }
    out
}

/// kebab-case conversion of an identifier.
pub fn to_kebab_case(s: &str) -> (out: String)
    ensures
        out@ == kebab_chars(s@),
{
    let t = to_snake_case(s);
    let ts = t.as_str();
    let n = ts.unicode_len();
    let mut out = String::new();
    let mut i: usize = 0;
    while i < n
        invariant
            n == t@.len(),
            t@ == snake_chars(s@),
            ts@ == t@,
            i <= n,
            out@ == t@.subrange(0, i as int).map_values(|c: char| dash_for_underscore(c)),
        decreases n - i,
    {
        let c = ts.get_char(i);
        let mapped = if c == '_' {
            '-'
        } else {
            c
        };
        push_char(&mut out, mapped);
        proof {
            assert(t@.subrange(0, i + 1 as int).map_values(|c: char| dash_for_underscore(c)) =~= t@
                .subrange(0, i as int)
                .map_values(|c: char| dash_for_underscore(c))
                .push(dash_for_underscore(t@[i as int])));
        }
        i += 1;
    }
    proof {
        assert(t@.subrange(0, n as int) =~= t@);
    }
    out
}

/// PascalCase conversion of an identifier.
pub fn to_pascal_case(s: &str) -> (out: String)
    ensures
        out@ == pascal_chars(s@),
{
    let n = s.unicode_len();
    let mut out = String::new();
    let mut i: usize = 0;
    let mut cap = true;
    proof {
        assert(Seq::<char>::empty() + pascal_from(s@, 0, true) =~= pascal_from(s@, 0, true));
    }
    while i < n
        invariant
            n == s@.len(),
            i <= n,
            pascal_chars(s@) == out@ + pascal_from(s@, i as int, cap),
        decreases n - i,
    {
        let ghost pre = out@;
        let c = s.get_char(i);
        if c == '_' || c == '-' {
            cap = true;
        } else if cap || (is_upper(c) && i > 0 && is_lower(s.get_char(i - 1))) {
            push_char(&mut out, upper_of(c));
            cap = false;
            proof {
                assert(pre + (seq![upper_char(s@[i as int])] + pascal_from(s@, i + 1 as int, false))
                    =~= out@ + pascal_from(s@, i + 1 as int, false));
            }
        } else {
            push_char(&mut out, lower_of(c));
            proof {
                assert(pre + (seq![lower_char(s@[i as int])] + pascal_from(s@, i + 1 as int, false))
                    =~= out@ + pascal_from(s@, i + 1 as int, false));
            }
        }
        i += 1;
    }
    out
}

/// camelCase conversion of an identifier.
pub fn to_camel_case(s: &str) -> (out: String)
    ensures
        out@ == camel_chars(s@),
{
    let p = to_pascal_case(s);
    let ps = p.as_str();
    let n = ps.unicode_len();
    if n == 0 {
        return p;
    }
    let first = ps.get_char(0);
    let mut out = String::new();
    push_char(&mut out, lower_of(first));
    let rest = ps.substring_char(1, n);
    crate::text::push_str(&mut out, rest);
    proof {
        assert(out@ =~= seq![lower_char(p@[0])] + p@.drop_first());
    }
    out
}

/// The six case-conversion rules a `rename_all` directive can name.
#[derive(Clone, Copy, Debug, PartialEq, Eq, Structural)]
pub enum CaseRule {
    Lower,
    Upper,
    Pascal,
    Camel,
    Snake,
    Kebab,
}

/// What a rule does to an identifier.
pub open spec fn apply_rule(r: CaseRule, s: Seq<char>) -> Seq<char> {
    match r {
        CaseRule::Lower => lower_chars(s),
        CaseRule::Upper => upper_chars(s),
        CaseRule::Pascal => pascal_chars(s),
        CaseRule::Camel => camel_chars(s),
        CaseRule::Snake => snake_chars(s),
        CaseRule::Kebab => kebab_chars(s),
    }
}

/// An absent rule leaves the identifier unchanged.
pub open spec fn apply_directive(r: Option<CaseRule>, s: Seq<char>) -> Seq<char> {
    match r {
        None => s,
        Some(rule) => apply_rule(rule, s),
    }
}

/// The rule a directive string names, if any.
pub open spec fn rule_of_name(name: Seq<char>) -> Option<CaseRule> {
    if name == "lowercase"@ {
        Some(CaseRule::Lower)
    } else if name == "UPPERCASE"@ {
        Some(CaseRule::Upper)
    } else if name == "PascalCase"@ {
        Some(CaseRule::Pascal)
    } else if name == "camelCase"@ {
        Some(CaseRule::Camel)
    } else if name == "snake_case"@ {
        Some(CaseRule::Snake)
    } else if name == "kebab-case"@ {
        Some(CaseRule::Kebab)
    } else {
        None
    }
}

/// The rule named by an optional directive string, where `None` means no
/// directive was given and an unrecognized name also resolves to `None`.
pub open spec fn directive_of(rename_all: Option<&String>) -> Option<CaseRule> {
    match rename_all {
        None => None,
        Some(name) => rule_of_name(name@),
    }
}

/// True when the optional directive string either is absent or names one of
/// the six rules.
pub open spec fn directive_valid(rename_all: Option<&String>) -> bool {
    match rename_all {
        None => true,
        Some(name) => rule_of_name(name@) is Some,
    }
}

/// Resolves a directive string to its rule.
pub fn parse_case_rule(name: &str) -> (r: Option<CaseRule>)
    ensures
        r == rule_of_name(name@),
{
    if crate::text::str_eq(name, "lowercase") {
        Some(CaseRule::Lower)
    } else if crate::text::str_eq(name, "UPPERCASE") {
        Some(CaseRule::Upper)
    } else if crate::text::str_eq(name, "PascalCase") {
        Some(CaseRule::Pascal)
    } else if crate::text::str_eq(name, "camelCase") {
        Some(CaseRule::Camel)
    } else if crate::text::str_eq(name, "snake_case") {
        Some(CaseRule::Snake)
    } else if crate::text::str_eq(name, "kebab-case") {
        Some(CaseRule::Kebab)
    } else {
        None
    }
}

/// Applies one rule to an identifier.
pub fn apply_case_rule(r: CaseRule, s: &str) -> (out: String)
    ensures
        out@ == apply_rule(r, s@),
{
    match r {
        CaseRule::Lower => to_lower_case(s),
        CaseRule::Upper => to_upper_case(s),
        CaseRule::Pascal => to_pascal_case(s),
        CaseRule::Camel => to_camel_case(s),
        CaseRule::Snake => to_snake_case(s),
        CaseRule::Kebab => to_kebab_case(s),
    }
}

/// The wire string of an enumeration variant: the identifier transformed by
/// the type-level rule, or unchanged when there is none.
pub fn transform_variant_name(variant_name: &str, rename_all: Option<&String>) -> (out: String)
    requires
        directive_valid(rename_all),
    ensures
        out@ == apply_directive(directive_of(rename_all), variant_name@),
{
    match rename_all {
        None => variant_name.to_owned(),
        Some(rule_name) => match parse_case_rule(rule_name.as_str()) {
            Some(rule) => apply_case_rule(rule, variant_name),
            None => {
                proof {
                    assert(false);
                }
                variant_name.to_owned()
            },
        },
    }
}

/// The wire string a field resolves to: an explicit per-field override wins
/// unconditionally; otherwise the type-level rule applies.
pub open spec fn resolved_name(
    identifier: Seq<char>,
    directive: Option<CaseRule>,
    renamed: Option<Seq<char>>,
) -> Seq<char> {
    match renamed {
        Some(over) => over,
        None => apply_directive(directive, identifier),
    }
}

/// The view of an optional override string.
pub open spec fn override_of(field_rename: Option<&String>) -> Option<Seq<char>> {
    match field_rename {
        None => None,
        Some(name) => Some(name@),
    }
}

/// The wire string of a named field, honouring override precedence.
pub fn transform_field_name(
    field_name: &str,
    rename_all: Option<&String>,
    field_rename: Option<&String>,
) -> (out: String)
    requires
        field_rename is Some || directive_valid(rename_all),
    ensures
        out@ == resolved_name(field_name@, directive_of(rename_all), override_of(field_rename)),
{
    match field_rename {
        Some(over) => over.clone(),
        None => transform_variant_name(field_name, rename_all),
    }
}

} // verus!
