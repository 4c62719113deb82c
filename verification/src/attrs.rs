//! Parsing of the declarative directive surface: given the token text of a
//! `#[redis(...)]` attribute (already extracted from the source by the host
//! side), decide which renaming and omission directives it sets.
use crate::text::push_str;
use vstd::prelude::*;
use vstd::string::StrSliceExecFns;

verus! {

/// Type-level directives collected from attribute token text.
#[derive(Debug, Default, Clone)]
pub struct ParsedAttributeMap {
    pub rename_all: Option<String>,
    pub cluster_key: Option<String>,
    pub cache: bool,
    pub ttl: Option<String>,
}

/// Field-level directives collected from attribute token text.
#[derive(Debug, Default, Clone)]
pub struct FieldAttributes {
    pub skip: bool,
    pub rename: Option<String>,
    pub expire: Option<String>,
    pub expire_at: Option<String>,
}

/// Whether `pat` occurs in `s` starting at position `i`.
pub open spec fn is_match_at(s: Seq<char>, pat: Seq<char>, i: int) -> bool {
    &&& 0 <= i
    &&& i + pat.len() <= s.len()
    &&& s.subrange(i, i + pat.len() as int) == pat
}

/// The first occurrence of `pat` in `s` at or after position `i`.
pub open spec fn find_from(s: Seq<char>, pat: Seq<char>, i: int) -> Option<int>
    decreases s.len() - i,
{
    if i < 0 || i + pat.len() > s.len() {
        None
    } else if pat.len() == 0 || s.subrange(i, i + pat.len() as int) == pat {
        Some(i)
    } else {
        find_from(s, pat, i + 1)
    }
}

/// The first occurrence of `pat` in `s`.
pub open spec fn find_pat(s: Seq<char>, pat: Seq<char>) -> Option<int> {
    find_from(s, pat, 0)
}

/// Whether `pat` occurs anywhere in `s`.
pub open spec fn contains_pat(s: Seq<char>, pat: Seq<char>) -> bool {
    find_pat(s, pat) is Some
}

/// A found position is a match position at or after the start.
proof fn lemma_find_from_props(s: Seq<char>, pat: Seq<char>, start: int, found: int)
    requires
        find_from(s, pat, start) == Some(found),
    ensures
        start <= found,
        is_match_at(s, pat, found),
    decreases s.len() - start,
{
    if start < 0 || start + pat.len() > s.len() {
    } else if s.subrange(start, start + pat.len() as int) == pat {
    } else {
        assert(pat.len() > 0) by {
            if pat.len() == 0 {
                assert(s.subrange(start, start) =~= pat);
            }
        }
        lemma_find_from_props(s, pat, start + 1, found);
    }
}

/// Whether `pat` occurs in `s` at position `i`.
fn match_at(s: &str, pat: &str, i: usize) -> (r: bool)
    requires
        i + pat@.len() <= s@.len(),
    ensures
        r == is_match_at(s@, pat@, i as int),
{
    let n = s.unicode_len();
    let m = pat.unicode_len();
    let mut j: usize = 0;
    while j < m
        invariant
            n == s@.len(),
            m == pat@.len(),
            i + m <= n,
            j <= m,
            forall|k: int| 0 <= k < j ==> s@[i + k] == pat@[k],
        decreases m - j,
    {
        if s.get_char(i + j) != pat.get_char(j) {
            proof {
                assert(s@.subrange(i as int, i + m as int)[j as int] != pat@[j as int]);
            }
            return false;
        }
        j += 1;
    }
    proof {
        assert(s@.subrange(i as int, i + m as int) =~= pat@);
    }
    true
}

/// The first occurrence of `pat` in `s`, scanning left to right.
pub fn find_str(s: &str, pat: &str) -> (r: Option<usize>)
    ensures
        match r {
            Some(i) => find_pat(s@, pat@) == Some(i as int) && is_match_at(s@, pat@, i as int),
            None => find_pat(s@, pat@) is None,
        },
{
    let n = s.unicode_len();
    let m = pat.unicode_len();
    if m > n {
        return None;
    }
    if m == 0 {
        proof {
            assert(s@.subrange(0, 0) =~= pat@);
        }
        return Some(0);
    }
    let mut i: usize = 0;
    while i <= n - m
        invariant
            n == s@.len(),
            m == pat@.len(),
            0 < m <= n,
            i <= n - m + 1,
            find_pat(s@, pat@) == find_from(s@, pat@, i as int),
        decreases n - i,
    {
        if match_at(s, pat, i) {
            proof {
                lemma_find_from_props(s@, pat@, i as int, i as int);
            }
            return Some(i);
        }
        i += 1;
    }
    None
}

/// Whether `pat` occurs anywhere in `s`.
pub fn contains_str(s: &str, pat: &str) -> (r: bool)
    ensures
        r == contains_pat(s@, pat@),
{
    find_str(s, pat).is_some()
}

/// The value of a `key = "value"` directive in attribute token text: the
/// characters between the first pair of double quotes after the first
/// occurrence of `key` followed by ` =`.
pub open spec fn extract_quoted(tokens: Seq<char>, key: Seq<char>) -> Option<Seq<char>> {
    let pat = key + " ="@;
    match find_pat(tokens, pat) {
        None => None,
        Some(p) => {
            let after = tokens.subrange(p + pat.len() as int, tokens.len() as int);
            match find_pat(after, "\""@) {
                None => None,
                Some(q) => {
                    let tail = after.subrange(q + 1, after.len() as int);
                    match find_pat(tail, "\""@) {
                        None => None,
                        Some(e) => Some(tail.subrange(0, e)),
                    }
                },
            }
        },
    }
}

/// Extracts the quoted value of a `key = "value"` directive from attribute
/// token text, if the pattern is present.
pub fn extract_quoted_value(tokens: &str, key: &str) -> (r: Option<String>)
    ensures
        match r {
            Some(v) => extract_quoted(tokens@, key@) == Some(v@),
            None => extract_quoted(tokens@, key@) is None,
        },
{
    let mut pat = key.to_owned();
    push_str(&mut pat, " =");
    let p = match find_str(tokens, pat.as_str()) {
        Some(p) => p,
        None => {
            return None;
        },
    };
    let n = tokens.unicode_len();
    let pat_len = pat.as_str().unicode_len();
    let after = tokens.substring_char(p + pat_len, n);
    let q = match find_str(after, "\"") {
        Some(q) => q,
        None => {
            return None;
        },
    };
    proof {
        reveal_strlit("\"");
    }
    let after_n = after.unicode_len();
    let tail = after.substring_char(q + 1, after_n);
    let e = match find_str(tail, "\"") {
        Some(e) => e,
        None => {
            return None;
        },
    };
    let value = tail.substring_char(0, e);
    Some(value.to_owned())
}

/// The view of an optional owned string.
pub open spec fn opt_view(o: Option<String>) -> Option<Seq<char>> {
    match o {
        None => None,
        Some(s) => Some(s@),
    }
}

/// A freshly extracted value overrides a prior one; absence keeps the prior.
pub open spec fn merged(found: Option<Seq<char>>, prior: Option<Seq<char>>) -> Option<Seq<char>> {
    match found {
        Some(v) => Some(v),
        None => prior,
    }
}

/// Folds the directives of one attribute's token text into a type-level
/// directive record; directives found later override earlier ones, absent
/// ones leave the record unchanged.
pub fn absorb_attribute_tokens(parsed: &mut ParsedAttributeMap, tokens: &str)
    ensures
        opt_view(final(parsed).rename_all) == merged(
            extract_quoted(tokens@, "rename_all"@),
            opt_view(old(parsed).rename_all),
        ),
        opt_view(final(parsed).cluster_key) == merged(
            extract_quoted(tokens@, "cluster_key"@),
            opt_view(old(parsed).cluster_key),
        ),
        opt_view(final(parsed).ttl) == merged(
            extract_quoted(tokens@, "ttl"@),
            opt_view(old(parsed).ttl),
        ),
        final(parsed).cache == (old(parsed).cache || contains_pat(tokens@, "cache"@)),
{
    if let Some(v) = extract_quoted_value(tokens, "rename_all") {
        parsed.rename_all = Some(v);
    }
    if let Some(v) = extract_quoted_value(tokens, "cluster_key") {
        parsed.cluster_key = Some(v);
    }
    if let Some(v) = extract_quoted_value(tokens, "ttl") {
        parsed.ttl = Some(v);
    }
    if contains_str(tokens, "cache") {
        parsed.cache = true;
    }
}

/// Folds the directives of one attribute's token text into a field-level
/// directive record. An `expire` value is ignored whenever `expire_at`
/// occurs anywhere in the same token text.
pub fn absorb_field_attribute_tokens(fa: &mut FieldAttributes, tokens: &str)
    ensures
        final(fa).skip == (old(fa).skip || contains_pat(tokens@, "skip"@)),
        opt_view(final(fa).rename) == merged(
            extract_quoted(tokens@, "rename"@),
            opt_view(old(fa).rename),
        ),
        opt_view(final(fa).expire) == (if extract_quoted(tokens@, "expire"@) is Some
            && !contains_pat(tokens@, "expire_at"@) {
            extract_quoted(tokens@, "expire"@)
        } else {
            opt_view(old(fa).expire)
        }),
        opt_view(final(fa).expire_at) == merged(
            extract_quoted(tokens@, "expire_at"@),
            opt_view(old(fa).expire_at),
        ),
{
    if contains_str(tokens, "skip") {
        fa.skip = true;
    }
    if let Some(v) = extract_quoted_value(tokens, "rename") {
        fa.rename = Some(v);
    }
    if let Some(v) = extract_quoted_value(tokens, "expire") {
        if !contains_str(tokens, "expire_at") {
            fa.expire = Some(v);
        }
    }
    if let Some(v) = extract_quoted_value(tokens, "expire_at") {
        fa.expire_at = Some(v);
    }
}

} // verus!
