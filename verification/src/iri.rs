//! Identifier classification and reference resolution.

use vstd::prelude::*;
use vstd::string::StrSliceExecFns;

verus! {

/// The validity predicate that `iri_string::types::IriStr::new` checks: the
/// string is a full RFC 3987 identifier.
pub uninterp spec fn is_iri(s: Seq<char>) -> bool;

/// The validity predicate that `iri_string::types::IriReferenceStr::new`
/// checks: the string is an RFC 3987 identifier reference.
pub uninterp spec fn is_iri_reference(s: Seq<char>) -> bool;

/// The identifier that `iri_string`'s reference resolution returns for a
/// reference and a base.
pub uninterp spec fn resolved(reference: Seq<char>, base: Seq<char>) -> Seq<char>;

/// Relies on `iri_string::types::IriStr::new`: it accepts exactly the strings
/// that parse as full identifiers.
#[verifier::external_body]
pub fn is_iri_str(s: &str) -> (r: bool)
    ensures
        r == is_iri(s@),
{
    iri_string::types::IriStr::new(s).is_ok()
}

/// Relies on `iri_string::types::IriReferenceStr::new`, which accepts exactly
/// the identifier references, and `IriReferenceStr::resolve_against`, whose
/// result for a valid reference and a valid absolute base is always a valid
/// full identifier.
#[verifier::external_body]
pub fn resolve_reference(reference: &str, base: &str) -> (r: Option<String>)
    requires
        is_iri(base@),
    ensures
        r is Some <==> is_iri_reference(reference@),
        r is Some ==> r->0@ == resolved(reference@, base@) && is_iri(r->0@),
{
    let reference = match iri_string::types::IriReferenceStr::new(reference) {
        Ok(r) => r,
        Err(_) => return None,
    };
    let base = match iri_string::types::IriStr::new(base) {
        Ok(b) => b,
        Err(_) => return None,
    };
    Some(reference.resolve_against(base.to_absolute()).to_string())
}

/// An ASCII letter.
pub open spec fn spec_is_alpha(c: char) -> bool {
    ('a' <= c && c <= 'z') || ('A' <= c && c <= 'Z')
}

/// `@` followed by one or more ASCII letters: the shape reserved for keywords.
pub open spec fn keyword_form(s: Seq<char>) -> bool {
    s.len() >= 2 && s[0] == '@' && forall|i: int| 1 <= i < s.len() ==> spec_is_alpha(#[trigger] s[i])
}

/// Whether a string has the shape reserved for keywords.
pub fn has_form_of_keyword(s: &str) -> (r: bool)
    ensures
        r == keyword_form(s@),
{
    let n = s.unicode_len();
    if n < 2 {
        return false;
    }
    if s.get_char(0) != '@' {
        return false;
    }
    let mut i: usize = 1;
    while i < n
        invariant
            1 <= i <= n,
            n == s@.len(),
            n >= 2,
            s@[0] == '@',
            forall|j: int| 1 <= j < i ==> spec_is_alpha(#[trigger] s@[j]),
        decreases n - i,
    {
        let c = s.get_char(i);
        if !(('a' <= c && c <= 'z') || ('A' <= c && c <= 'Z')) {
            return false;
        }
        i = i + 1;
    }
    true
}

/// A locally scoped blank-node identifier: it starts with `_:`.
pub open spec fn blank_node_form(s: Seq<char>) -> bool {
    s.len() >= 2 && s[0] == '_' && s[1] == ':'
}

/// An absolute identifier or a blank-node identifier: the shapes accepted as a
/// reverse definition's identifier mapping.
pub open spec fn is_absolute_or_blank(s: Seq<char>) -> bool {
    blank_node_form(s) || is_iri(s)
}

/// Classifies a string as an absolute identifier or blank-node identifier.
pub fn is_absolute_ref_or_blank_node_ident(s: &str) -> (r: bool)
    ensures
        r == is_absolute_or_blank(s@),
{
    if s.unicode_len() >= 2 {
        if s.get_char(0) == '_' && s.get_char(1) == ':' {
            return true;
        }
    }
    is_iri_str(s)
}

} // verus!
