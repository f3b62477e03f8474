//! Tenant identifiers: what the name of an organisation becomes in a token.

use vstd::prelude::*;

use crate::text;
use crate::text::{chars_of, trim_char, trim_whitespace};

verus! {

/// Whether a character may stand in a tenant identifier.
pub open spec fn is_slug_char(c: char) -> bool {
    'a' <= c <= 'z' || '0' <= c <= '9' || c == '-'
}

/// The lower-case form of an ASCII letter; other characters stay.
pub open spec fn ascii_lower(c: char) -> char {
    if 'A' <= c <= 'Z' {
        (c as u8 + 32) as char
    } else {
        c
    }
}

/// The upper-case form of an ASCII letter; other characters stay.
pub open spec fn ascii_upper(c: char) -> char {
    if 'a' <= c <= 'z' {
        (c as u8 - 32) as char
    } else {
        c
    }
}

/// What a character becomes in a tenant identifier: ASCII letters in lower case
/// and digits are kept, everything else becomes a dash.
pub open spec fn slug_char(c: char) -> char {
    let l = ascii_lower(c);
    if 'a' <= l <= 'z' || '0' <= l <= '9' {
        l
    } else {
        '-'
    }
}

/// A text with every character as it would stand in a tenant identifier.
pub open spec fn slugged(s: Seq<char>) -> Seq<char> {
    s.map_values(|c: char| slug_char(c))
}

/// The name of an organisation without whitespace around it, as a slug without
/// dashes around it.
pub open spec fn slug(org: Seq<char>) -> Seq<char> {
    text::trim_both(slugged(text::trim_both(org, text::white())), text::only('-'))
}

/// The tenant identifier of an organisation.
pub open spec fn tenant_id(org: Seq<char>) -> Seq<char> {
    if slug(org).len() == 0 {
        "tenant"@
    } else {
        slug(org)
    }
}

fn slug_of(c: char) -> (r: char)
    ensures
        r == slug_char(c),
{
    if 'A' <= c && c <= 'Z' {
        (c as u8 + 32) as char
    } else if ('a' <= c && c <= 'z') || ('0' <= c && c <= '9') {
        c
    } else {
        '-'
    }
}

/// The tenant identifier of an organisation.
pub fn tenant_id_from_org(org: &str) -> (id: String)
    ensures
        id@ == tenant_id(org@),
{
    let trimmed = trim_whitespace(org);
    let v = chars_of(trimmed.as_str());
    let mut dashed = String::new();
    for i in 0..v.len()
        invariant
            dashed@ == slugged(v@.take(i as int)),
    {
        assert(slugged(v@.take(i + 1)) =~= slugged(v@.take(i as int)).push(slug_char(v@[i as int])));
        dashed.push(slug_of(v[i]));
    }
    assert(v@.take(v@.len() as int) =~= v@);
    let id = trim_char(dashed.as_str(), '-');
    if id.as_str().is_empty() {
        "tenant".to_string()
    } else {
        id
    }
}

// ---- laws ----

/// A tenant identifier is never empty, consists of lower-case ASCII letters,
/// digits and dashes, and neither starts nor ends with a dash.
pub proof fn law_tenant_ids_are_slugs(org: Seq<char>)
    ensures
        tenant_id(org).len() > 0,
        forall|i: int| 0 <= i < tenant_id(org).len() ==> is_slug_char(#[trigger] tenant_id(org)[i]),
        tenant_id(org)[0] != '-',
        tenant_id(org).last() != '-',
{
    reveal_strlit("tenant");
    let dashed = slugged(text::trim_both(org, text::white()));
    text::lemma_trim_both(dashed, text::only('-'));
    assert forall|i: int| 0 <= i < slug(org).len() implies is_slug_char(#[trigger] slug(org)[i]) by {
        let c = slug(org)[i];
        let j = choose|j: int| 0 <= j < dashed.len() && dashed[j] == c;
        assert(is_slug_char(dashed[j]));
    }
}

/// A tenant identifier is its own tenant identifier.
pub proof fn law_tenant_ids_are_stable(org: Seq<char>)
    ensures
        tenant_id(tenant_id(org)) == tenant_id(org),
{
    law_tenant_ids_are_slugs(org);
    let id = tenant_id(org);
    assert(is_slug_char(id[0]));
    assert(is_slug_char(id.last()));
    assert(text::trim_both(id, text::white()) == id);
    assert(slugged(id) =~= id) by {
        assert forall|i: int| 0 <= i < id.len() implies slug_char(#[trigger] id[i]) == id[i] by {
            assert(is_slug_char(id[i]));
        }
    }
    assert(text::trim_both(id, text::only('-')) == id);
}

/// Whether a character is an ASCII letter or digit.
pub open spec fn is_alphanumeric(c: char) -> bool {
    'a' <= c <= 'z' || 'A' <= c <= 'Z' || '0' <= c <= '9'
}

/// A name that starts and ends with a letter or digit keeps all of its
/// characters: digits and lower-case letters as they are, capital letters in
/// lower case, and a dash for each of the others. A name without letters and
/// digits is that of a nameless tenant.
pub proof fn law_tenant_ids_keep_letters_and_digits(org: Seq<char>)
    ensures
        org.len() > 0 && is_alphanumeric(org[0]) && is_alphanumeric(org.last()) ==> {
            &&& tenant_id(org).len() == org.len()
            &&& forall|i: int|
                0 <= i < org.len() ==> {
                    let c = org[i];
                    let kept = #[trigger] tenant_id(org)[i];
                    &&& 'a' <= c <= 'z' || '0' <= c <= '9' ==> kept == c
                    &&& 'A' <= c <= 'Z' ==> kept as int == c as int + 32
                    &&& !is_alphanumeric(c) ==> kept == '-'
                }
        },
        (forall|i: int| 0 <= i < org.len() ==> !is_alphanumeric(#[trigger] org[i])) ==> tenant_id(org)
            == "tenant"@,
{
    lemma_slug(org);
    let dashed = slugged(org);
    if org.len() > 0 && is_alphanumeric(org[0]) && is_alphanumeric(org.last()) {
        assert(dashed[0] == slug_char(org[0]) && dashed[0] != '-');
        assert(dashed.last() == slug_char(org.last()) && dashed.last() != '-');
        assert(text::trim_both(dashed, text::only('-')) == dashed);
    }
    if forall|i: int| 0 <= i < org.len() ==> !is_alphanumeric(#[trigger] org[i]) {
        text::lemma_trim_both(dashed, text::only('-'));
        if slug(org).len() > 0 {
            let j = choose|j: int| 0 <= j < dashed.len() && dashed[j] == slug(org)[0];
            assert(!is_alphanumeric(org[j]));
        }
    }
}

/// Only what the characters of a name become matters: two names of which the
/// characters become the same have the same tenant identifier.
pub proof fn law_tenant_ids_depend_on_slugs(a: Seq<char>, b: Seq<char>)
    requires
        slugged(a) == slugged(b),
    ensures
        tenant_id(a) == tenant_id(b),
{
    lemma_slug(a);
    lemma_slug(b);
}

/// The case of ASCII letters in the name of an organisation makes no difference.
pub proof fn law_tenant_ids_ignore_case(org: Seq<char>)
    ensures
        tenant_id(org.map_values(|c: char| ascii_lower(c))) == tenant_id(org),
        tenant_id(org.map_values(|c: char| ascii_upper(c))) == tenant_id(org),
{
    let lower = org.map_values(|c: char| ascii_lower(c));
    let upper = org.map_values(|c: char| ascii_upper(c));
    assert(slugged(lower) =~= slugged(org));
    assert(slugged(upper) =~= slugged(org));
    law_tenant_ids_depend_on_slugs(lower, org);
    law_tenant_ids_depend_on_slugs(upper, org);
}

/// Characters other than ASCII letters and digits make no difference around the
/// name of an organisation.
pub proof fn law_tenant_ids_ignore_surroundings(front: Seq<char>, org: Seq<char>, back: Seq<char>)
    requires
        forall|i: int| 0 <= i < front.len() ==> slug_char(#[trigger] front[i]) == '-',
        forall|i: int| 0 <= i < back.len() ==> slug_char(#[trigger] back[i]) == '-',
    ensures
        tenant_id(front + org + back) == tenant_id(org),
{
    let all = front + org + back;
    let dash = text::only('-');
    lemma_slug(all);
    lemma_slug(org);
    assert(slugged(all) =~= slugged(front) + slugged(org) + slugged(back));
    text::lemma_trim_surroundings(slugged(front), slugged(org), slugged(back), dash);
}

/// Whitespace around a name becomes dashes around the slug, so that trimming the
/// dashes is enough.
proof fn lemma_slug(org: Seq<char>)
    ensures
        slug(org) == text::trim_both(slugged(org), text::only('-')),
{
    let (front, back) = text::lemma_trimmed_parts(org, text::white());
    let name = text::trim_both(org, text::white());
    assert(slugged(org) =~= slugged(front) + slugged(name) + slugged(back));
    text::lemma_trim_surroundings(slugged(front), slugged(name), slugged(back), text::only('-'));
}

} // verus!
