//! Organization-scoped keys: the framing that keeps tenants' keys apart.

use vstd::prelude::*;
use vstd::string::StringExecFns;

use crate::text::push_char;

verus! {

/// Delimiter that frames the organization in an organization-scoped key.
pub const ORG_SCOPE_DELIM: char = '\u{1}';

/// The prefix under which all keys of an organization live.
pub open spec fn org_prefix_text(org: Seq<char>) -> Seq<char> {
    seq![ORG_SCOPE_DELIM] + org + seq![ORG_SCOPE_DELIM]
}

/// The organization-scoped form of a key: the organization's prefix, then the
/// key.
pub open spec fn org_scoped_text(org: Seq<char>, key: Seq<char>) -> Seq<char> {
    org_prefix_text(org) + key
}

/// The prefix under which all keys of `org` live: the delimiter, the
/// organization, the delimiter.
pub fn org_scope_prefix(org: &str) -> (prefix: String)
    ensures
        prefix@ == org_prefix_text(org@),
{
    let mut prefix = String::new();
    push_char(&mut prefix, ORG_SCOPE_DELIM);
    prefix.append(org);
    push_char(&mut prefix, ORG_SCOPE_DELIM);
    assert(prefix@ =~= org_prefix_text(org@));
    prefix
}

/// The organization-scoped form of `key`: the organization's prefix followed
/// by the key. SDKs and servers hash these exact characters.
pub fn org_scoped_key(org: &str, key: &str) -> (scoped: String)
    ensures
        scoped@ == org_scoped_text(org@, key@),
{
    let mut scoped = org_scope_prefix(org);
    scoped.append(key);
    scoped
}

/// Organization framing is injective for organizations that do not contain
/// the delimiter: two scoped keys are equal only when both the organizations
/// and the keys are.
pub proof fn lemma_org_scoping_is_injective(
    org_a: Seq<char>,
    key_a: Seq<char>,
    org_b: Seq<char>,
    key_b: Seq<char>,
)
    requires
        !org_a.contains(ORG_SCOPE_DELIM),
        !org_b.contains(ORG_SCOPE_DELIM),
        org_scoped_text(org_a, key_a) == org_scoped_text(org_b, key_b),
    ensures
        org_a == org_b,
        key_a == key_b,
{
    let s = org_scoped_text(org_a, key_a);
    assert(s =~= org_scoped_text(org_b, key_b));
    if org_a.len() < org_b.len() {
        assert(s[org_a.len() as int + 1] == ORG_SCOPE_DELIM);
        assert(org_scoped_text(org_b, key_b)[org_a.len() as int + 1] == org_b[org_a.len() as int]);
        assert(org_b.contains(org_b[org_a.len() as int]));
    } else if org_b.len() < org_a.len() {
        assert(org_scoped_text(org_b, key_b)[org_b.len() as int + 1] == ORG_SCOPE_DELIM);
        assert(s[org_b.len() as int + 1] == org_a[org_b.len() as int]);
        assert(org_a.contains(org_a[org_b.len() as int]));
    }
    assert(org_a =~= s.subrange(1, org_a.len() as int + 1));
    assert(org_b =~= org_scoped_text(org_b, key_b).subrange(1, org_b.len() as int + 1));
    assert(key_a =~= s.subrange(org_a.len() as int + 2, s.len() as int));
    assert(key_b =~= org_scoped_text(org_b, key_b).subrange(org_b.len() as int + 2, s.len() as int));
}

/// Every scoped key of an organization starts with the organization's prefix.
pub proof fn lemma_scoped_keys_start_with_the_prefix(org: Seq<char>, key: Seq<char>)
    ensures
        org_scoped_text(org, key).subrange(0, org_prefix_text(org).len() as int)
            == org_prefix_text(org),
{
    assert(org_scoped_text(org, key).subrange(0, org_prefix_text(org).len() as int)
        =~= org_prefix_text(org));
}


/// The scope framing in full: the delimiter is U+0001, the prefix is the
/// delimiter, the organization and the delimiter, and a scoped key is the
/// prefix followed by the key unchanged.
pub proof fn lemma_org_scope_framing(org: Seq<char>, key: Seq<char>)
    ensures
        ORG_SCOPE_DELIM == '\u{1}',
        org_prefix_text(org) == seq!['\u{1}'] + org + seq!['\u{1}'],
        org_scoped_text(org, key) == seq!['\u{1}'] + org + seq!['\u{1}'] + key,
{
}

} // verus!
