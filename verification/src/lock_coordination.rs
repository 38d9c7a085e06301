//! Versioned lock-coordination-domain routing.
//!
//! The legacy lock path routes every lock and semaphore to one reserved
//! coordinator key. Domain routing spreads independent coordination domains
//! (tenants, shared spaces, system jobs) across shards without remapping
//! existing clusters: it is used only when explicitly selected.

use vstd::prelude::*;
use vstd::string::{StringExecFns, StringSliceAdditionalSpecFns};

use crate::hash::{key_hash, text_hash};
use crate::shard::{global_shard, lock_coordination_shard, shard_for, ShardId, LOCK_COORDINATION_KEY};
use crate::text::{decimal, lemma_decimal_digits, is_digit, push_char, push_decimal};

verus! {

/// Frozen prefix of the first version of domain-aware lock routing. The
/// leading NUL keeps this internal namespace apart from user keys.
pub const LOCK_COORDINATION_DOMAIN_V1_PREFIX: &'static str = "\u{0}fiducia-lock-domain-v1";

/// The authority namespace whose lock and semaphore state is serialized
/// together.
#[derive(Debug, Clone, Copy, PartialEq, Eq, Hash)]
pub enum LockCoordinationDomain<'a> {
    /// One tenant's locks.
    Tenant(&'a str),
    /// An explicitly authorized cross-tenant collaboration space.
    Shared(&'a str),
    /// Coordination owned by the platform itself.
    System(&'a str),
}

/// The kind label of a domain.
pub open spec fn domain_kind(domain: LockCoordinationDomain<'_>) -> Seq<char> {
    match domain {
        LockCoordinationDomain::Tenant(_) => "tenant"@,
        LockCoordinationDomain::Shared(_) => "shared"@,
        LockCoordinationDomain::System(_) => "system"@,
    }
}

/// The identifier of a domain.
pub open spec fn domain_id<'a>(domain: LockCoordinationDomain<'a>) -> &'a str {
    match domain {
        LockCoordinationDomain::Tenant(id) => id,
        LockCoordinationDomain::Shared(id) => id,
        LockCoordinationDomain::System(id) => id,
    }
}

/// The routing key of a domain: the frozen prefix, then NUL-separated the
/// kind label, the byte length of the identifier in decimal, and the
/// identifier itself.
pub open spec fn domain_key_text(domain: LockCoordinationDomain<'_>) -> Seq<char> {
    LOCK_COORDINATION_DOMAIN_V1_PREFIX@ + seq!['\0'] + domain_kind(domain) + seq!['\0'] + decimal(
        domain_id(domain).spec_bytes().len(),
    ) + seq!['\0'] + domain_id(domain)@
}

impl<'a> LockCoordinationDomain<'a> {
    fn kind_and_id(self) -> (parts: (&'static str, &'a str))
        ensures
            parts.0@ == domain_kind(self),
            parts.1 == domain_id(self),
    {
        match self {
            LockCoordinationDomain::Tenant(id) => ("tenant", id),
            LockCoordinationDomain::Shared(id) => ("shared", id),
            LockCoordinationDomain::System(id) => ("system", id),
        }
    }
}

/// Lock-routing protocol selection. Existing clusters stay on
/// `LegacyGlobal` until every component switches to `DomainV1` together.
#[derive(Debug, Clone, Copy, PartialEq, Eq, Structural)]
pub enum LockRoutingMode {
    /// Every lock and semaphore routes through the lock coordination key.
    LegacyGlobal,
    /// Route by an explicit tenant, shared or system coordination domain.
    DomainV1,
}

impl Default for LockRoutingMode {
    fn default() -> (mode: Self)
        ensures
            mode == LockRoutingMode::LegacyGlobal,
    {
        LockRoutingMode::LegacyGlobal
    }
}

/// Construct the stable internal routing key of a coordination domain. The
/// identifier is framed by its byte length, so kind and identifier
/// boundaries stay unambiguous even when the identifier holds separators.
pub fn lock_coordination_domain_key(domain: LockCoordinationDomain<'_>) -> (key: String)
    ensures
        key@ == domain_key_text(domain),
{
    let (kind, id) = domain.kind_and_id();
    let mut key = String::new();
    key.append(LOCK_COORDINATION_DOMAIN_V1_PREFIX);
    push_char(&mut key, '\0');
    key.append(kind);
    push_char(&mut key, '\0');
    push_decimal(&mut key, id.as_bytes().len());
    push_char(&mut key, '\0');
    key.append(id);
    assert(key@ =~= domain_key_text(domain));
    key
}

/// The shard that owns a coordination domain under a routing mode: the
/// legacy coordinator shard whatever the domain, or the global shard of the
/// domain's routing key.
pub open spec fn domain_shard(
    mode: LockRoutingMode,
    domain: LockCoordinationDomain<'_>,
    shard_count: u32,
) -> int {
    match mode {
        LockRoutingMode::LegacyGlobal => global_shard(key_hash(LOCK_COORDINATION_KEY), shard_count),
        LockRoutingMode::DomainV1 => global_shard(text_hash(domain_key_text(domain)), shard_count),
    }
}

/// Resolve the shard that owns a lock coordination domain under a selected
/// routing mode. In `LegacyGlobal` the domain is ignored; in `DomainV1` all
/// operations of one domain converge on the shard of the domain's key.
pub fn lock_coordination_shard_for(
    mode: LockRoutingMode,
    domain: LockCoordinationDomain<'_>,
    shard_count: u32,
) -> (shard: ShardId)
    requires
        shard_count > 0,
    ensures
        shard == domain_shard(mode, domain, shard_count),
        mode == LockRoutingMode::DomainV1 ==> shard as int == (text_hash(domain_key_text(domain))
            as int) % (shard_count as int),
        mode == LockRoutingMode::LegacyGlobal ==> shard as int == (key_hash(LOCK_COORDINATION_KEY)
            as int) % (shard_count as int),
        shard < shard_count,
{
    match mode {
        LockRoutingMode::LegacyGlobal => lock_coordination_shard(shard_count),
        LockRoutingMode::DomainV1 => {
            let key = lock_coordination_domain_key(domain);
            shard_for(key.as_str(), shard_count)
        },
    }
}


/// A decimal length followed by a NUL and a text determines both parts:
/// the first NUL after the digits marks the boundary.
proof fn lemma_length_framing_splits(
    len_a: nat,
    text_a: Seq<char>,
    len_b: nat,
    text_b: Seq<char>,
)
    requires
        decimal(len_a) + seq!['\0'] + text_a == decimal(len_b) + seq!['\0'] + text_b,
    ensures
        decimal(len_a) == decimal(len_b),
        text_a == text_b,
{
    lemma_decimal_digits(len_a);
    lemma_decimal_digits(len_b);
    let da = decimal(len_a);
    let db = decimal(len_b);
    let whole = da + seq!['\0'] + text_a;
    assert(whole == db + seq!['\0'] + text_b);
    if da.len() < db.len() {
        assert(whole[da.len() as int] == '\0');
        assert((db + seq!['\0'] + text_b)[da.len() as int] == db[da.len() as int]);
        assert(is_digit(db[da.len() as int]));
    } else if db.len() < da.len() {
        assert((db + seq!['\0'] + text_b)[db.len() as int] == '\0');
        assert(whole[db.len() as int] == da[db.len() as int]);
        assert(is_digit(da[db.len() as int]));
    }
    assert(da =~= whole.subrange(0, da.len() as int));
    assert(db =~= (db + seq!['\0'] + text_b).subrange(0, db.len() as int));
    assert(text_a =~= whole.subrange(da.len() as int + 1, whole.len() as int));
    assert(text_b =~= (db + seq!['\0'] + text_b).subrange(db.len() as int + 1, whole.len() as int));
}

/// Domain keys are unambiguous: two domains share a routing key only when
/// they are of the same kind and have the same identifier. So distinct
/// tenants, and a tenant and a shared space with the same identifier, never
/// share a coordination key.
pub proof fn lemma_domain_keys_are_injective(
    domain_a: LockCoordinationDomain<'_>,
    domain_b: LockCoordinationDomain<'_>,
)
    requires
        domain_key_text(domain_a) == domain_key_text(domain_b),
    ensures
        domain_kind(domain_a) == domain_kind(domain_b),
        domain_a is Tenant <==> domain_b is Tenant,
        domain_a is Shared <==> domain_b is Shared,
        domain_a is System <==> domain_b is System,
        domain_id(domain_a)@ == domain_id(domain_b)@,
{
    reveal_strlit("tenant");
    reveal_strlit("shared");
    reveal_strlit("system");
    let p = LOCK_COORDINATION_DOMAIN_V1_PREFIX@;
    let ka = domain_kind(domain_a);
    let kb = domain_kind(domain_b);
    let ra = decimal(domain_id(domain_a).spec_bytes().len()) + seq!['\0'] + domain_id(domain_a)@;
    let rb = decimal(domain_id(domain_b).spec_bytes().len()) + seq!['\0'] + domain_id(domain_b)@;
    let ha = p + seq!['\0'] + ka + seq!['\0'];
    let hb = p + seq!['\0'] + kb + seq!['\0'];
    assert(domain_key_text(domain_a) =~= ha + ra);
    assert(domain_key_text(domain_b) =~= hb + rb);
    assert(ka.len() == 6 && kb.len() == 6);
    let n = ha.len() as int;
    assert(ha =~= (ha + ra).subrange(0, n));
    assert(hb =~= (hb + rb).subrange(0, n));
    assert(ka =~= ha.subrange(p.len() as int + 1, p.len() as int + 7));
    assert(kb =~= hb.subrange(p.len() as int + 1, p.len() as int + 7));
    assert(ra =~= (ha + ra).subrange(n, (ha + ra).len() as int));
    assert(rb =~= (hb + rb).subrange(n, (hb + rb).len() as int));
    lemma_length_framing_splits(
        domain_id(domain_a).spec_bytes().len(),
        domain_id(domain_a)@,
        domain_id(domain_b).spec_bytes().len(),
        domain_id(domain_b)@,
    );
    if ka == kb {
        assert("tenant"@[0] != "shared"@[0]);
        assert("tenant"@[0] != "system"@[0]);
        assert("shared"@[1] != "system"@[1]);
    }
}

/// Every domain key lies in the frozen domain namespace: it starts with the
/// version prefix followed by a NUL.
pub proof fn lemma_domain_keys_carry_the_prefix(domain: LockCoordinationDomain<'_>)
    ensures
        domain_key_text(domain).subrange(0, LOCK_COORDINATION_DOMAIN_V1_PREFIX@.len() as int)
            == LOCK_COORDINATION_DOMAIN_V1_PREFIX@,
        domain_key_text(domain)[LOCK_COORDINATION_DOMAIN_V1_PREFIX@.len() as int] == '\0',
{
    let p = LOCK_COORDINATION_DOMAIN_V1_PREFIX@;
    let rest = seq!['\0'] + domain_kind(domain) + seq!['\0'] + decimal(
        domain_id(domain).spec_bytes().len(),
    ) + seq!['\0'] + domain_id(domain)@;
    assert(domain_key_text(domain) =~= p + rest);
    assert((p + rest).subrange(0, p.len() as int) =~= p);
}

/// In legacy mode the domain is ignored: every domain routes to the single
/// lock coordinator shard, preserving existing placement exactly.
pub proof fn lemma_legacy_mode_ignores_the_domain(
    domain_a: LockCoordinationDomain<'_>,
    domain_b: LockCoordinationDomain<'_>,
    shard_count: u32,
)
    ensures
        domain_shard(LockRoutingMode::LegacyGlobal, domain_a, shard_count) == domain_shard(
            LockRoutingMode::LegacyGlobal,
            domain_b,
            shard_count,
        ),
        domain_shard(LockRoutingMode::LegacyGlobal, domain_a, shard_count) == global_shard(
            key_hash(LOCK_COORDINATION_KEY),
            shard_count,
        ),
{
}

/// In domain mode, two domains with the same routing key (same kind and
/// identifier) share one shard, so every lock of a domain co-locates.
pub proof fn lemma_domain_mode_colocates_a_domain(
    domain_a: LockCoordinationDomain<'_>,
    domain_b: LockCoordinationDomain<'_>,
    shard_count: u32,
)
    requires
        domain_a is Tenant <==> domain_b is Tenant,
        domain_a is Shared <==> domain_b is Shared,
        domain_id(domain_a)@ == domain_id(domain_b)@,
    ensures
        domain_shard(LockRoutingMode::DomainV1, domain_a, shard_count) == domain_shard(
            LockRoutingMode::DomainV1,
            domain_b,
            shard_count,
        ),
{
    assert(domain_id(domain_a).spec_bytes() == domain_id(domain_b).spec_bytes());
    assert(domain_kind(domain_a) == domain_kind(domain_b));
    assert(domain_key_text(domain_a) == domain_key_text(domain_b));
}


/// In domain mode a domain's shard is the hash of the domain's own routing
/// key modulo the shard count, so it follows the domain: two domains whose
/// keys fall in different residues get different shards.
pub proof fn lemma_domain_mode_routes_by_the_domain_key(
    domain_a: LockCoordinationDomain<'_>,
    domain_b: LockCoordinationDomain<'_>,
    shard_count: u32,
)
    requires
        shard_count > 0,
    ensures
        domain_shard(LockRoutingMode::DomainV1, domain_a, shard_count) == (text_hash(
            domain_key_text(domain_a),
        ) as int) % (shard_count as int),
        (text_hash(domain_key_text(domain_a)) as int) % (shard_count as int) != (text_hash(
            domain_key_text(domain_b),
        ) as int) % (shard_count as int) ==> domain_shard(
            LockRoutingMode::DomainV1,
            domain_a,
            shard_count,
        ) != domain_shard(LockRoutingMode::DomainV1, domain_b, shard_count),
{
}


/// The layout of a domain key: the frozen prefix `\0fiducia-lock-domain-v1`,
/// a NUL, the kind (`tenant`, `shared` or `system`), a NUL, the identifier's
/// UTF-8 byte length in decimal, a NUL, and the identifier.
pub proof fn lemma_domain_key_layout(domain: LockCoordinationDomain<'_>)
    ensures
        LOCK_COORDINATION_DOMAIN_V1_PREFIX@ == seq![
            '\0', 'f', 'i', 'd', 'u', 'c', 'i', 'a', '-', 'l', 'o', 'c', 'k', '-', 'd', 'o', 'm',
            'a', 'i', 'n', '-', 'v', '1',
        ],
        domain is Tenant ==> domain_kind(domain) == seq!['t', 'e', 'n', 'a', 'n', 't'],
        domain is Shared ==> domain_kind(domain) == seq!['s', 'h', 'a', 'r', 'e', 'd'],
        domain is System ==> domain_kind(domain) == seq!['s', 'y', 's', 't', 'e', 'm'],
        domain matches LockCoordinationDomain::Tenant(id) ==> domain_id(domain) == id,
        domain matches LockCoordinationDomain::Shared(id) ==> domain_id(domain) == id,
        domain matches LockCoordinationDomain::System(id) ==> domain_id(domain) == id,
        domain_key_text(domain) == LOCK_COORDINATION_DOMAIN_V1_PREFIX@ + seq!['\0']
            + domain_kind(domain) + seq!['\0'] + decimal(domain_id(domain).spec_bytes().len())
            + seq!['\0'] + domain_id(domain)@,
{
    reveal_strlit("\u{0}fiducia-lock-domain-v1");
    reveal_strlit("tenant");
    reveal_strlit("shared");
    reveal_strlit("system");
    assert(LOCK_COORDINATION_DOMAIN_V1_PREFIX@ =~= seq![
        '\0', 'f', 'i', 'd', 'u', 'c', 'i', 'a', '-', 'l', 'o', 'c', 'k', '-', 'd', 'o', 'm',
        'a', 'i', 'n', '-', 'v', '1',
    ]);
    assert("tenant"@ =~= seq!['t', 'e', 'n', 'a', 'n', 't']);
    assert("shared"@ =~= seq!['s', 'h', 'a', 'r', 'e', 'd']);
    assert("system"@ =~= seq!['s', 'y', 's', 't', 'e', 'm']);
}

} // verus!
