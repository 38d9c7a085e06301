use fiducia_routing::lock_coordination::{
    lock_coordination_domain_key, lock_coordination_shard_for, LockCoordinationDomain,
    LockRoutingMode, LOCK_COORDINATION_DOMAIN_V1_PREFIX,
};
use fiducia_routing::{fnv1a, lock_coordination_shard, shard_for, LOCK_COORDINATION_KEY};

#[test]
fn legacy_is_the_default_and_preserves_existing_placement() {
    assert_eq!(LockRoutingMode::default(), LockRoutingMode::LegacyGlobal);

    for n in [1u32, 8, 16, 256, 1024] {
        let a = lock_coordination_shard_for(
            LockRoutingMode::default(),
            LockCoordinationDomain::Tenant("org-a"),
            n,
        );
        let b = lock_coordination_shard_for(
            LockRoutingMode::default(),
            LockCoordinationDomain::Tenant("org-b"),
            n,
        );
        assert_eq!(a, lock_coordination_shard(n));
        assert_eq!(b, lock_coordination_shard(n));
        assert_eq!(a, shard_for(LOCK_COORDINATION_KEY, n));
    }
}

#[test]
fn tenant_domains_are_distinct_even_for_the_same_user_lock_name() {
    let a = lock_coordination_domain_key(LockCoordinationDomain::Tenant("org-a"));
    let b = lock_coordination_domain_key(LockCoordinationDomain::Tenant("org-b"));
    assert_ne!(a, b);
    assert!(a.starts_with(LOCK_COORDINATION_DOMAIN_V1_PREFIX));
    assert!(b.starts_with(LOCK_COORDINATION_DOMAIN_V1_PREFIX));
}

#[test]
fn domain_variant_is_part_of_the_authority_identity() {
    let id = "workspace-7";
    assert_ne!(
        lock_coordination_domain_key(LockCoordinationDomain::Tenant(id)),
        lock_coordination_domain_key(LockCoordinationDomain::Shared(id))
    );
    assert_ne!(
        lock_coordination_domain_key(LockCoordinationDomain::Shared(id)),
        lock_coordination_domain_key(LockCoordinationDomain::System(id))
    );
}

#[test]
fn every_union_lock_key_in_one_domain_co_locates_by_construction() {
    let domain = LockCoordinationDomain::Tenant("org-a");
    for n in [1u32, 8, 16, 256, 1024] {
        let expected = lock_coordination_shard_for(LockRoutingMode::DomainV1, domain, n);
        for _member_key in ["orders/42", "inventory/sku-9", "customer/7", "anything"] {
            assert_eq!(
                lock_coordination_shard_for(LockRoutingMode::DomainV1, domain, n),
                expected
            );
        }
    }
}

#[test]
fn byte_length_framing_keeps_domain_keys_unambiguous() {
    let short = lock_coordination_domain_key(LockCoordinationDomain::Tenant("a\0bc"));
    let other = lock_coordination_domain_key(LockCoordinationDomain::Tenant("a\0b\0c"));
    assert_ne!(short, other);
    assert!(short.contains("\0tenant\0\x34\0"));
    assert!(other.contains("\0tenant\0\x35\0"));
}

#[test]
fn domain_v1_golden_vectors_are_frozen() {
    let tenant_a = lock_coordination_domain_key(LockCoordinationDomain::Tenant("org_a"));
    let tenant_b = lock_coordination_domain_key(LockCoordinationDomain::Tenant("org_b"));
    let shared = lock_coordination_domain_key(LockCoordinationDomain::Shared("workspace-7"));
    let system = lock_coordination_domain_key(LockCoordinationDomain::System("cron"));

    assert_eq!(fnv1a(&tenant_a), 0xd02d_e878);
    assert_eq!(fnv1a(&tenant_b), 0xd32d_ed31);
    assert_eq!(fnv1a(&shared), 0x8d7b_5367);
    assert_eq!(fnv1a(&system), 0x6a11_3910);

    assert_eq!(shard_for(&tenant_a, 256), 120);
    assert_eq!(shard_for(&tenant_b, 256), 49);
    assert_eq!(shard_for(&shared, 256), 103);
    assert_eq!(shard_for(&system, 256), 16);
}
