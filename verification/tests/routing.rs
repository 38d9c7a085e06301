use fiducia_routing::{
    fnv1a, lock_coordination_shard, region_index, region_index_or, route_shard,
    service_discovery_shard, shard_for, shard_for_customer_region, shard_for_region, KeyScope,
    Region, DEFAULT_REGION_INDEX, LOCK_COORDINATION_KEY, SERVICE_DISCOVERY_KEY,
};

#[test]
fn deterministic_and_bounded() {
    for key in [
        "orders",
        "checkout",
        "orders/checkout",
        "api",
        "cleanup",
        "",
    ] {
        for n in [1u32, 4, 16, 256, 1024] {
            assert!(shard_for(key, n) < n);
            assert_eq!(shard_for(key, n), shard_for(key, n));
        }
    }
}

#[test]
fn lock_coordination_is_stable_and_shared() {
    for n in [1u32, 4, 16, 256, 1024] {
        let s = lock_coordination_shard(n);
        assert!(s < n);
        assert_eq!(s, shard_for(LOCK_COORDINATION_KEY, n));
        assert_eq!(s, lock_coordination_shard(n));
    }
    assert!(LOCK_COORDINATION_KEY.starts_with('\u{0}'));
}

#[test]
fn service_discovery_coordination_is_stable_and_shared() {
    for n in [1u32, 4, 16, 256, 1024] {
        let s = service_discovery_shard(n);
        assert!(s < n);
        assert_eq!(s, shard_for(SERVICE_DISCOVERY_KEY, n));
        assert_eq!(s, service_discovery_shard(n));
    }
    assert!(SERVICE_DISCOVERY_KEY.starts_with('\u{0}'));
    assert_ne!(SERVICE_DISCOVERY_KEY, LOCK_COORDINATION_KEY);
}

#[test]
fn region_index_lookup() {
    let regions = ["gcp", "aws", "hetzner"];
    assert_eq!(region_index("gcp", &regions), Some(0));
    assert_eq!(region_index("hetzner", &regions), Some(2));
    assert_eq!(region_index("azure", &regions), None);
}

#[test]
fn global_keys_ignore_region_entirely() {
    let regions = ["gcp", "aws", "hetzner"];
    let n = 64;
    let base = route_shard(KeyScope::Global, "orders/checkout", "gcp", &regions, n);
    for region in ["aws", "hetzner", "azure", "", "garbage"] {
        assert_eq!(
            route_shard(KeyScope::Global, "orders/checkout", region, &regions, n),
            base
        );
    }
    assert_eq!(base, shard_for("orders/checkout", n));
}

#[test]
fn regional_keys_route_into_their_region_band() {
    let regions = ["gcp", "aws", "hetzner"];
    let n = 12;
    assert!((4..8).contains(&route_shard(KeyScope::Regional, "k", "aws", &regions, n)));
    assert!((0..4).contains(&route_shard(KeyScope::Regional, "k", "nope", &regions, n)));
}

#[test]
fn customer_region_and_key_are_the_stable_routing_tuple() {
    let shard_count = 256;
    let key = "orders/checkout";

    let central = shard_for_customer_region(Region::UsCentral1, key, shard_count);
    let east = shard_for_customer_region(Region::UsEast1, key, shard_count);
    let europe = shard_for_customer_region(Region::EuCentral, key, shard_count);

    assert_eq!(
        central,
        shard_for_customer_region(Region::UsCentral1, key, shard_count)
    );
    assert_eq!(
        east,
        shard_for_customer_region(Region::UsEast1, key, shard_count)
    );
    assert_eq!(
        europe,
        shard_for_customer_region(Region::EuCentral, key, shard_count)
    );

    assert!((0..85).contains(&central), "us-central1 band");
    assert!((85..170).contains(&east), "us-east-1 band");
    assert!((170..256).contains(&europe), "eu-central band");
    assert_ne!(central, east);
    assert_ne!(east, europe);
    assert_ne!(central, europe);
}

#[test]
fn customer_region_aliases_are_case_and_space_tolerant() {
    assert_eq!(Region::parse(" US-CENTRAL "), Some(Region::UsCentral1));
    assert_eq!(Region::parse("AWS "), Some(Region::UsEast1));
    assert_eq!(Region::parse(" eu-central-1 "), Some(Region::EuCentral));
}

#[test]
fn customer_region_wrapper_matches_explicit_region_band() {
    let shard_count = 257;
    for region in Region::ALL {
        assert_eq!(
            shard_for_customer_region(region, "sessions/user-42", shard_count),
            shard_for_region(
                region.index(),
                Region::ALL.len() as u32,
                "sessions/user-42",
                shard_count
            )
        );
    }
}

#[test]
fn unknown_region_falls_back_to_default() {
    let regions = ["gcp", "aws", "hetzner"];
    assert_eq!(region_index_or("aws", &regions, DEFAULT_REGION_INDEX), 1);
    assert_eq!(region_index_or("azure", &regions, DEFAULT_REGION_INDEX), 0);
    assert_eq!(region_index_or("", &regions, 2), 2);
    let n = 12;
    assert!(
        shard_for_region(
            region_index_or("nope", &regions, DEFAULT_REGION_INDEX),
            3,
            "k",
            n
        ) < n
    );
}

#[test]
fn region_sharding_lands_in_the_region_band() {
    let (rc, n) = (3u32, 12u32);
    for key in ["orders/checkout", "api", "user-42", "x"] {
        assert!(
            (0..4).contains(&shard_for_region(0, rc, key, n)),
            "region 0 band"
        );
        assert!(
            (4..8).contains(&shard_for_region(1, rc, key, n)),
            "region 1 band"
        );
        assert!(
            (8..12).contains(&shard_for_region(2, rc, key, n)),
            "region 2 band"
        );
    }
}

#[test]
fn same_key_different_region_is_geographically_local() {
    let (rc, n) = (3u32, 12u32);
    let g = shard_for_region(0, rc, "orders/checkout", n);
    let a = shard_for_region(1, rc, "orders/checkout", n);
    let h = shard_for_region(2, rc, "orders/checkout", n);
    assert_ne!(g, a);
    assert_ne!(a, h);
    assert_ne!(g, h);
}

#[test]
fn region_sharding_bounded_and_remainder_in_last_band() {
    let (rc, n) = (3u32, 16u32);
    for key in ["a", "bb", "ccc", "orders", "lock-9"] {
        assert!(shard_for_region(2, rc, key, n) < n);
        assert!(
            shard_for_region(2, rc, key, n) >= 10,
            "last band starts at 10"
        );
    }
    assert!(shard_for_region(99, rc, "x", n) >= 10);
}

#[test]
fn golden_vectors() {
    assert_eq!(shard_for("checkout", 8), 1);
    assert_eq!(shard_for("orders", 8), 4);
    assert_eq!(shard_for("orders/checkout", 8), 5);
    assert_eq!(fnv1a(""), 0x811c_9dc5);
}
