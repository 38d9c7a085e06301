use fiducia_routing::lock_coordination::{lock_coordination_domain_key, LockCoordinationDomain};
use fiducia_routing::{
    fnv1a, org_scoped_key, parse_u32, region_index, route_shard, shard_for,
    shard_for_customer_region, shard_for_region, CountError, KeyScope, Region,
};

#[test]
fn customer_region_values_parse() {
    assert_eq!(Region::parse("us-central1"), Some(Region::UsCentral1));
    assert_eq!(Region::parse("aws"), Some(Region::UsEast1));
    assert_eq!(Region::parse("hetzner"), Some(Region::EuCentral));
    assert_eq!(Region::parse("moon"), None);
    assert_eq!(Region::parse(""), None);
}

#[test]
fn region_codes_and_cluster_names_parse_back() {
    for region in Region::ALL {
        assert_eq!(Region::parse(region.code()), Some(region));
        assert_eq!(Region::parse(region.cluster_name()), Some(region));
        assert_eq!(Region::ALL[region.index() as usize], region);
    }
    assert_eq!(Region::UsEast1.code(), "us-east-1");
    assert_eq!(Region::EuCentral.cluster_name(), "hetzner");
    assert_eq!(Region::EuCentral.index(), 2);
}

#[test]
fn region_parsing_trims_unicode_whitespace_only() {
    assert_eq!(Region::parse("\u{a0}aws\u{3000}"), Some(Region::UsEast1));
    assert_eq!(Region::parse("\t\nGcP\r "), Some(Region::UsCentral1));
    assert_eq!(Region::parse("\u{200b}aws"), None);
    assert_eq!(Region::parse("a ws"), None);
    assert_eq!(Region::parse("\u{391}WS"), None);
}

#[test]
fn region_index_reports_the_first_match() {
    let regions = ["aws", "gcp", "aws"];
    assert_eq!(region_index("aws", &regions), Some(0));
    assert_eq!(region_index("gcp", &regions), Some(1));
    assert_eq!(region_index("AWS", &regions), None);
    assert_eq!(region_index("aws", &[]), None);
}

#[test]
fn regional_route_without_usable_bands_is_the_global_route() {
    let key = "orders/42";
    assert_eq!(
        route_shard(KeyScope::Regional, key, "gcp", &[], 16),
        shard_for(key, 16)
    );
    let regions = ["gcp", "aws", "hetzner"];
    assert_eq!(
        route_shard(KeyScope::Regional, key, "aws", &regions, 2),
        shard_for(key, 2)
    );
}

#[test]
fn out_of_range_region_index_routes_like_the_last_region() {
    for key in ["a", "orders/1", "🔒"] {
        assert_eq!(
            shard_for_region(99, 3, key, 16),
            shard_for_region(2, 3, key, 16)
        );
        assert_eq!(
            shard_for_region(u32::MAX, 4, key, 7),
            shard_for_region(3, 4, key, 7)
        );
    }
}

#[test]
fn bands_are_contiguous_and_cover_every_shard() {
    // 3 regions, 10 shards: bands [0,3) [3,6) [6,10).
    let mut seen = [false; 10];
    for i in 0..2000u32 {
        let key = format!("key-{i}");
        for region in 0..3u32 {
            let s = shard_for_region(region, 3, &key, 10);
            let (lo, hi) = [(0, 3), (3, 6), (6, 10)][region as usize];
            assert!(lo <= s && s < hi);
            seen[s as usize] = true;
        }
    }
    assert!(seen.iter().all(|b| *b));
}

#[test]
fn customer_regions_never_share_a_shard() {
    for shard_count in [3u32, 4, 10, 257] {
        for key in ["x", "orders/checkout", "sessions/user-42"] {
            let a = shard_for_customer_region(Region::UsCentral1, key, shard_count);
            let b = shard_for_customer_region(Region::UsEast1, key, shard_count);
            let c = shard_for_customer_region(Region::EuCentral, key, shard_count);
            assert!(a != b && b != c && a != c);
            assert!(a < shard_count && b < shard_count && c < shard_count);
        }
    }
}

#[test]
fn fnv1a_known_values() {
    assert_eq!(fnv1a("a"), 0xe40c_292c);
    assert_eq!(fnv1a("foobar"), 0xbf9c_f968);
    assert_eq!(shard_for("a", 1), 0);
    assert_eq!(shard_for("a", 1000), 0xe40c_292c % 1000);
}

#[test]
fn org_scoping_keeps_boundaries() {
    assert_ne!(org_scoped_key("ab", "c"), org_scoped_key("a", "bc"));
    assert_eq!(org_scoped_key("", ""), "\u{1}\u{1}");
}

#[test]
fn domain_keys_frame_the_byte_length_in_decimal() {
    let long = lock_coordination_domain_key(LockCoordinationDomain::System("abcdefghijkl"));
    assert!(long.ends_with("\0system\012\0abcdefghijkl"));
    let wide = lock_coordination_domain_key(LockCoordinationDomain::Shared("é"));
    assert!(wide.ends_with("\0shared\02\0é"));
    let empty = lock_coordination_domain_key(LockCoordinationDomain::Tenant(""));
    assert_eq!(empty, "\0fiducia-lock-domain-v1\0tenant\00\0");
}

#[test]
fn counts_parse_like_std_and_reject_zero() {
    assert_eq!(parse_u32(None), Err(CountError::Missing));
    assert_eq!(parse_u32(Some("256")), Ok(256));
    assert_eq!(parse_u32(Some("+7")), Ok(7));
    assert_eq!(parse_u32(Some("0")), Err(CountError::Zero));
    assert_eq!(parse_u32(Some("000")), Err(CountError::Zero));
    assert_eq!(parse_u32(Some("4294967295")), Ok(u32::MAX));
    assert_eq!(parse_u32(Some("4294967296")), Err(CountError::NotANumber));
    for text in ["", "+", "-1", " 5", "5 ", "12a", "++1", "٣", "99999999999x"] {
        assert_eq!(parse_u32(Some(text)), Err(CountError::NotANumber), "{text:?}");
    }
    for text in ["1", "+0", "007", "65536", "4294967295", "x", "", "-0", "4294967296"] {
        let expected = match text.parse::<u32>() {
            Ok(0) => Err(CountError::Zero),
            Ok(n) => Ok(n),
            Err(_) => Err(CountError::NotANumber),
        };
        assert_eq!(parse_u32(Some(text)), expected, "{text:?}");
    }
}
