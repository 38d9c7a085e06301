//! Customer-selectable regions and region-aware routing of customer keys.

use vstd::prelude::*;

use crate::hash::key_hash;
use crate::shard::{
    clamped_region, lemma_distinct_regions_get_distinct_shards, regional_shard, shard_for_region,
    ShardId,
};
use crate::text::{chars_equal, lower_ascii, trim, trimmed_lowercase};

verus! {

/// Customer-selectable region values, in the cluster order of the topology
/// (the band order of regional routing).
#[derive(Clone, Copy, Debug, Eq, PartialEq, Structural)]
pub enum Region {
    UsCentral1,
    UsEast1,
    EuCentral,
}

/// The number of regions.
pub const REGION_COUNT: u32 = 3;

/// Stable customer-facing API value of a region.
pub open spec fn region_code(region: Region) -> Seq<char> {
    match region {
        Region::UsCentral1 => "us-central1"@,
        Region::UsEast1 => "us-east-1"@,
        Region::EuCentral => "eu-central"@,
    }
}

/// Backing cluster name of a region.
pub open spec fn region_cluster_name(region: Region) -> Seq<char> {
    match region {
        Region::UsCentral1 => "gcp"@,
        Region::UsEast1 => "aws"@,
        Region::EuCentral => "hetzner"@,
    }
}

/// Band index of a region: its position in topology order.
pub open spec fn region_index_of(region: Region) -> u32 {
    match region {
        Region::UsCentral1 => 0,
        Region::UsEast1 => 1,
        Region::EuCentral => 2,
    }
}

/// A region name after trimming surrounding whitespace and lowercasing
/// ASCII letters.
pub open spec fn normalized_region_name(value: Seq<char>) -> Seq<char> {
    lower_ascii(trim(value))
}

/// The region a (normalized) name denotes: its code, an alias, or its
/// cluster name.
pub open spec fn region_named(name: Seq<char>) -> Option<Region> {
    if name == "us-central1"@ || name == "us-central"@ || name == "gcp"@ {
        Some(Region::UsCentral1)
    } else if name == "us-east-1"@ || name == "us-east"@ || name == "aws"@ {
        Some(Region::UsEast1)
    } else if name == "eu-central"@ || name == "eu-central-1"@ || name == "hetzner"@ {
        Some(Region::EuCentral)
    } else {
        None
    }
}

/// The region a customer-supplied value denotes, tolerant of surrounding
/// whitespace and ASCII case.
pub open spec fn parsed_region(value: Seq<char>) -> Option<Region> {
    region_named(normalized_region_name(value))
}

impl Region {
    /// Every region, in topology order.
    pub const ALL: [Region; 3] = [Region::UsCentral1, Region::UsEast1, Region::EuCentral];

    /// Stable customer-facing API value.
    pub fn code(self) -> (code: &'static str)
        ensures
            code@ == region_code(self),
    {
        match self {
            Region::UsCentral1 => "us-central1",
            Region::UsEast1 => "us-east-1",
            Region::EuCentral => "eu-central",
        }
    }

    /// Current backing cluster name for this customer-facing region.
    pub fn cluster_name(self) -> (name: &'static str)
        ensures
            name@ == region_cluster_name(self),
    {
        match self {
            Region::UsCentral1 => "gcp",
            Region::UsEast1 => "aws",
            Region::EuCentral => "hetzner",
        }
    }

    /// Band index of the region (its position in topology order).
    pub fn index(self) -> (index: u32)
        ensures
            index == region_index_of(self),
            index < REGION_COUNT,
    {
        match self {
            Region::UsCentral1 => 0,
            Region::UsEast1 => 1,
            Region::EuCentral => 2,
        }
    }

    /// Parse a customer-supplied region value: surrounding whitespace is
    /// ignored, ASCII case is folded, and codes, aliases and cluster names
    /// are accepted. Unknown values give `None`.
    pub fn parse(value: &str) -> (region: Option<Region>)
        ensures
            region == parsed_region(value@),
    {
        let name = trimmed_lowercase(value);
        if chars_equal(&name, "us-central1") || chars_equal(&name, "us-central") || chars_equal(
            &name,
            "gcp",
        ) {
            Some(Region::UsCentral1)
        } else if chars_equal(&name, "us-east-1") || chars_equal(&name, "us-east") || chars_equal(
            &name,
            "aws",
        ) {
            Some(Region::UsEast1)
        } else if chars_equal(&name, "eu-central") || chars_equal(&name, "eu-central-1")
            || chars_equal(&name, "hetzner") {
            Some(Region::EuCentral)
        } else {
            None
        }
    }
}

/// Customer-facing region-aware routing: map `(region, key)` to a shard in
/// the region's band. The region is explicit API input, never inferred from
/// the client's address. There must be at least one shard per region.
pub fn shard_for_customer_region(region: Region, key: &str, shard_count: u32) -> (shard: ShardId)
    requires
        shard_count >= REGION_COUNT,
    ensures
        shard == regional_shard(region_index_of(region), REGION_COUNT, key_hash(key), shard_count),
        shard < shard_count,
{
    shard_for_region(region.index(), REGION_COUNT, key, shard_count)
}


/// Every region parses back from its own code and from its cluster name.
pub proof fn lemma_region_names_round_trip(region: Region)
    ensures
        parsed_region(region_code(region)) == Some(region),
        parsed_region(region_cluster_name(region)) == Some(region),
{
    reveal_strlit("us-central1");
    reveal_strlit("us-central");
    reveal_strlit("gcp");
    reveal_strlit("us-east-1");
    reveal_strlit("us-east");
    reveal_strlit("aws");
    reveal_strlit("eu-central");
    reveal_strlit("eu-central-1");
    reveal_strlit("hetzner");
    let code = region_code(region);
    let cluster = region_cluster_name(region);
    assert(trim(code) =~= code);
    assert(trim(cluster) =~= cluster);
    assert(lower_ascii(code) =~= code);
    assert(lower_ascii(cluster) =~= cluster);
}

/// `Region::ALL` lists each region at its band index.
pub proof fn lemma_all_is_in_index_order(region: Region)
    ensures
        Region::ALL@.len() == REGION_COUNT,
        Region::ALL@[region_index_of(region) as int] == region,
{
}

/// Two different customer regions never route a key to the same shard.
pub proof fn lemma_distinct_customer_regions_get_distinct_shards(
    region_a: Region,
    region_b: Region,
    hash: u32,
    shard_count: u32,
)
    requires
        shard_count >= REGION_COUNT,
        region_a != region_b,
    ensures
        regional_shard(region_index_of(region_a), REGION_COUNT, hash, shard_count)
            != regional_shard(region_index_of(region_b), REGION_COUNT, hash, shard_count),
{
    assert(clamped_region(region_index_of(region_a), REGION_COUNT) != clamped_region(
        region_index_of(region_b),
        REGION_COUNT,
    ));
    lemma_distinct_regions_get_distinct_shards(
        region_index_of(region_a),
        region_index_of(region_b),
        REGION_COUNT,
        hash,
        hash,
        shard_count,
    );
}


/// The fixed customer-facing values of every region: its API code, its
/// backing cluster, and its band index in topology order.
pub proof fn lemma_region_api_values(region: Region)
    ensures
        REGION_COUNT == 3,
        region == Region::UsCentral1 ==> region_code(region) == "us-central1"@
            && region_cluster_name(region) == "gcp"@ && region_index_of(region) == 0,
        region == Region::UsEast1 ==> region_code(region) == "us-east-1"@ && region_cluster_name(
            region,
        ) == "aws"@ && region_index_of(region) == 1,
        region == Region::EuCentral ==> region_code(region) == "eu-central"@
            && region_cluster_name(region) == "hetzner"@ && region_index_of(region) == 2,
{
}

/// The full alias table: every accepted spelling, in canonical form, names
/// its region, and no other canonical name is accepted.
pub proof fn lemma_region_alias_table(name: Seq<char>)
    ensures
        parsed_region("us-central1"@) == Some(Region::UsCentral1),
        parsed_region("us-central"@) == Some(Region::UsCentral1),
        parsed_region("gcp"@) == Some(Region::UsCentral1),
        parsed_region("us-east-1"@) == Some(Region::UsEast1),
        parsed_region("us-east"@) == Some(Region::UsEast1),
        parsed_region("aws"@) == Some(Region::UsEast1),
        parsed_region("eu-central"@) == Some(Region::EuCentral),
        parsed_region("eu-central-1"@) == Some(Region::EuCentral),
        parsed_region("hetzner"@) == Some(Region::EuCentral),
        region_named(name) is Some ==> (name == "us-central1"@ || name == "us-central"@ || name
            == "gcp"@ || name == "us-east-1"@ || name == "us-east"@ || name == "aws"@ || name
            == "eu-central"@ || name == "eu-central-1"@ || name == "hetzner"@),
{
    reveal_strlit("us-central1");
    reveal_strlit("us-central");
    reveal_strlit("gcp");
    reveal_strlit("us-east-1");
    reveal_strlit("us-east");
    reveal_strlit("aws");
    reveal_strlit("eu-central");
    reveal_strlit("eu-central-1");
    reveal_strlit("hetzner");
    lemma_canonical_name_parses("us-central1"@);
    lemma_canonical_name_parses("us-central"@);
    lemma_canonical_name_parses("gcp"@);
    lemma_canonical_name_parses("us-east-1"@);
    lemma_canonical_name_parses("us-east"@);
    lemma_canonical_name_parses("aws"@);
    lemma_canonical_name_parses("eu-central"@);
    lemma_canonical_name_parses("eu-central-1"@);
    lemma_canonical_name_parses("hetzner"@);
    assert("us-central1"@ != "us-central"@);
    assert("us-east-1"@ != "us-east"@);
    assert("us-east"@ != "us-central1"@ && "us-east"@[3] != "us-central"@[3]);
    assert("us-east"@ != "gcp"@);
    assert("aws"@[0] != "gcp"@[0]);
    assert("eu-central-1"@ != "us-central1"@ && "eu-central-1"@ != "us-central"@);
    assert("eu-central"@[0] != "us-central"@[0]);
    assert("eu-central-1"@ != "gcp"@ && "eu-central-1"@ != "us-east-1"@);
    assert("eu-central-1"@ != "us-east"@ && "eu-central-1"@ != "aws"@);
    assert("hetzner"@[0] != "us-east"@[0] && "hetzner"@ != "us-central1"@);
    assert("hetzner"@[0] != "us-central"@[0] && "hetzner"@ != "gcp"@);
    assert("hetzner"@ != "us-east-1"@ && "hetzner"@ != "aws"@);
    assert("eu-central"@ != "us-central1"@ && "eu-central"@ != "gcp"@);
    assert("eu-central"@[0] != "us-east-1"@[0] && "eu-central"@ != "us-east"@);
    assert("eu-central"@ != "aws"@);
}

/// A name made of lowercase ASCII characters without surrounding whitespace
/// parses as itself.
proof fn lemma_canonical_name_parses(name: Seq<char>)
    requires
        name.len() > 0,
        forall|i: int| 0 <= i < name.len() ==> !('A' <= #[trigger] name[i] <= 'Z'),
        !crate::text::is_whitespace(name[0]),
        !crate::text::is_whitespace(name.last()),
    ensures
        parsed_region(name) == region_named(name),
{
    assert(trim(name) =~= name);
    assert(lower_ascii(name) =~= name);
}


/// Parsing is tolerant of surrounding whitespace and of ASCII case: padding
/// a value with whitespace on either side, or lowercasing its ASCII
/// letters, never changes which region it names.
pub proof fn lemma_parse_ignores_padding_and_case(
    left: Seq<char>,
    value: Seq<char>,
    right: Seq<char>,
)
    requires
        crate::text::all_whitespace(left),
        crate::text::all_whitespace(right),
    ensures
        parsed_region(left + value + right) == parsed_region(value),
        parsed_region(lower_ascii(value)) == parsed_region(value),
{
    crate::text::lemma_trim_ignores_surrounding_whitespace(left, value, right);
    crate::text::lemma_normalizing_ignores_ascii_case(value);
}

} // verus!
