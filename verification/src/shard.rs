//! Key-to-shard placement: the global modulo route, the reserved
//! coordinator keys, and region-banded routing.

use vstd::prelude::*;

use crate::hash::{fnv1a, key_hash};
use crate::text::same_text;

verus! {

/// Identifier of a shard (one independent Raft group).
pub type ShardId = u32;

/// The global shard of a key hash: `hash % shard_count`.
pub open spec fn global_shard(hash: u32, shard_count: u32) -> int
    recommends
        shard_count > 0,
{
    (hash % shard_count) as int
}

/// Map a key to its shard: the FNV-1a hash of the key modulo `shard_count`.
/// A cluster always has at least one shard, so `shard_count` must be positive.
pub fn shard_for(key: &str, shard_count: u32) -> (shard: ShardId)
    requires
        shard_count > 0,
    ensures
        shard == global_shard(key_hash(key), shard_count),
        shard as int == (key_hash(key) as int) % (shard_count as int),
        shard < shard_count,
{
    fnv1a(key) % shard_count
}

/// Reserved routing key under which all lock and semaphore state lives.
/// The leading NUL keeps it from colliding with any real user key.
pub const LOCK_COORDINATION_KEY: &'static str = "\u{0}fiducia-lock-coordinator";

/// The shard that coordinates all locks and semaphores for a shard count.
pub fn lock_coordination_shard(shard_count: u32) -> (shard: ShardId)
    requires
        shard_count > 0,
    ensures
        shard == global_shard(key_hash(LOCK_COORDINATION_KEY), shard_count),
        shard < shard_count,
{
    shard_for(LOCK_COORDINATION_KEY, shard_count)
}

/// Reserved routing key under which all service-discovery state lives.
pub const SERVICE_DISCOVERY_KEY: &'static str = "\u{0}fiducia-service-discovery";

/// The shard that coordinates service discovery for a shard count.
pub fn service_discovery_shard(shard_count: u32) -> (shard: ShardId)
    requires
        shard_count > 0,
    ensures
        shard == global_shard(key_hash(SERVICE_DISCOVERY_KEY), shard_count),
        shard < shard_count,
{
    shard_for(SERVICE_DISCOVERY_KEY, shard_count)
}

/// The band a region index selects: out-of-range indices clamp to the last.
pub open spec fn clamped_region(region_index: u32, region_count: u32) -> int {
    if region_index < region_count - 1 {
        region_index as int
    } else {
        region_count - 1
    }
}

/// Number of shards in every band but the last.
pub open spec fn band_width(region_count: u32, shard_count: u32) -> int {
    (shard_count / region_count) as int
}

/// First shard of the band of a (clamped) region.
pub open spec fn band_start(region_index: u32, region_count: u32, shard_count: u32) -> int {
    clamped_region(region_index, region_count) * band_width(region_count, shard_count)
}

/// Number of shards in the band of a (clamped) region; the last band also
/// holds the remainder of the division.
pub open spec fn band_size(region_index: u32, region_count: u32, shard_count: u32) -> int {
    if clamped_region(region_index, region_count) == region_count - 1 {
        shard_count - band_start(region_index, region_count, shard_count)
    } else {
        band_width(region_count, shard_count)
    }
}

/// The regional shard of a key hash: the band start plus the hash modulo the
/// band size.
pub open spec fn regional_shard(
    region_index: u32,
    region_count: u32,
    hash: u32,
    shard_count: u32,
) -> int {
    band_start(region_index, region_count, shard_count) + (hash as int) % band_size(
        region_index,
        region_count,
        shard_count,
    )
}

/// Whether the shard space can be split into one non-empty band per region.
pub open spec fn banding_possible(region_count: int, shard_count: u32) -> bool {
    0 < region_count <= shard_count
}

/// The arithmetic of the band layout: every band is non-empty and lies in
/// `[0, shard_count)`, and a band that is not the last has the common width.
pub proof fn lemma_band_layout(region_index: u32, region_count: u32, shard_count: u32)
    requires
        banding_possible(region_count as int, shard_count),
    ensures
        band_width(region_count, shard_count) >= 1,
        0 <= band_start(region_index, region_count, shard_count),
        band_size(region_index, region_count, shard_count) >= band_width(region_count, shard_count),
        band_start(region_index, region_count, shard_count) + band_size(
            region_index,
            region_count,
            shard_count,
        ) <= shard_count,
{
    let c = clamped_region(region_index, region_count);
    let w = band_width(region_count, shard_count);
    let rc = region_count as int;
    let sc = shard_count as int;
    assert(w == sc / rc);
    assert(w >= 1 && rc * w <= sc) by (nonlinear_arith)
        requires
            0 < rc <= sc,
            w == sc / rc,
    ;
    assert(0 <= c * w <= (rc - 1) * w) by (nonlinear_arith)
        requires
            0 <= c <= rc - 1,
            w >= 1,
    ;
    assert((rc - 1) * w == rc * w - w) by (nonlinear_arith);
}

/// Region-aware sharding: map `(region, key)` into the band of shards homed
/// in that region. The shard space is split into `region_count` contiguous
/// bands, the last one absorbing the remainder; an out-of-range region index
/// clamps to the last band. The key is region-scoped: the same key in two
/// regions lands on two different shards.
pub fn shard_for_region(
    region_index: u32,
    region_count: u32,
    key: &str,
    shard_count: u32,
) -> (shard: ShardId)
    requires
        region_count > 0,
        shard_count >= region_count,
    ensures
        shard == regional_shard(region_index, region_count, key_hash(key), shard_count),
        shard - band_start(region_index, region_count, shard_count) == (key_hash(key) as int)
            % band_size(region_index, region_count, shard_count),
        band_start(region_index, region_count, shard_count) <= shard,
        shard < band_start(region_index, region_count, shard_count) + band_size(
            region_index,
            region_count,
            shard_count,
        ),
        shard < shard_count,
{
    proof {
        lemma_band_layout(region_index, region_count, shard_count);
    }
    let ri = if region_index < region_count - 1 {
        region_index
    } else {
        region_count - 1
    };
    let band = shard_count / region_count;
    let base = ri * band;
    let size = if ri == region_count - 1 {
        shard_count - base
    } else {
        band
    };
    base + (fnv1a(key) % size)
}

/// The conventional default region: index 0, the first region in topology
/// order.
pub const DEFAULT_REGION_INDEX: u32 = 0;

/// The names of an ordered region list, as character sequences.
pub open spec fn region_names(regions: &[&str]) -> Seq<Seq<char>> {
    regions@.map_values(|r: &str| r@)
}

/// Whether `i` is the first position at which `name` occurs in `names`.
pub open spec fn is_first_position(names: Seq<Seq<char>>, name: Seq<char>, i: int) -> bool {
    &&& 0 <= i < names.len()
    &&& names[i] == name
    &&& forall|j: int| 0 <= j < i ==> names[j] != name
}

/// The first position of `name` in `names`, if it occurs at all.
pub open spec fn first_position(names: Seq<Seq<char>>, name: Seq<char>) -> Option<int> {
    if exists|i: int| is_first_position(names, name, i) {
        Some(choose|i: int| is_first_position(names, name, i))
    } else {
        None
    }
}

/// A name occurs in a list exactly when it has a first position, and that
/// position is the only one that is first.
pub proof fn lemma_first_position(names: Seq<Seq<char>>, name: Seq<char>)
    ensures
        first_position(names, name) is Some <==> exists|i: int|
            0 <= i < names.len() && names[i] == name,
        forall|i: int| #[trigger]
            is_first_position(names, name, i) ==> first_position(names, name) == Some(i),
{
    if exists|i: int| 0 <= i < names.len() && names[i] == name {
        let k = choose|i: int| 0 <= i < names.len() && names[i] == name;
        lemma_least_position(names, name, k);
    }
    assert forall|i: int| #[trigger] is_first_position(names, name, i) implies first_position(
        names,
        name,
    ) == Some(i) by {
        let c = choose|c: int| is_first_position(names, name, c);
        assert(is_first_position(names, name, c));
        if c < i {
            assert(names[c] == name);
        } else if i < c {
            assert(names[i] == name);
        }
    }
}

proof fn lemma_least_position(names: Seq<Seq<char>>, name: Seq<char>, k: int)
    requires
        0 <= k < names.len(),
        names[k] == name,
    ensures
        exists|i: int| is_first_position(names, name, i),
    decreases k,
{
    if exists|j: int| 0 <= j < k && names[j] == name {
        let j = choose|j: int| 0 <= j < k && names[j] == name;
        lemma_least_position(names, name, j);
    } else {
        assert(is_first_position(names, name, k));
    }
}

/// The index a region name resolves to: its first position (as a `u32`), or
/// nothing when the name is not in the list.
pub open spec fn resolved_index(names: Seq<Seq<char>>, name: Seq<char>) -> Option<u32> {
    match first_position(names, name) {
        Some(i) => Some(i as u32),
        None => None,
    }
}

/// Resolve a region name to its index in an ordered region list (the
/// cluster order of the topology). Returns `None` for an unknown region.
pub fn region_index(region: &str, regions: &[&str]) -> (index: Option<u32>)
    ensures
        index == resolved_index(region_names(regions), region@),
{
    let ghost names = region_names(regions);
    let mut i: usize = 0;
    while i < regions.len()
        invariant
            i <= regions@.len(),
            names == region_names(regions),
            names.len() == regions@.len(),
            forall|j: int| 0 <= j < i ==> names[j] != region@,
        decreases regions@.len() - i,
    {
        if same_text(regions[i], region) {
            proof {
                assert(is_first_position(names, region@, i as int));
                lemma_first_position(names, region@);
            }
            return Some(i as u32);
        }
        i = i + 1;
    }
    proof {
        lemma_first_position(names, region@);
    }
    None
}

/// The index a region name resolves to, or `default_index` when unknown.
pub open spec fn resolved_index_or(names: Seq<Seq<char>>, name: Seq<char>, default_index: u32) -> u32 {
    match resolved_index(names, name) {
        Some(i) => i,
        None => default_index,
    }
}

/// Resolve a possibly unknown or empty region name to an index, falling back
/// to `default_index` when it is not recognized, so an unknown region
/// degrades to a default region instead of failing.
pub fn region_index_or(region: &str, regions: &[&str], default_index: u32) -> (index: u32)
    ensures
        index == resolved_index_or(region_names(regions), region@, default_index),
{
    match region_index(region, regions) {
        Some(i) => i,
        None => default_index,
    }
}

/// Whether a key is coordinated globally or scoped to a region. This is a
/// property of the key, not of the request's region header.
#[derive(Debug, Clone, Copy, PartialEq, Eq, Structural)]
pub enum KeyScope {
    /// One shard worldwide; the region is ignored entirely.
    Global,
    /// Region-local data, routed into the region's band.
    Regional,
}

/// The shard a key hash is routed to for a scope, a region name and an
/// ordered region list. Global keys ignore the region; regional keys go into
/// the band of the resolved region (unknown names resolve to the default
/// region), and fall back to the global route when the list is empty or has
/// more regions than there are shards.
pub open spec fn routed_shard(
    scope: KeyScope,
    hash: u32,
    name: Seq<char>,
    names: Seq<Seq<char>>,
    shard_count: u32,
) -> int {
    match scope {
        KeyScope::Global => global_shard(hash, shard_count),
        KeyScope::Regional => if banding_possible(names.len() as int, shard_count) {
            regional_shard(
                resolved_index_or(names, name, DEFAULT_REGION_INDEX),
                names.len() as u32,
                hash,
                shard_count,
            )
        } else {
            global_shard(hash, shard_count)
        },
    }
}

/// The single routing entry point: pick a key's shard according to its
/// scope, so a global key can never be region-sharded by accident.
pub fn route_shard(
    scope: KeyScope,
    key: &str,
    region: &str,
    regions: &[&str],
    shard_count: u32,
) -> (shard: ShardId)
    requires
        shard_count > 0,
    ensures
        shard == routed_shard(scope, key_hash(key), region@, region_names(regions), shard_count),
        shard < shard_count,
{
    match scope {
        KeyScope::Global => shard_for(key, shard_count),
        KeyScope::Regional => {
            if regions.len() == 0 || (shard_count as usize) < regions.len() {
                shard_for(key, shard_count)
            } else {
                let ri = region_index_or(region, regions, DEFAULT_REGION_INDEX);
                shard_for_region(ri, regions.len() as u32, key, shard_count)
            }
        },
    }
}

/// The bands are contiguous and cover the shard space: the first starts at
/// shard 0, each band ends where the next begins, and the last band ends at
/// `shard_count` (it absorbs the remainder of the division).
pub proof fn lemma_bands_tile_the_shard_space(region: u32, region_count: u32, shard_count: u32)
    requires
        banding_possible(region_count as int, shard_count),
        region < region_count,
    ensures
        band_start(0, region_count, shard_count) == 0,
        region + 1 < region_count ==> band_start(region, region_count, shard_count) + band_size(
            region,
            region_count,
            shard_count,
        ) == band_start((region + 1) as u32, region_count, shard_count),
        region + 1 == region_count ==> band_start(region, region_count, shard_count) + band_size(
            region,
            region_count,
            shard_count,
        ) == shard_count,
{
    let w = band_width(region_count, shard_count);
    assert(0 * w == 0);
    if region + 1 < region_count {
        assert(region * w + w == (region + 1) * w) by (nonlinear_arith);
    }
}

/// Different regions never share a shard: when two region indices select
/// different bands (after clamping), every key in one band lands on a shard
/// different from every key in the other.
pub proof fn lemma_distinct_regions_get_distinct_shards(
    region_a: u32,
    region_b: u32,
    region_count: u32,
    hash_a: u32,
    hash_b: u32,
    shard_count: u32,
)
    requires
        banding_possible(region_count as int, shard_count),
        clamped_region(region_a, region_count) != clamped_region(region_b, region_count),
    ensures
        regional_shard(region_a, region_count, hash_a, shard_count) != regional_shard(
            region_b,
            region_count,
            hash_b,
            shard_count,
        ),
{
    lemma_band_layout(region_a, region_count, shard_count);
    lemma_band_layout(region_b, region_count, shard_count);
    let ca = clamped_region(region_a, region_count);
    let cb = clamped_region(region_b, region_count);
    let w = band_width(region_count, shard_count);
    let sa = (hash_a as int) % band_size(region_a, region_count, shard_count);
    let sb = (hash_b as int) % band_size(region_b, region_count, shard_count);
    assert(0 <= sa < band_size(region_a, region_count, shard_count));
    assert(0 <= sb < band_size(region_b, region_count, shard_count));
    if ca < cb {
        assert(ca * w + w <= cb * w) by (nonlinear_arith)
            requires
                ca < cb,
                w >= 1,
        ;
    } else {
        assert(cb * w + w <= ca * w) by (nonlinear_arith)
            requires
                cb < ca,
                w >= 1,
        ;
    }
}

/// An out-of-range region index routes exactly as the last region does.
pub proof fn lemma_out_of_range_region_uses_last_band(
    region: u32,
    region_count: u32,
    hash: u32,
    shard_count: u32,
)
    requires
        banding_possible(region_count as int, shard_count),
        region >= region_count,
    ensures
        regional_shard(region, region_count, hash, shard_count) == regional_shard(
            (region_count - 1) as u32,
            region_count,
            hash,
            shard_count,
        ),
{
}

/// A global key lands on the same shard whatever region name and region list
/// accompany it, and that shard is the plain region-agnostic one.
pub proof fn lemma_global_route_ignores_region(
    hash: u32,
    name_a: Seq<char>,
    names_a: Seq<Seq<char>>,
    name_b: Seq<char>,
    names_b: Seq<Seq<char>>,
    shard_count: u32,
)
    requires
        shard_count > 0,
    ensures
        routed_shard(KeyScope::Global, hash, name_a, names_a, shard_count) == routed_shard(
            KeyScope::Global,
            hash,
            name_b,
            names_b,
            shard_count,
        ),
        routed_shard(KeyScope::Global, hash, name_a, names_a, shard_count) == global_shard(
            hash,
            shard_count,
        ),
{
}

/// A regional key with a known region name is routed into that region's
/// band; with an unknown name it is routed into the default (first) band.
pub proof fn lemma_regional_route_uses_resolved_band(
    hash: u32,
    name: Seq<char>,
    names: Seq<Seq<char>>,
    shard_count: u32,
)
    requires
        banding_possible(names.len() as int, shard_count),
    ensures
        forall|i: int| #[trigger]
            is_first_position(names, name, i) ==> routed_shard(
                KeyScope::Regional,
                hash,
                name,
                names,
                shard_count,
            ) == regional_shard(i as u32, names.len() as u32, hash, shard_count),
        !names.contains(name) ==> routed_shard(KeyScope::Regional, hash, name, names, shard_count)
            == regional_shard(DEFAULT_REGION_INDEX, names.len() as u32, hash, shard_count),
{
    lemma_first_position(names, name);
    if !names.contains(name) {
        assert forall|i: int| 0 <= i < names.len() implies names[i] != name by {
            if names[i] == name {
                assert(names.contains(name));
            }
        }
    }
}

/// A regional key whose region list is empty, or longer than the shard
/// count, falls back to the global route instead of failing.
pub proof fn lemma_regional_route_falls_back_to_global(
    hash: u32,
    name: Seq<char>,
    names: Seq<Seq<char>>,
    shard_count: u32,
)
    requires
        shard_count > 0,
        !banding_possible(names.len() as int, shard_count),
    ensures
        routed_shard(KeyScope::Regional, hash, name, names, shard_count) == global_shard(
            hash,
            shard_count,
        ),
{
}


/// The reserved coordinator keys start with a NUL, so no ordinary user key
/// can collide with them, and they differ from each other.
pub proof fn lemma_reserved_keys_are_apart()
    ensures
        LOCK_COORDINATION_KEY@.len() > 0 && LOCK_COORDINATION_KEY@[0] == '\0',
        SERVICE_DISCOVERY_KEY@.len() > 0 && SERVICE_DISCOVERY_KEY@[0] == '\0',
        LOCK_COORDINATION_KEY@ != SERVICE_DISCOVERY_KEY@,
{
    reveal_strlit("\u{0}fiducia-lock-coordinator");
    reveal_strlit("\u{0}fiducia-service-discovery");
    assert(LOCK_COORDINATION_KEY@[9] != SERVICE_DISCOVERY_KEY@[9]);
}

/// A regional route that can be banded stays inside the band of the
/// resolved region.
pub proof fn lemma_regional_route_stays_in_band(
    hash: u32,
    name: Seq<char>,
    names: Seq<Seq<char>>,
    shard_count: u32,
)
    requires
        banding_possible(names.len() as int, shard_count),
    ensures
        ({
            let region = resolved_index_or(names, name, DEFAULT_REGION_INDEX);
            let count = names.len() as u32;
            let shard = routed_shard(KeyScope::Regional, hash, name, names, shard_count);
            &&& band_start(region, count, shard_count) <= shard
            &&& shard < band_start(region, count, shard_count) + band_size(
                region,
                count,
                shard_count,
            )
            &&& shard < shard_count
        }),
{
    let region = resolved_index_or(names, name, DEFAULT_REGION_INDEX);
    let count = names.len() as u32;
    lemma_band_layout(region, count, shard_count);
}


/// The global shard of a hash is the hash modulo the shard count.
pub proof fn lemma_global_shard_is_the_residue(hash: u32, shard_count: u32)
    requires
        shard_count > 0,
    ensures
        global_shard(hash, shard_count) == (hash as int) % (shard_count as int),
        0 <= global_shard(hash, shard_count) < shard_count,
{
}

/// The band layout in closed form: a region index is clamped to
/// `min(region_index, region_count - 1)`, every band but the last has
/// `shard_count / region_count` shards starting at `clamped * width`, and the
/// last band runs to `shard_count`.
pub proof fn lemma_band_layout_closed_form(region_index: u32, region_count: u32, shard_count: u32)
    requires
        banding_possible(region_count as int, shard_count),
    ensures
        ({
            let c: int = if (region_index as int) < region_count - 1 {
                region_index as int
            } else {
                region_count - 1
            };
            let w: int = (shard_count as int) / (region_count as int);
            &&& clamped_region(region_index, region_count) == c
            &&& band_width(region_count, shard_count) == w
            &&& band_start(region_index, region_count, shard_count) == c * w
            &&& c < region_count - 1 ==> band_size(region_index, region_count, shard_count) == w
            &&& c == region_count - 1 ==> band_size(region_index, region_count, shard_count)
                == shard_count - c * w
        }),
{
}

/// Inside its band, a key's shard is offset by its whole hash modulo the
/// band size (the hash is not reduced modulo the shard count first).
pub proof fn lemma_band_offset_is_hash_mod_band_size(
    region_index: u32,
    region_count: u32,
    hash: u32,
    shard_count: u32,
)
    requires
        banding_possible(region_count as int, shard_count),
    ensures
        regional_shard(region_index, region_count, hash, shard_count) - band_start(
            region_index,
            region_count,
            shard_count,
        ) == (hash as int) % band_size(region_index, region_count, shard_count),
        0 <= (hash as int) % band_size(region_index, region_count, shard_count) < band_size(
            region_index,
            region_count,
            shard_count,
        ),
{
    lemma_band_layout(region_index, region_count, shard_count);
}


/// A region list is read name by name, and a name resolves to the index of
/// its first occurrence: an earlier equal name wins, a name that occurs
/// nowhere resolves to nothing (and so to the default).
pub proof fn lemma_region_lookup_finds_the_first_occurrence(
    regions: &[&str],
    name: Seq<char>,
    i: int,
    default_index: u32,
)
    ensures
        region_names(regions).len() == regions@.len(),
        forall|j: int| 0 <= j < regions@.len() ==> #[trigger] region_names(regions)[j]
            == regions@[j]@,
        (0 <= i < regions@.len() && regions@[i]@ == name && forall|j: int|
            0 <= j < i ==> regions@[j]@ != name) ==> resolved_index(region_names(regions), name)
            == Some(i as u32) && resolved_index_or(region_names(regions), name, default_index) == i
            as u32,
        (forall|j: int| 0 <= j < regions@.len() ==> regions@[j]@ != name) ==> resolved_index(
            region_names(regions),
            name,
        ) is None && resolved_index_or(region_names(regions), name, default_index)
            == default_index,
{
    let names = region_names(regions);
    lemma_first_position(names, name);
    if 0 <= i < regions@.len() && regions@[i]@ == name && forall|j: int|
        0 <= j < i ==> regions@[j]@ != name {
        assert(is_first_position(names, name, i));
    }
    if forall|j: int| 0 <= j < regions@.len() ==> regions@[j]@ != name {
        assert forall|j: int| 0 <= j < names.len() implies names[j] != name by {
            assert(names[j] == regions@[j]@);
        }
    }
}

/// Banding is possible exactly when there is at least one region and at
/// least one shard per region.
pub proof fn lemma_banding_needs_a_shard_per_region(region_count: int, shard_count: u32)
    ensures
        banding_possible(region_count, shard_count) <==> (region_count > 0 && region_count
            <= shard_count as int),
{
}

/// The reserved coordinator keys are frozen texts.
pub proof fn lemma_reserved_keys_are_frozen()
    ensures
        LOCK_COORDINATION_KEY@ == seq![
            '\0', 'f', 'i', 'd', 'u', 'c', 'i', 'a', '-', 'l', 'o', 'c', 'k', '-', 'c', 'o', 'o',
            'r', 'd', 'i', 'n', 'a', 't', 'o', 'r',
        ],
        SERVICE_DISCOVERY_KEY@ == seq![
            '\0', 'f', 'i', 'd', 'u', 'c', 'i', 'a', '-', 's', 'e', 'r', 'v', 'i', 'c', 'e', '-',
            'd', 'i', 's', 'c', 'o', 'v', 'e', 'r', 'y',
        ],
{
    reveal_strlit("\u{0}fiducia-lock-coordinator");
    reveal_strlit("\u{0}fiducia-service-discovery");
    assert(LOCK_COORDINATION_KEY@ =~= seq![
        '\0', 'f', 'i', 'd', 'u', 'c', 'i', 'a', '-', 'l', 'o', 'c', 'k', '-', 'c', 'o', 'o',
        'r', 'd', 'i', 'n', 'a', 't', 'o', 'r',
    ]);
    assert(SERVICE_DISCOVERY_KEY@ =~= seq![
        '\0', 'f', 'i', 'd', 'u', 'c', 'i', 'a', '-', 's', 'e', 'r', 'v', 'i', 'c', 'e', '-',
        'd', 'i', 's', 'c', 'o', 'v', 'e', 'r', 'y',
    ]);
}

} // verus!
