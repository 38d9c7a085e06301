//! Shared key-to-shard routing.
//!
//! Every component must map a key to the same shard, or the cluster splits
//! its brain: the load balancer would route a request to one shard while the
//! data plane stored it in another. This crate is the single place where that
//! mapping is defined:
//!   * `hash`: the frozen 32-bit FNV-1a hash over a key's UTF-8 bytes;
//!   * `shard`: `hash % shard_count`, the reserved coordinator keys, and
//!     region-banded routing with the `route_shard` entry point;
//!   * `region`: customer-selectable regions and their parsing;
//!   * `scope`: organization-scoped key framing;
//!   * `lock_coordination`: versioned lock-coordination-domain routing;
//!   * `args`: parsing of operator-supplied counts;
//!   * `text`: verified helpers on strings.
//!
//! `shard_count` is cluster configuration owned by the control plane and
//! passed in by every caller; it is fixed for the cluster's life.

pub mod args;
pub mod hash;
pub mod lock_coordination;
pub mod region;
pub mod scope;
pub mod shard;
pub mod text;

pub use args::{parse_u32, CountError};
pub use hash::fnv1a;
pub use lock_coordination::{
    lock_coordination_domain_key, lock_coordination_shard_for, LockCoordinationDomain,
    LockRoutingMode, LOCK_COORDINATION_DOMAIN_V1_PREFIX,
};
pub use region::{shard_for_customer_region, Region};
pub use scope::{org_scope_prefix, org_scoped_key, ORG_SCOPE_DELIM};
pub use shard::{
    lock_coordination_shard, region_index, region_index_or, route_shard, service_discovery_shard,
    shard_for, shard_for_region, KeyScope, ShardId, DEFAULT_REGION_INDEX, LOCK_COORDINATION_KEY,
    SERVICE_DISCOVERY_KEY,
};
