//! The settings of the server's caches.

use vstd::prelude::*;

verus! {

/// How long cached answers live, and how many each cache keeps.
#[derive(Debug, Clone, Copy)]
pub struct CacheConfig {
    /// How long, in seconds, a contract's existence stays cached.
    pub contract_ttl: u64,
    /// How long, in seconds, a contract's records stay cached.
    pub default_record_ttl: u64,
    /// The most entries each cache keeps.
    pub max_entries: u64,
}

impl Default for CacheConfig {
    /// Five minutes for both caches, and ten thousand entries each.
    fn default() -> (r: Self)
        ensures
            r.contract_ttl == 300,
            r.default_record_ttl == 300,
            r.max_entries == 10_000,
    {
        CacheConfig { contract_ttl: 300, default_record_ttl: 300, max_entries: 10_000 }
    }
}

} // verus!
