//! Correlation of hop responses with waiting requests.
use vstd::prelude::*;

verus! {

/// Why a waiting request got no response.
#[derive(Debug, Clone, Copy, PartialEq, Eq, Structural)]
pub enum DemuxError {
    Timeout,
    ConnectionClosed,
}

/// Number of waiter shards of a connection by default.
pub const DEFAULT_DEMUX_SHARDS: usize = 64;

/// The waiter shard of a correlation id.
pub fn shard_index(corr_id: u32, num_shards: usize) -> (i: usize)
    requires
        num_shards > 0,
    ensures
        i == corr_id as int % num_shards as int,
        i < num_shards,
{
    (corr_id as usize) % num_shards
}

} // verus!
