//! How edited blocks reach the world: straight into the loaded chunk in
//! fast mode, otherwise through the world with update flags chosen from the
//! configuration.

use vstd::prelude::*;
use crate::config::Config;
use crate::geometry::{BlockPos, chunk_index, spec_chunk_index};

verus! {

/// The update flags of a world-level block write.
#[derive(Clone, Copy, Debug, PartialEq, Eq, Structural)]
pub struct WriteFlags {
    pub notify_neighbors: bool,
    pub notify_listeners: bool,
    pub skip_drops: bool,
    pub skip_redstone_wire_state_replacement: bool,
    pub skip_block_entity_replaced_callback: bool,
    pub skip_block_added_callback: bool,
}

/// Clients hear of changes when `notify_clients` is on; outside fast mode
/// neighbours are notified, in fast mode drops, redstone wire replacement
/// and block callbacks are skipped.
pub open spec fn spec_block_flags(config: Config) -> WriteFlags {
    WriteFlags {
        notify_neighbors: !config.fast_mode,
        notify_listeners: config.notify_clients,
        skip_drops: config.fast_mode,
        skip_redstone_wire_state_replacement: config.fast_mode,
        skip_block_entity_replaced_callback: config.fast_mode,
        skip_block_added_callback: config.fast_mode,
    }
}

pub fn block_flags(config: &Config) -> (f: WriteFlags)
    ensures
        f == spec_block_flags(*config),
{
    let mut flags = WriteFlags {
        notify_neighbors: false,
        notify_listeners: false,
        skip_drops: false,
        skip_redstone_wire_state_replacement: false,
        skip_block_entity_replaced_callback: false,
        skip_block_added_callback: false,
    };
    if config.notify_clients {
        flags.notify_listeners = true;
    }
    if !config.fast_mode {
        flags.notify_neighbors = true;
    } else {
        flags.skip_drops = true;
        flags.skip_redstone_wire_state_replacement = true;
        flags.skip_block_entity_replaced_callback = true;
        flags.skip_block_added_callback = true;
    }
    flags
}

/// Where a block read or write goes.
#[derive(Clone, Copy, Debug, PartialEq, Eq, Structural)]
pub struct WriteStrategy {
    /// Fast mode writes into the loaded chunk directly.
    pub direct_chunk_writes: bool,
    /// The flags of a write through the world.
    pub fallback_flags: WriteFlags,
}

/// How to reach the chunk of a block.
#[derive(Clone, Copy, Debug, PartialEq, Eq, Structural)]
pub enum ChunkAccess {
    /// Go through the world.
    World,
    /// The chunk already at hand holds the block.
    Cached,
    /// Fetch chunk column (`x`, `z`) and keep it at hand.
    Load { x: i32, z: i32 },
}

impl WriteStrategy {
    pub open spec fn spec_new(config: Config) -> WriteStrategy {
        WriteStrategy { direct_chunk_writes: config.fast_mode, fallback_flags: spec_block_flags(config) }
    }

    pub fn new(config: &Config) -> (w: WriteStrategy)
        ensures
            w == WriteStrategy::spec_new(*config),
    {
        WriteStrategy { direct_chunk_writes: config.fast_mode, fallback_flags: block_flags(config) }
    }

    /// Outside fast mode every access goes through the world; in fast mode
    /// the chunk at hand (`cached`, by its column) is used when it holds
    /// `pos`, and the block's chunk is fetched otherwise.
    pub open spec fn spec_chunk_access(self, cached: Option<(i32, i32)>, pos: BlockPos) -> ChunkAccess {
        if !self.direct_chunk_writes {
            ChunkAccess::World
        } else {
            let x = spec_chunk_index(pos.x) as i32;
            let z = spec_chunk_index(pos.z) as i32;
            match cached {
                Some(c) => if c.0 == x && c.1 == z {
                    ChunkAccess::Cached
                } else {
                    ChunkAccess::Load { x, z }
                },
                None => ChunkAccess::Load { x, z },
            }
        }
    }

    pub fn chunk_access(&self, cached: Option<(i32, i32)>, pos: BlockPos) -> (a: ChunkAccess)
        ensures
            a == self.spec_chunk_access(cached, pos),
    {
        if !self.direct_chunk_writes {
            return ChunkAccess::World;
        }
        let x = chunk_index(pos.x);
        let z = chunk_index(pos.z);
        match cached {
            Some(c) => {
                if c.0 == x && c.1 == z {
                    ChunkAccess::Cached
                } else {
                    ChunkAccess::Load { x, z }
                }
            },
            None => ChunkAccess::Load { x, z },
        }
    }
}

} // verus!
