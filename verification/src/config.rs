//! Externally supplied scheduler knobs.
//!
//! The periodic jobs read their intervals and the chunk cell size from
//! this configuration; every knob has a default that is used when the
//! deployment supplies nothing.

use vstd::prelude::*;
use crate::scheduler::JobKind;

verus! {

/// Default interval of the position reconciliation job, in milliseconds.
pub const DEFAULT_POSITION_UPDATE_INTERVAL_MS: u64 = 50;

/// Default interval of the rotation reconciliation job, in milliseconds;
/// rotation runs at a lower frequency because clients interpolate it.
pub const DEFAULT_ROTATION_UPDATE_INTERVAL_MS: u64 = 200;

/// Default interval of the chunk recomputation job, in milliseconds.
pub const DEFAULT_CHUNK_UPDATE_INTERVAL_MS: u64 = 5000;

/// Default edge length of a chunk cell, in world units.
pub const DEFAULT_CHUNK_CELL_SIZE: u32 = 16;

/// The interval knobs of the periodic jobs and the chunk cell size.
#[derive(Clone, Copy, Debug, PartialEq, Eq, Structural)]
pub struct SchedulerConfig {
    pub position_update_interval_ms: u64,
    pub rotation_update_interval_ms: u64,
    pub chunk_update_interval_ms: u64,
    pub chunk_cell_size: u32,
}

impl SchedulerConfig {
    /// The cell size must be a positive number of world units.
    pub open spec fn wf(self) -> bool {
        self.chunk_cell_size >= 1
    }

    /// The configuration with every knob at its default.
    pub fn standard() -> (r: SchedulerConfig)
        ensures
            r.wf(),
            r.position_update_interval_ms == DEFAULT_POSITION_UPDATE_INTERVAL_MS,
            r.rotation_update_interval_ms == DEFAULT_ROTATION_UPDATE_INTERVAL_MS,
            r.chunk_update_interval_ms == DEFAULT_CHUNK_UPDATE_INTERVAL_MS,
            r.chunk_cell_size == DEFAULT_CHUNK_CELL_SIZE,
    {
        SchedulerConfig {
            position_update_interval_ms: DEFAULT_POSITION_UPDATE_INTERVAL_MS,
            rotation_update_interval_ms: DEFAULT_ROTATION_UPDATE_INTERVAL_MS,
            chunk_update_interval_ms: DEFAULT_CHUNK_UPDATE_INTERVAL_MS,
            chunk_cell_size: DEFAULT_CHUNK_CELL_SIZE,
        }
    }

    /// The configured interval of a periodic job.
    pub fn interval_for(&self, kind: JobKind) -> (r: u64)
        ensures
            r == match kind {
                JobKind::PositionUpdates => self.position_update_interval_ms,
                JobKind::RotationUpdates => self.rotation_update_interval_ms,
                JobKind::ChunkRecompute => self.chunk_update_interval_ms,
            },
    {
        match kind {
            JobKind::PositionUpdates => self.position_update_interval_ms,
            JobKind::RotationUpdates => self.rotation_update_interval_ms,
            JobKind::ChunkRecompute => self.chunk_update_interval_ms,
        }
    }
}

impl Default for SchedulerConfig {
    /// Same as `standard`.
    fn default() -> (r: SchedulerConfig)
        ensures
            r.wf(),
            r.position_update_interval_ms == DEFAULT_POSITION_UPDATE_INTERVAL_MS,
            r.rotation_update_interval_ms == DEFAULT_ROTATION_UPDATE_INTERVAL_MS,
            r.chunk_update_interval_ms == DEFAULT_CHUNK_UPDATE_INTERVAL_MS,
            r.chunk_cell_size == DEFAULT_CHUNK_CELL_SIZE,
    {
        SchedulerConfig::standard()
    }
}

} // verus!
