//! Driver core for USB GameCube controller adapters: report decoding, the
//! controller-slot allocator, hotplug diffing, the polling coordinator's
//! decisions and the latest-value cell that hands snapshots to readers.
use vstd::prelude::*;

pub mod controller;
pub mod slots;
pub mod hotplug;
pub mod coordinator;
pub mod sync_cell;

verus! {

/// Vendor id of the GameCube adapter.
pub const VENDOR_ID: u16 = 0x057E;

/// Product id of the GameCube adapter.
pub const PRODUCT_ID: u16 = 0x0337;

} // verus!
