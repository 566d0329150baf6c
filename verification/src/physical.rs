//! Plain descriptions of an adapter and its memory, as negotiation reads
//! them.

use vstd::prelude::*;

use crate::version::Version;

verus! {

/// What kind of adapter a physical device is.
#[derive(Clone, Copy, Debug, PartialEq, Eq, Structural, Hash)]
pub enum PhysicalDeviceKind {
    Other,
    IntegratedGpu,
    DiscreteGpu,
    VirtualGpu,
    Cpu,
}

/// The identity of a physical device.
#[derive(Clone, Debug)]
pub struct PhysicalDeviceProperties {
    pub api_version: Version,
    pub driver_version: Version,
    pub vendor_id: u32,
    pub device_id: u32,
    pub device_kind: PhysicalDeviceKind,
    pub device_name: String,
}

/// What a resource needs from an allocation.
#[derive(Clone, Copy, Debug, PartialEq, Eq, Structural, Hash)]
pub struct MemoryRequirements {
    pub size: u64,
    pub alignment: u64,
    pub memory_type_bits: u32,
}

/// One memory heap of a physical device.
#[derive(Clone, Copy, Debug, PartialEq, Eq, Structural, Hash)]
pub struct MemoryHeap {
    pub size: u64,
    pub device_local: bool,
}

/// The optional device features a connection may enable.
#[derive(Clone, Copy, Debug, PartialEq, Eq, Structural, Hash)]
pub struct DeviceFeatures {
    pub acceleration_structure: bool,
}

} // verus!
