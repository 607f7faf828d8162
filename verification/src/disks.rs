//! Physical disks that are safe flash targets: external / removable, never the system
//! disk, as each platform's own tools describe them.
use vstd::prelude::*;

pub mod elsewhere;
pub mod macos;
pub mod windows;

verus! {

/// A physical disk presented to the UI as a potential flash target.
#[derive(Debug)]
pub struct DiskInfo {
    /// Path to open for raw writing (e.g. `/dev/rdisk4`, `\\.\PhysicalDrive2`).
    pub device: String,
    /// Human-facing path (e.g. `/dev/disk4`), also used for unmounting.
    pub display_device: String,
    /// Model / media name.
    pub description: String,
    /// Size in bytes.
    pub size: u64,
    pub is_removable: bool,
    pub is_external: bool,
    /// Never a valid target. Present only so the UI can hard-block it.
    pub is_system: bool,
}


impl DiskInfo {
    /// A field-by-field copy.
    pub fn duplicate(&self) -> (res: DiskInfo)
        ensures
            res == *self,
    {
        DiskInfo {
            device: self.device.clone(),
            display_device: self.display_device.clone(),
            description: self.description.clone(),
            size: self.size,
            is_removable: self.is_removable,
            is_external: self.is_external,
            is_system: self.is_system,
        }
    }
}

} // verus!
