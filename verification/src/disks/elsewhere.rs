//! Disk enumeration on platforms other than macOS and Windows.
use vstd::prelude::*;
use super::DiskInfo;
use crate::text::{chars_of, string_of};

verus! {

/// Disk enumeration is not available here.
pub fn list() -> (res: Result<Vec<DiskInfo>, String>)
    ensures
        res matches Err(e) && e@ == "disk enumeration is only implemented for macOS and Windows"@,
{
    Err(string_of(&chars_of("disk enumeration is only implemented for macOS and Windows")))
}

} // verus!
