//! The driver concern on every platform but Windows: nothing to do, but the answers the
//! frontend asks for still exist.
use vstd::prelude::*;
use crate::text::{chars_of, string_of};
use super::{DriverStatus, RPIBOOT_INSTALLER_URL};

verus! {

/// No driver is ever needed here.
pub fn status() -> (res: DriverStatus)
    ensures
        !res.applicable,
        !res.device_present,
        res.driver_ok,
        !res.can_install,
        res.installer_url@ == RPIBOOT_INSTALLER_URL@,
        res.detail@ == "no driver needed on this platform"@,
{
    DriverStatus {
        applicable: false,
        device_present: false,
        driver_ok: true,
        can_install: false,
        installer_url: RPIBOOT_INSTALLER_URL,
        detail: string_of(&chars_of("no driver needed on this platform")),
    }
}

/// There is nothing to install here.
pub fn install() -> (res: Result<(), String>)
    ensures
        res matches Err(e) && e@ == "the WinUSB driver is only needed on Windows"@,
{
    Err(string_of(&chars_of("the WinUSB driver is only needed on Windows")))
}

/// No boot-mode device is ever looked for here.
pub fn device_present() -> (res: bool)
    ensures
        !res,
{
    false
}

} // verus!
