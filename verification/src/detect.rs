//! Recognizing a Reachy Mini connected over USB: as the mass-storage disk its CM4 eMMC
//! becomes once exposed, in USB download mode, or simulated.
use vstd::prelude::*;
use crate::disks::DiskInfo;
use crate::num::parse_u64;
use crate::text::{chars_of, contains, has_infix, string_of, to_lowercase, lower_case};

verus! {

/// Broadcom vendor id, used by the BCM2711 while in USB boot/download mode.
pub const BROADCOM_VID: u16 = 0x0a5c;

/// How long simulation mode waits before it reports the robot as plugged in, in seconds,
/// unless `REACHY_FLASHER_SIM_DELAY` says otherwise.
pub const SIM_DEFAULT_DELAY_SECS: u64 = 4;

/// A connected Reachy Mini, as the frontend shows it.
pub struct ReachyDevice {
    /// Raw device path to flash. Empty when not yet flashable (download mode).
    pub device: String,
    pub display_device: String,
    pub description: String,
    pub size: u64,
    /// "ready" | "download" | "simulated"
    pub mode: String,
}

/// A disk description that names a Raspberry Pi mass-storage gadget, in any case.
pub open spec fn reachy_disk(description: Seq<char>) -> bool {
    let d = lower_case(description);
    ||| has_infix(d, "rpi-msd"@)
    ||| has_infix(d, "compute module"@)
    ||| has_infix(d, "file-stor"@)
    ||| has_infix(d, "raspberry"@)
    ||| has_infix(d, "rpi msd"@)
    ||| has_infix(d, "mmcblk"@)
}

/// The media names the mass-storage gadgets report are recognized in any case, wherever
/// they stand in an ASCII description: `RPi-MSD`, `Compute Module`, `File-Stor`,
/// `Raspberry`, `RPi MSD` and `mmcblk` (the CM4 eMMC that rpiboot exposes).
pub proof fn lemma_gadget_media_match(description: Seq<char>, x: Seq<char>, word: Seq<char>)
    requires
        crate::text::ascii_text(description),
        has_infix(description, x),
        crate::text::eq_ascii_fold(x, word),
        word == "rpi-msd"@ || word == "compute module"@ || word == "file-stor"@ || word
            == "raspberry"@ || word == "rpi msd"@ || word == "mmcblk"@,
    ensures
        reachy_disk(description),
{
    reveal_strlit("rpi-msd");
    reveal_strlit("compute module");
    reveal_strlit("file-stor");
    reveal_strlit("raspberry");
    reveal_strlit("rpi msd");
    reveal_strlit("mmcblk");
    assert(crate::text::ascii_text(word));
    assert(forall|i: int| 0 <= i < word.len() ==> !(0x41 <= #[trigger] (word[i] as u32) <= 0x5a));
    crate::text::lemma_word_any_case(description, x, word);
}

/// A disk whose description matches a Raspberry Pi mass-storage gadget.
pub fn looks_like_reachy_disk(description: &str) -> (res: bool)
    ensures
        res == reachy_disk(description@),
{
    let d = to_lowercase(description);
    contains(&d, &chars_of("rpi-msd")) || contains(&d, &chars_of("compute module")) || contains(
        &d,
        &chars_of("file-stor"),
    ) || contains(&d, &chars_of("raspberry")) || contains(&d, &chars_of("rpi msd")) || contains(
        &d,
        &chars_of("mmcblk"),
    )
}

/// Whether a USB enumeration saw a Broadcom device; a failed enumeration sees none.
#[verifier::loop_isolation(false)]
pub fn in_download_mode(vendor_ids: &Result<Vec<u16>, String>) -> (res: bool)
    ensures
        res == (vendor_ids matches Ok(ids) && ids@.contains(BROADCOM_VID)),
{
    match vendor_ids {
        Ok(ids) => {
            let mut i: usize = 0;
            while i < ids.len()
                invariant
                    i <= ids.len(),
                    forall|k: int| 0 <= k < i ==> ids@[k] != BROADCOM_VID,
                decreases ids.len() - i,
            {
                if ids[i] == BROADCOM_VID {
                    assert(ids@[i as int] == BROADCOM_VID);
                    assert(ids@.contains(BROADCOM_VID));
                    return true;
                }
                i = i + 1;
            }
            false
        },
        Err(_) => false,
    }
}

/// The simulation delay: `REACHY_FLASHER_SIM_DELAY` read as a `u64`, else the default.
pub open spec fn sim_delay(var: Option<String>) -> nat {
    match var {
        Some(v) => match crate::num::parse_unsigned(v@, 10, u64::MAX as nat) {
            Some(d) => d,
            None => SIM_DEFAULT_DELAY_SECS as nat,
        },
        None => SIM_DEFAULT_DELAY_SECS as nat,
    }
}

/// In simulation mode the robot counts as plugged in once the configured delay has passed
/// since the first detection. `delay_var` is `REACHY_FLASHER_SIM_DELAY`, when set.
pub fn sim_connected(delay_var: &Option<String>, elapsed_secs: u64) -> (res: bool)
    ensures
        res == (elapsed_secs >= sim_delay(*delay_var)),
{
    let delay: u64 = match delay_var {
        Some(v) => match parse_u64(&chars_of(v.as_str())) {
            Some(d) => d,
            None => SIM_DEFAULT_DELAY_SECS,
        },
        None => SIM_DEFAULT_DELAY_SECS,
    };
    elapsed_secs >= delay
}

/// The device reported in simulation mode, flashing to `target`.
pub open spec fn simulated(d: ReachyDevice, target: Seq<char>) -> bool {
    &&& d.device@ == target
    &&& d.display_device@ == "Simulated Reachy Mini"@
    &&& d.description@ == "Simulated Reachy Mini (CM4)"@
    &&& d.size == 64 * 1024 * 1024
    &&& d.mode@ == "simulated"@
}

/// The device reported for a flashable disk.
pub open spec fn ready(d: ReachyDevice, disk: DiskInfo) -> bool {
    &&& d.device == disk.device
    &&& d.display_device == disk.display_device
    &&& d.description == disk.description
    &&& d.size == disk.size
    &&& d.mode@ == "ready"@
}

/// The device reported while the CM4 is in download mode.
pub open spec fn downloading(d: ReachyDevice) -> bool {
    &&& d.device@.len() == 0
    &&& d.display_device@ == "Reachy Mini (CM4)"@
    &&& d.description@ == "Reachy Mini in download mode"@
    &&& d.size == 0
    &&& d.mode@ == "download"@
}

/// The simulated device.
pub fn sim_device(target: String) -> (res: ReachyDevice)
    ensures
        simulated(res, target@),
{
    ReachyDevice {
        device: target,
        display_device: string_of(&chars_of("Simulated Reachy Mini")),
        description: string_of(&chars_of("Simulated Reachy Mini (CM4)")),
        size: 64 * 1024 * 1024,
        mode: string_of(&chars_of("simulated")),
    }
}

/// The Reachy among the listed disks: the first whose description matches.
#[verifier::loop_isolation(false)]
pub fn ready_device(disks: Result<Vec<DiskInfo>, String>) -> (res: Option<ReachyDevice>)
    ensures
        match disks {
            Ok(list) => match res {
                Some(d) => exists|k: int|
                    0 <= k < list@.len() && reachy_disk(list@[k].description@) && ready(
                        d,
                        list@[k],
                    ) && forall|j: int| 0 <= j < k ==> !reachy_disk(#[trigger] list@[j].description@),
                None => forall|j: int| 0 <= j < list@.len() ==> !reachy_disk(#[trigger] list@[j].description@),
            },
            Err(_) => res is None,
        },
{
    match disks {
        Ok(list) => {
            let mut i: usize = 0;
            while i < list.len()
                invariant
                    i <= list.len(),
                    forall|j: int| 0 <= j < i ==> !reachy_disk(#[trigger] list@[j].description@),
                decreases list.len() - i,
            {
                if looks_like_reachy_disk(list[i].description.as_str()) {
                    let disk = &list[i];
                    let d = ReachyDevice {
                        device: disk.device.clone(),
                        display_device: disk.display_device.clone(),
                        description: disk.description.clone(),
                        size: disk.size,
                        mode: string_of(&chars_of("ready")),
                    };
                    assert(ready(d, list@[i as int]));
                    return Some(d);
                }
                i = i + 1;
            }
            None
        },
        Err(_) => None,
    }
}

/// The device reported while the CM4 waits in download mode.
pub fn download_device() -> (res: ReachyDevice)
    ensures
        downloading(res),
{
    ReachyDevice {
        device: String::new(),
        display_device: string_of(&chars_of("Reachy Mini (CM4)")),
        description: string_of(&chars_of("Reachy Mini in download mode")),
        size: 0,
        mode: string_of(&chars_of("download")),
    }
}

/// What simulation mode knows when detection runs: whether the robot counts as plugged in
/// yet, and the path that stands for its disk.
pub struct SimState {
    pub connected: bool,
    pub target: String,
}

/// Returns the currently connected Reachy, if any: in simulation mode the simulated one
/// once connected; otherwise the first disk that looks like one (a failed listing finds
/// none); otherwise the robot in download mode when a Broadcom device is on the bus.
pub fn detect_reachy(
    sim: Option<SimState>,
    disks: Result<Vec<DiskInfo>, String>,
    download_mode: bool,
) -> (res: Option<ReachyDevice>)
    ensures
        match sim {
            Some(s) => if s.connected {
                res matches Some(d) && simulated(d, s.target@)
            } else {
                res is None
            },
            None => match disks {
                Ok(list) => if exists|k: int|
                    0 <= k < list@.len() && reachy_disk(#[trigger] list@[k].description@) {
                    res matches Some(d) && exists|k: int|
                        0 <= k < list@.len() && reachy_disk(list@[k].description@) && ready(
                            d,
                            list@[k],
                        ) && forall|j: int|
                            0 <= j < k ==> !reachy_disk(#[trigger] list@[j].description@)
                } else if download_mode {
                    res matches Some(d) && downloading(d)
                } else {
                    res is None
                },
                Err(_) => if download_mode {
                    res matches Some(d) && downloading(d)
                } else {
                    res is None
                },
            },
        },
{
    match sim {
        Some(s) => {
            if s.connected {
                Some(sim_device(s.target))
            } else {
                None
            }
        },
        None => {
            match ready_device(disks) {
                Some(d) => Some(d),
                None => {
                    if download_mode {
                        Some(download_device())
                    } else {
                        None
                    }
                },
            }
        },
    }
}

} // verus!
