//! The WinUSB driver a CM4 in download mode needs on Windows: whether it is bound, which
//! boot devices still need it, and what to tell the user.
use vstd::prelude::*;
use crate::num::{hex4, parse_u16_hex, parse_unsigned, push_hex4, push_signed_decimal, signed_decimal};
use crate::text::{
    join_path, trim, trim_chars, chars_of, contains, copy_range, extend_str, find,
    first_occurrence, has_infix, join, join_chars, string_of, to_lowercase, to_uppercase,
    lower_case, upper_case, views, ascii_text, ascii_lower, eq_ascii_fold,
    lemma_fold_same_lower, lemma_lower_keeps_infix, lemma_infix_trans, lemma_lowered,
};

pub mod elsewhere;

verus! {

/// Official RPiBoot installer - the fallback when we can't bind the driver ourselves.
pub const RPIBOOT_INSTALLER_URL: &'static str =
    "https://github.com/raspberrypi/usbboot/raw/master/win32/rpiboot_setup.exe";

/// Broadcom, used by every Raspberry Pi SoC in USB boot/download mode.
pub const BROADCOM_VID: u16 = 0x0a5c;

/// BCM2711 - the CM4 inside a Reachy Mini Wireless.
pub const CM4_PID: u16 = 0x2711;

/// What the UI needs to decide whether to nag about the driver.
pub struct DriverStatus {
    /// False everywhere except Windows; the UI hides the whole concern then.
    pub applicable: bool,
    /// A Raspberry Pi boot-mode device is present in the PnP tree.
    pub device_present: bool,
    /// WinUSB (or libusb) is bound to it, so rpiboot can talk to it.
    pub driver_ok: bool,
    /// We have `wdi-simple.exe` and can bind the driver in-app.
    pub can_install: bool,
    /// Where to send the user when `can_install` is false.
    pub installer_url: &'static str,
    /// Diagnostic detail, surfaced in the dev console rather than the UI.
    pub detail: String,
}

impl DriverStatus {
    /// True when the robot is plugged in but unusable until the driver is bound.
    pub fn needs_driver(&self) -> (res: bool)
        ensures
            res == (self.applicable && self.device_present && !self.driver_ok),
    {
        self.applicable && self.device_present && !self.driver_ok
    }
}

/// A Raspberry Pi boot-mode device as `Get-PnpDevice` describes it.
pub struct PnpDevice {
    pub instance_id: String,
    pub status: String,
    pub service: Option<String>,
}

/// The text that follows the first `PID_` of `upper`, up to the next `PID_` (the second
/// item of `split("PID_")`).
pub open spec fn after_pid_marker(upper: Seq<char>) -> Seq<char> {
    let key = "PID_"@;
    let rest = upper.skip(first_occurrence(upper, key) + key.len());
    if has_infix(rest, key) {
        rest.take(first_occurrence(rest, key))
    } else {
        rest
    }
}

/// The USB product id in a PnP instance id: the (at most four) characters after the first
/// `PID_` of the upper-cased id, read as hexadecimal.
pub open spec fn pid_of(instance_id: Seq<char>) -> Option<nat> {
    let upper = upper_case(instance_id);
    if has_infix(upper, "PID_"@) {
        let seg = after_pid_marker(upper);
        parse_unsigned(
            if seg.len() <= 4 {
                seg
            } else {
                seg.take(4)
            },
            16,
            u16::MAX as nat,
        )
    } else {
        None
    }
}

/// USB product id out of a PnP instance id (`USB\VID_0A5C&PID_2711\6&...` -> `0x2711`).
pub fn instance_pid(instance_id: &str) -> (res: Option<u16>)
    ensures
        match res {
            Some(p) => pid_of(instance_id@) == Some(p as nat),
            None => pid_of(instance_id@) is None,
        },
{
    let upper = to_uppercase(instance_id);
    let key = chars_of("PID_");
    proof {
        reveal_strlit("PID_");
    }
    match find(&upper, &key) {
        None => None,
        Some(at) => {
            assert(crate::text::occurs_at(upper@, key@, at as int));
            assert(at + key@.len() <= upper@.len());
            assert(key@.len() == key.len());
            assert(upper@.len() == upper.len());
            let start: usize = at + key.len();
            let rest = copy_range(&upper, start, upper.len());
            assert(rest@ == upper@.skip(first_occurrence(upper@, key@) + key@.len()));
            let seg = match find(&rest, &key) {
                Some(next) => copy_range(&rest, 0, next),
                None => rest,
            };
            let hex = if seg.len() <= 4 {
                seg
            } else {
                copy_range(&seg, 0, 4)
            };
            parse_u16_hex(&hex)
        },
    }
}

/// Whether the bound driver service (`WinUSB`, `libusbK`, `libusb0`, any case) lets
/// user-mode programs such as rpiboot talk to the device.
pub open spec fn bound(service: Option<String>) -> bool {
    let lower = lower_case(
        match service {
            Some(s) => s@,
            None => ""@,
        },
    );
    has_infix(lower, "winusb"@) || has_infix(lower, "libusb"@)
}

/// The drivers rpiboot can work through count as bound: a service name that holds
/// `WinUSB`, `libusbK` or `libusb0` in any mix of case (ASCII text, as Windows service
/// names are) is a bound driver.
pub proof fn lemma_user_mode_drivers_bound(service: String, x: Seq<char>)
    requires
        ascii_text(service@),
        has_infix(service@, x),
        eq_ascii_fold(x, "WinUSB"@) || eq_ascii_fold(x, "libusbK"@) || eq_ascii_fold(x, "libusb0"@),
    ensures
        bound(Some(service)),
{
    reveal_strlit("WinUSB");
    reveal_strlit("libusbK");
    reveal_strlit("libusb0");
    reveal_strlit("winusb");
    reveal_strlit("libusb");
    let h = service@;
    lemma_lower_keeps_infix(h, x);
    let lit = if eq_ascii_fold(x, "WinUSB"@) {
        "WinUSB"@
    } else if eq_ascii_fold(x, "libusbK"@) {
        "libusbK"@
    } else {
        "libusb0"@
    };
    let low = if eq_ascii_fold(x, "WinUSB"@) {
        "winusb"@
    } else if eq_ascii_fold(x, "libusbK"@) {
        seq!['l', 'i', 'b', 'u', 's', 'b', 'k']
    } else {
        seq!['l', 'i', 'b', 'u', 's', 'b', '0']
    };
    let key = if eq_ascii_fold(x, "WinUSB"@) {
        "winusb"@
    } else {
        "libusb"@
    };
    assert(ascii_text(lit));
    assert(('W' as u32) == 0x57 && ('U' as u32) == 0x55 && ('S' as u32) == 0x53);
    assert(('B' as u32) == 0x42 && ('K' as u32) == 0x4b);
    assert(ascii_lower('W') == 'w' && ascii_lower('U') == 'u' && ascii_lower('S') == 's');
    assert(ascii_lower('B') == 'b' && ascii_lower('K') == 'k');
    lemma_lowered(lit, low);
    lemma_fold_same_lower(x, lit);
    assert(key.len() == 6 && low.len() >= 6);
    assert(low.subrange(0, 0int + key.len()) =~= key);
    assert(has_infix(low, key));
    lemma_infix_trans(lower_case(h), lower_case(x), key);
}

/// A device is usable once a user-mode-capable driver is bound to it.
pub fn driver_bound(dev: &PnpDevice) -> (res: bool)
    ensures
        res == bound(dev.service),
{
    let lower = match &dev.service {
        Some(s) => to_lowercase(s.as_str()),
        None => to_lowercase(""),
    };
    contains(&lower, &chars_of("winusb")) || contains(&lower, &chars_of("libusb"))
}


/// Every item of `s` is below the next one.
pub open spec fn strictly_increasing(s: Seq<u16>) -> bool {
    forall|i: int, j: int| 0 <= i < j < s.len() ==> s[i] < s[j]
}

/// `p` is the product id of a listed device that has no usable driver bound.
pub open spec fn driverless_pid(devs: Seq<PnpDevice>, p: u16) -> bool {
    exists|i: int|
        0 <= i < devs.len() && !bound(#[trigger] devs[i].service) && pid_of(devs[i].instance_id@)
            == Some(p as nat)
}

/// The devices a PnP query listed; none when the query failed.
pub open spec fn listed(devices: Result<Vec<PnpDevice>, String>) -> Seq<PnpDevice> {
    match devices {
        Ok(d) => d@,
        Err(_) => seq![],
    }
}

/// Inserts `x` into a strictly increasing vector, keeping it so.
fn insert_sorted(v: &mut Vec<u16>, x: u16)
    requires
        strictly_increasing(old(v)@),
    ensures
        strictly_increasing(final(v)@),
        forall|p: u16| final(v)@.contains(p) <==> (old(v)@.contains(p) || p == x),
{
    let mut i: usize = 0;
    while i < v.len() && v[i] < x
        invariant
            i <= v.len(),
            forall|k: int| 0 <= k < i ==> v@[k] < x,
        decreases v.len() - i,
    {
        i = i + 1;
    }
    if i < v.len() && v[i] == x {
        return;
    }
    let ghost before = v@;
    v.insert(i, x);
    proof {
        before.insert_ensures(i as int, x);
        let after = v@;
        assert forall|a: int, b: int| 0 <= a < b < after.len() implies after[a] < after[b] by {
            if b < i {
            } else if b == i {
            } else if a < i {
                assert(after[b] == before[b - 1]);
                assert(before[b - 1] > x || before[b - 1] == x);
                if i < before.len() {
                    assert(before[i as int] > x);
                    assert(before[i as int] <= before[b - 1]);
                }
            } else if a == i {
                assert(after[b] == before[b - 1]);
                assert(before[i as int] > x);
                if b - 1 > i {
                    assert(before[i as int] < before[b - 1]);
                }
            } else {
                assert(after[a] == before[a - 1]);
                assert(after[b] == before[b - 1]);
            }
        }
        assert forall|p: u16| after.contains(p) <==> (before.contains(p) || p == x) by {
            if after.contains(p) {
                let k = choose|k: int| 0 <= k < after.len() && after[k] == p;
                if k < i {
                    assert(before[k] == p);
                } else if k > i {
                    assert(before[k - 1] == p);
                }
            }
            if before.contains(p) {
                let k = choose|k: int| 0 <= k < before.len() && before[k] == p;
                if k < i {
                    assert(after[k] == p);
                } else {
                    assert(after[k + 1] == p);
                }
            }
            if p == x {
                assert(after[i as int] == x);
            }
        }
    }
}

/// Product ids of the boot devices that are present but still driverless, ascending and
/// without repeats; when there is none (a failed query, or a device that went away), the
/// CM4's id alone.
pub fn pids_needing_driver(devices: &Result<Vec<PnpDevice>, String>) -> (res: Vec<u16>)
    ensures
        (exists|p: u16| driverless_pid(listed(*devices), p)) ==> strictly_increasing(res@) && (
        forall|p: u16| res@.contains(p) <==> driverless_pid(listed(*devices), p)),
        !(exists|p: u16| driverless_pid(listed(*devices), p)) ==> res@ == seq![CM4_PID],
{
    let mut pids: Vec<u16> = Vec::new();
    match devices {
        Ok(devs) => {
            let mut i: usize = 0;
            while i < devs.len()
                invariant
                    i <= devs.len(),
                    listed(*devices) == devs@,
                    strictly_increasing(pids@),
                    forall|p: u16|
                        pids@.contains(p) <==> driverless_pid(devs@.take(i as int), p),
                decreases devs.len() - i,
            {
                let ghost pre = devs@.take(i as int);
                let ghost now = devs@.take(i + 1);
                assert forall|p: u16| driverless_pid(now, p) <==> (driverless_pid(pre, p) || (
                !bound(devs@[i as int].service) && pid_of(devs@[i as int].instance_id@) == Some(
                    p as nat,
                ))) by {
                    if driverless_pid(now, p) {
                        let k = choose|k: int|
                            0 <= k < now.len() && !bound(#[trigger] now[k].service) && pid_of(
                                now[k].instance_id@,
                            ) == Some(p as nat);
                        if k < i {
                            assert(pre[k] == now[k]);
                        }
                    }
                    if driverless_pid(pre, p) {
                        let k = choose|k: int|
                            0 <= k < pre.len() && !bound(#[trigger] pre[k].service) && pid_of(
                                pre[k].instance_id@,
                            ) == Some(p as nat);
                        assert(now[k] == pre[k]);
                    }
                    if !bound(devs@[i as int].service) && pid_of(devs@[i as int].instance_id@)
                        == Some(p as nat) {
                        assert(now[i as int] == devs@[i as int]);
                    }
                }
                if !driver_bound(&devs[i]) {
                    match instance_pid(devs[i].instance_id.as_str()) {
                        Some(p) => {
                            insert_sorted(&mut pids, p);
                        },
                        None => {},
                    }
                }
                i = i + 1;
            }
            assert(devs@.take(devs.len() as int) == devs@);
        },
        Err(_) => {},
    }
    if pids.len() == 0 {
        assert forall|p: u16| !driverless_pid(listed(*devices), p) by {
            assert(!pids@.contains(p));
        }
        pids.push(CM4_PID);
        assert(pids@ =~= seq![CM4_PID]);
    } else {
        assert(pids@.contains(pids@[0]));
    }
    pids
}


/// Whether a boot-mode device is present, from the PnP query's answer (none when it failed).
pub fn device_present(devices: &Result<Vec<PnpDevice>, String>) -> (res: bool)
    ensures
        res == (listed(*devices).len() > 0),
{
    match devices {
        Ok(d) => d.len() > 0,
        Err(_) => false,
    }
}

/// How one device is described in [`DriverStatus::detail`].
pub open spec fn device_line(d: PnpDevice) -> Seq<char> {
    d.instance_id@ + " [status="@ + d.status@ + ", service="@ + match d.service {
        Some(s) => s@,
        None => "-"@,
    } + "]"@
}

/// The status detail for a non-empty device list: each device described, `"; "` between.
pub open spec fn devices_detail(devs: Seq<PnpDevice>) -> Seq<char> {
    join(devs.map_values(|d: PnpDevice| device_line(d)), "; "@)
}

/// Some listed device has a usable driver bound.
pub open spec fn any_bound(devs: Seq<PnpDevice>) -> bool {
    exists|i: int| 0 <= i < devs.len() && bound(#[trigger] devs[i].service)
}

fn describe(d: &PnpDevice) -> (res: Vec<char>)
    ensures
        res@ == device_line(*d),
{
    let mut out: Vec<char> = Vec::new();
    extend_str(&mut out, d.instance_id.as_str());
    extend_str(&mut out, " [status=");
    extend_str(&mut out, d.status.as_str());
    extend_str(&mut out, ", service=");
    match &d.service {
        Some(s) => extend_str(&mut out, s.as_str()),
        None => extend_str(&mut out, "-"),
    }
    extend_str(&mut out, "]");
    assert(out@ =~= device_line(*d));
    out
}

/// The driver status on Windows, from the PnP query's answer and whether `wdi-simple.exe`
/// was found. A failed query reports nothing present, with the error as the detail.
pub fn status(devices: &Result<Vec<PnpDevice>, String>, can_install: bool) -> (res: DriverStatus)
    ensures
        res.applicable,
        res.can_install == can_install,
        res.installer_url@ == RPIBOOT_INSTALLER_URL@,
        match *devices {
            Ok(d) => if d@.len() == 0 {
                !res.device_present && !res.driver_ok && res.detail@
                    == "no Raspberry Pi boot device present"@
            } else {
                res.device_present && res.driver_ok == any_bound(d@) && res.detail@
                    == devices_detail(d@)
            },
            Err(e) => !res.device_present && !res.driver_ok && res.detail@ == e@,
        },
{
    let (present, ok, detail) = match devices {
        Ok(devs) => {
            if devs.len() == 0 {
                (false, false, string_of(&chars_of("no Raspberry Pi boot device present")))
            } else {
                let mut any = false;
                let mut parts: Vec<Vec<char>> = Vec::new();
                let mut i: usize = 0;
                while i < devs.len()
                    invariant
                        i <= devs.len(),
                        any == exists|k: int| 0 <= k < i && bound(#[trigger] devs@[k].service),
                        views(parts@) == devs@.take(i as int).map_values(
                            |d: PnpDevice| device_line(d),
                        ),
                    decreases devs.len() - i,
                {
                    if driver_bound(&devs[i]) {
                        any = true;
                    }
                    let ghost before = views(parts@);
                    let line = describe(&devs[i]);
                    parts.push(line);
                    assert(views(parts@) =~= before.push(device_line(devs@[i as int])));
                    assert(devs@.take(i + 1).map_values(|d: PnpDevice| device_line(d)) =~= devs@.take(
                        i as int,
                    ).map_values(|d: PnpDevice| device_line(d)).push(device_line(devs@[i as int])));
                    i = i + 1;
                }
                assert(devs@.take(devs.len() as int) == devs@);
                let joined = join_chars(&parts, &chars_of("; "));
                (true, any, string_of(&joined))
            }
        },
        Err(e) => (false, false, e.clone()),
    };
    DriverStatus {
        applicable: true,
        device_present: present,
        driver_ok: ok,
        can_install,
        installer_url: RPIBOOT_INSTALLER_URL,
        detail,
    }
}

/// What the user is told when the flash cannot proceed until the driver is bound.
pub const DRIVER_MISSING: &'static str = "The USB driver for the robot's board isn't installed yet, so Windows won't let the app talk to it.";

/// Reason the flash can't proceed yet because of the driver, if any.
pub fn blocking_reason(status: &DriverStatus) -> (res: Option<String>)
    ensures
        match res {
            Some(r) => status.applicable && status.device_present && !status.driver_ok && r@
                == DRIVER_MISSING@,
            None => !(status.applicable && status.device_present && !status.driver_ok),
        },
{
    if !status.needs_driver() {
        return None;
    }
    Some(string_of(&chars_of(DRIVER_MISSING)))
}

/// Name the driver is registered under. Matches the RPiBoot installer's, so installing
/// either one satisfies the other.
pub const DRIVER_NAME: &'static str = "Raspberry Pi USB boot";

/// The `wdi-simple.exe` arguments that bind the driver to product `pid`, extracting the
/// driver package into `workdir`.
pub open spec fn wdi_arguments(pid: u16, workdir: Seq<char>) -> Seq<char> {
    "-n \""@ + DRIVER_NAME@ + "\" -v 0x"@ + hex4(BROADCOM_VID) + " -p 0x"@ + hex4(pid)
        + " -t 0 -d \""@ + crate::win_ps::simplified(workdir) + "\""@
}

/// Builds the `wdi-simple.exe` command line for product `pid`.
pub fn wdi_args(pid: u16, workdir: &str) -> (res: String)
    ensures
        res@ == wdi_arguments(pid, workdir@),
{
    let mut out: Vec<char> = Vec::new();
    extend_str(&mut out, "-n \"");
    extend_str(&mut out, DRIVER_NAME);
    extend_str(&mut out, "\" -v 0x");
    push_hex4(&mut out, BROADCOM_VID);
    extend_str(&mut out, " -p 0x");
    push_hex4(&mut out, pid);
    extend_str(&mut out, " -t 0 -d \"");
    extend_str(&mut out, crate::win_ps::simplify(workdir).as_str());
    extend_str(&mut out, "\"");
    assert(out@ =~= wdi_arguments(pid, workdir@));
    string_of(&out)
}

/// The error for a failed driver install of product `pid`: what the installer last said
/// (or that it gave no reason) and its exit code.
pub open spec fn install_failure_message(pid: u16, code: i32, output: Seq<char>) -> Seq<char> {
    let said = crate::win_ps::tail_of(output, 4);
    "The USB driver could not be installed for USB device 0x"@ + hex4(pid) + ": "@ + (if said.len()
        == 0 {
        "it gave no reason"@
    } else {
        said
    }) + " (installer error "@ + signed_decimal(code as int)
        + "). Installing Raspberry Pi's RPiBoot from "@ + RPIBOOT_INSTALLER_URL@
        + " does the same job and is a reliable fallback."@
}

/// Describes a failed driver install for product `pid`.
pub fn install_failure(pid: u16, code: i32, output: &str) -> (res: String)
    ensures
        res@ == install_failure_message(pid, code, output@),
{
    let said = crate::win_ps::output_tail(output, 4);
    let mut out: Vec<char> = Vec::new();
    extend_str(&mut out, "The USB driver could not be installed for USB device 0x");
    push_hex4(&mut out, pid);
    extend_str(&mut out, ": ");
    if said.as_str().is_empty() {
        extend_str(&mut out, "it gave no reason");
    } else {
        extend_str(&mut out, said.as_str());
    }
    extend_str(&mut out, " (installer error ");
    push_signed_decimal(&mut out, code);
    extend_str(&mut out, "). Installing Raspberry Pi's RPiBoot from ");
    extend_str(&mut out, RPIBOOT_INSTALLER_URL);
    extend_str(&mut out, " does the same job and is a reliable fallback.");
    assert(out@ =~= install_failure_message(pid, code, output@));
    string_of(&out)
}

/// The error when `wdi-simple.exe` could not be found.
pub open spec fn helper_missing_message() -> Seq<char> {
    "The driver installer helper (wdi-simple.exe) isn't bundled with this build. Install Raspberry Pi's RPiBoot from "@
        + RPIBOOT_INSTALLER_URL@ + " instead, then come back."@
}

/// Describes the missing `wdi-simple.exe`.
pub fn helper_missing() -> (res: String)
    ensures
        res@ == helper_missing_message(),
{
    let mut out: Vec<char> = Vec::new();
    extend_str(
        &mut out,
        "The driver installer helper (wdi-simple.exe) isn't bundled with this build. Install Raspberry Pi's RPiBoot from ",
    );
    extend_str(&mut out, RPIBOOT_INSTALLER_URL);
    extend_str(&mut out, " instead, then come back.");
    string_of(&out)
}

/// The outcome of one `wdi-simple.exe` run within an install: with exit code 0 the install
/// is done; otherwise its failure is recorded and the next product id is tried.
pub enum InstallStep {
    Done,
    Failed(String),
}

/// Decides what one `wdi-simple.exe` run for product `pid` means for the install.
pub fn install_step(pid: u16, code: i32, output: &str) -> (res: InstallStep)
    ensures
        code == 0 ==> res is Done,
        code != 0 ==> (res matches InstallStep::Failed(m) && m@ == install_failure_message(
            pid,
            code,
            output@,
        )),
{
    if code == 0 {
        InstallStep::Done
    } else {
        InstallStep::Failed(install_failure(pid, code, output))
    }
}

/// How a driver install over several boot devices stands: a device bound its driver, or
/// none yet, with the message of the last failure if there was one.
pub enum InstallState {
    Pending(Option<String>),
    Installed,
}

/// Takes in the `wdi-simple.exe` run for product `pid`. The install stops at the first
/// device that binds (one bound device is all `driver_ok` needs); a failure is remembered,
/// and the next device is tried.
pub fn install_next(state: InstallState, pid: u16, code: i32, output: &str) -> (res: InstallState)
    requires
        state is Pending,
    ensures
        code == 0 ==> res is Installed,
        code != 0 ==> (res matches InstallState::Pending(Some(m)) && m@ == install_failure_message(
            pid,
            code,
            output@,
        )),
{
    match install_step(pid, code, output) {
        InstallStep::Done => InstallState::Installed,
        InstallStep::Failed(m) => InstallState::Pending(Some(m)),
    }
}

/// What the install reports once every device was tried or one bound: success, or the
/// last failure.
pub fn install_result(state: InstallState) -> (res: Result<(), String>)
    ensures
        match state {
            InstallState::Installed => res is Ok,
            InstallState::Pending(None) => res is Ok,
            InstallState::Pending(Some(m)) => res == Err::<(), String>(m),
        },
{
    match state {
        InstallState::Installed => Ok(()),
        InstallState::Pending(None) => Ok(()),
        InstallState::Pending(Some(m)) => Err(m),
    }
}

/// `c` is `name` joined onto `base` (see `Path::join`): `base`, at most one separator,
/// then `name`. Nothing is said when `base` is a verbatim path that normalization would
/// change, or is verbatim and `name` is `.` or `..`.
pub open spec fn joined_onto(base: Seq<char>, name: Seq<char>, c: Seq<char>) -> bool {
    (!crate::text::verbatim(base) || (crate::text::verbatim_clean(base) && !crate::text::dot_name(
        name,
    ))) ==> (c == base + name || c == base + seq!['/'] + name || c == base + seq!['\\'] + name)
}

/// Where the RPiBoot installer may have put itself: the directory recorded in the
/// registry (when the lookup succeeded), then `Raspberry Pi` under each Program Files
/// directory that is set.
pub fn install_dir_candidates(registry: &Result<String, String>, program_files: &Vec<String>) -> (res: Vec<String>)
    ensures
        res@.len() == program_files@.len() + (if registry is Ok {
            1int
        } else {
            0int
        }),
        registry matches Ok(out) ==> res@[0]@ == trim(out@),
        forall|k: int|
            0 <= k < program_files@.len() ==> joined_onto(
                #[trigger] program_files@[k]@,
                "Raspberry Pi"@,
                res@[k + (if registry is Ok {
                    1int
                } else {
                    0int
                })]@,
            ),
{
    let mut out: Vec<String> = Vec::new();
    match registry {
        Ok(text) => {
            out.push(string_of(&trim_chars(&chars_of(text.as_str()))));
        },
        Err(_) => {},
    }
    let off: usize = out.len();
    proof {
        reveal_strlit("Raspberry Pi");
    }
    let mut i: usize = 0;
    while i < program_files.len()
        invariant
            i <= program_files.len(),
            off as int == (if registry is Ok {
                1int
            } else {
                0int
            }),
            out@.len() == off + i,
            registry matches Ok(o) ==> out@[0]@ == trim(o@),
            forall|k: int|
                0 <= k < i ==> joined_onto(
                    #[trigger] program_files@[k]@,
                    "Raspberry Pi"@,
                    out@[k + off]@,
                ),
        decreases program_files.len() - i,
    {
        proof {
            reveal_strlit("Raspberry Pi");
        }
        out.push(join_path(program_files[i].as_str(), "Raspberry Pi"));
        i = i + 1;
    }
    out
}

/// The first candidate whose test came out true (`exists[k]` for `candidates[k]`).
pub fn first_existing(candidates: &Vec<String>, exists: &Vec<bool>) -> (res: Option<String>)
    requires
        candidates@.len() == exists@.len(),
    ensures
        match res {
            Some(d) => exists|k: int|
                0 <= k < exists@.len() && exists@[k] && candidates@[k]@ == d@ && forall|j: int|
                    0 <= j < k ==> !exists@[j],
            None => forall|j: int| 0 <= j < exists@.len() ==> !exists@[j],
        },
{
    let mut i: usize = 0;
    while i < candidates.len()
        invariant
            i <= candidates.len(),
            candidates@.len() == exists@.len(),
            forall|j: int| 0 <= j < i ==> !exists@[j],
        decreases candidates.len() - i,
    {
        if exists[i] {
            return Some(candidates[i].clone());
        }
        i = i + 1;
    }
    None
}

/// The RPiBoot installation directory: the first of [`install_dir_candidates`] that is a
/// directory (`is_dir[k]` for `candidates[k]`).
pub fn rpiboot_install_dir(candidates: &Vec<String>, is_dir: &Vec<bool>) -> (res: Option<String>)
    requires
        candidates@.len() == is_dir@.len(),
    ensures
        match res {
            Some(d) => exists|k: int|
                0 <= k < is_dir@.len() && is_dir@[k] && candidates@[k]@ == d@ && forall|j: int|
                    0 <= j < k ==> !is_dir@[j],
            None => forall|j: int| 0 <= j < is_dir@.len() ==> !is_dir@[j],
        },
{
    first_existing(candidates, is_dir)
}

/// How long a PowerShell lookup is reused, in nanoseconds.
pub const CACHE_TTL_NANOS: u128 = 5_000_000_000;

/// Whether a lookup made `elapsed_nanos` ago may still be reused.
pub fn cache_fresh(elapsed_nanos: u128) -> (res: bool)
    ensures
        res == (elapsed_nanos < CACHE_TTL_NANOS),
{
    elapsed_nanos < CACHE_TTL_NANOS
}

/// What is wrong with a `Get-PnpDevice` row, checked field by field in declaration order:
/// `None` when it reads as a [`PnpDevice`].
pub open spec fn pnp_row_error(v: crate::json::Json) -> Option<Seq<char>> {
    if !(v is Object) {
        Some(crate::json::not_an_object())
    } else {
        match crate::json::string_field(v, "InstanceId"@) {
            Err(e) => Some(e),
            Ok(_) => match crate::json::string_field(v, "Status"@) {
                Err(e) => Some(e),
                Ok(_) => match crate::json::optional_string_field(v, "Service"@) {
                    Err(e) => Some(e),
                    Ok(_) => None,
                },
            },
        }
    }
}

/// `d` holds the fields of the `Get-PnpDevice` row `v`.
pub open spec fn pnp_row_reads_as(v: crate::json::Json, d: PnpDevice) -> bool {
    &&& crate::json::string_field(v, "InstanceId"@) == Ok::<Seq<char>, Seq<char>>(d.instance_id@)
    &&& crate::json::string_field(v, "Status"@) == Ok::<Seq<char>, Seq<char>>(d.status@)
    &&& crate::json::optional_string_field(v, "Service"@) == Ok::<Option<Seq<char>>, Seq<char>>(
        match d.service {
            Some(n) => Some(n@),
            None => None,
        },
    )
}

/// Reads one `Get-PnpDevice` row.
pub fn pnp_device(v: &crate::json::Json) -> (res: Result<PnpDevice, String>)
    ensures
        match res {
            Ok(d) => pnp_row_error(*v) is None && pnp_row_reads_as(*v, d),
            Err(e) => pnp_row_error(*v) == Some(e@),
        },
{
    match v {
        crate::json::Json::Object(_) => {},
        _ => return Err(string_of(&chars_of("invalid type: expected an object"))),
    }
    let instance_id = match crate::json::string_member(v, "InstanceId") {
        Ok(s) => s,
        Err(e) => return Err(e),
    };
    let status = match crate::json::string_member(v, "Status") {
        Ok(s) => s,
        Err(e) => return Err(e),
    };
    let service = match crate::json::optional_string_member(v, "Service") {
        Ok(s) => s,
        Err(e) => return Err(e),
    };
    Ok(PnpDevice { instance_id, status, service })
}

/// Reads the rows of `Get-PnpDevice`'s JSON report; the first row that does not read stops
/// it, with `what` naming the report.
pub fn pnp_devices(items: &Vec<crate::json::Json>, what: &str) -> (res: Result<Vec<PnpDevice>, String>)
    ensures
        match res {
            Ok(devs) => devs@.len() == items@.len() && forall|k: int|
                0 <= k < items@.len() ==> pnp_row_error(#[trigger] items@[k]) is None
                    && pnp_row_reads_as(items@[k], devs@[k]),
            Err(e) => exists|k: int|
                0 <= k < items@.len() && (forall|j: int|
                    0 <= j < k ==> pnp_row_error(#[trigger] items@[j]) is None) && (pnp_row_error(
                    #[trigger] items@[k],
                ) matches Some(m) && e@ == "unexpected "@ + what@ + " JSON: "@ + m),
        },
{
    let mut devs: Vec<PnpDevice> = Vec::new();
    let mut i: usize = 0;
    while i < items.len()
        invariant
            i <= items.len(),
            devs@.len() == i,
            forall|k: int|
                0 <= k < i ==> pnp_row_error(#[trigger] items@[k]) is None && pnp_row_reads_as(
                    items@[k],
                    devs@[k],
                ),
        decreases items.len() - i,
    {
        match pnp_device(&items[i]) {
            Ok(d) => devs.push(d),
            Err(m) => {
                let mut msg: Vec<char> = Vec::new();
                extend_str(&mut msg, "unexpected ");
                extend_str(&mut msg, what);
                extend_str(&mut msg, " JSON: ");
                extend_str(&mut msg, m.as_str());
                assert(pnp_row_error(items@[i as int]) == Some(m@));
                return Err(string_of(&msg));
            },
        }
        i = i + 1;
    }
    Ok(devs)
}

/// Where `wdi-simple.exe` is looked for, in order: `REACHY_WDI_SIMPLE_BIN` (as it is), then
/// `rpiboot/wdi-simple.exe` under the bundled resources, then `redist/wdi-simple.exe` in the
/// RPiBoot installation; each has to be a file.
pub fn wdi_candidates(env_override: &Option<String>, resources: &Option<String>, install: &Option<String>) -> (res: Vec<String>)
    ensures
        res@.len() == crate::rpiboot::count(*env_override) + crate::rpiboot::count(*resources)
            + crate::rpiboot::count(*install),
        env_override matches Some(e) ==> res@[0]@ == e@,
        resources matches Some(r) ==> crate::rpiboot::in_resources(
            r@,
            "wdi-simple.exe"@,
            res@[crate::rpiboot::count(*env_override)]@,
        ),
        install matches Some(i) ==> exists|mid: Seq<char>|
            joined_onto(i@, "redist"@, mid) && #[trigger] joined_onto(
                mid,
                "wdi-simple.exe"@,
                res@[crate::rpiboot::count(*env_override) + crate::rpiboot::count(*resources)]@,
            ),
{
    let mut out: Vec<String> = Vec::new();
    match env_override {
        Some(e) => out.push(string_of(&chars_of(e.as_str()))),
        None => {},
    }
    proof {
        reveal_strlit("rpiboot");
        reveal_strlit("redist");
        reveal_strlit("wdi-simple.exe");
    }
    match resources {
        Some(r) => {
            let mid = crate::text::join_path(r.as_str(), "rpiboot");
            let p = crate::text::join_path(mid.as_str(), "wdi-simple.exe");
            assert(joined_onto(r@, "rpiboot"@, mid@) && joined_onto(mid@, "wdi-simple.exe"@, p@));
            out.push(p);
        },
        None => {},
    }
    match install {
        Some(i) => {
            let mid = crate::text::join_path(i.as_str(), "redist");
            let p = crate::text::join_path(mid.as_str(), "wdi-simple.exe");
            let k = out.len();
            assert(joined_onto(i@, "redist"@, mid@) && joined_onto(mid@, "wdi-simple.exe"@, p@));
            out.push(p);
            assert(k == crate::rpiboot::count(*env_override) + crate::rpiboot::count(*resources));
            assert(joined_onto(mid@, "wdi-simple.exe"@, out@[k as int]@));
            assert(exists|m: Seq<char>|
                joined_onto(i@, "redist"@, m) && #[trigger] joined_onto(
                    m,
                    "wdi-simple.exe"@,
                    out@[crate::rpiboot::count(*env_override) + crate::rpiboot::count(*resources)]@,
                ));
        },
        None => {},
    }
    out
}

} // verus!
