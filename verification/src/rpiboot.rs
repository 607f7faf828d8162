//! Driving `rpiboot` (raspberrypi/usbboot) to expose the CM4 eMMC of a Reachy Mini in
//! download mode: where its binary and boot files are looked for, whether a run is needed,
//! how the elevated run is spelled on each platform and what its outcome means.
use vstd::prelude::*;
use crate::detect::ReachyDevice;
use crate::text::{
    chars_of, extend_chars, extend_str, from_utf8_lossy, has_infix, join_path, string_of,
    str_eq, trim, trim_chars, utf8_lossy, contains, determined, dot_name, is_sep,
    plain_component, lemma_join_keeps_determined,
};
use crate::win_driver::joined_onto;

verus! {

/// Name of the directory holding the mass-storage boot files.
pub const GADGET_DIR: &'static str = "mass-storage-gadget64";

/// The rpiboot executable's file name.
pub open spec fn bin_file(windows: bool) -> Seq<char> {
    if windows {
        "rpiboot.exe"@
    } else {
        "rpiboot"@
    }
}

/// The rpiboot executable's file name on the platform (`.exe` on Windows).
pub fn bin_name(windows: bool) -> (res: &'static str)
    ensures
        res@ == bin_file(windows),
{
    if windows {
        "rpiboot.exe"
    } else {
        "rpiboot"
    }
}

/// Whether a run is needed: not in simulation, and the eMMC not already exposed.
pub open spec fn rpiboot_needed(simulated: bool, device: Option<ReachyDevice>) -> bool {
    !simulated && !(device matches Some(d) && d.mode@ == "ready"@)
}

/// Whether `rpiboot` has to run, given simulation mode and what detection sees now.
pub fn needs_rpiboot(simulated: bool, device: &Option<ReachyDevice>) -> (res: bool)
    ensures
        res == rpiboot_needed(simulated, *device),
{
    if simulated {
        return false;
    }
    match device {
        Some(d) => !str_eq(d.mode.as_str(), "ready"),
        None => true,
    }
}

/// How the presence of a candidate path is tested.
#[derive(PartialEq, Eq, Structural, Clone, Copy, Debug)]
pub enum Probe {
    Exists,
    IsFile,
    IsDir,
}

/// A place an rpiboot artifact may be, and how to test that it is there.
pub struct Candidate {
    pub path: String,
    pub probe: Probe,
}

/// `p` is `name` inside the `rpiboot` directory of `resources`.
pub open spec fn in_resources(resources: Seq<char>, name: Seq<char>, p: Seq<char>) -> bool {
    exists|mid: Seq<char>| joined_onto(resources, "rpiboot"@, mid) && #[trigger] joined_onto(mid, name, p)
}

/// The bundled candidate for `name` is `resources`, a separator, `rpiboot`, a separator and
/// `name`, whether `resources` is an ordinary path or a Windows verbatim (`\\?\`) one with
/// plain components.
pub proof fn lemma_bundled_candidate(resources: Seq<char>, name: Seq<char>, p: Seq<char>)
    requires
        determined(resources),
        plain_component(name),
        in_resources(resources, name, p),
    ensures
        exists|a: Seq<char>, b: Seq<char>|
            is_sep(a) && is_sep(b) && p == resources + a + "rpiboot"@ + b + name,
{
    reveal_strlit("rpiboot");
    let mid = choose|mid: Seq<char>|
        joined_onto(resources, "rpiboot"@, mid) && #[trigger] joined_onto(mid, name, p);
    let rp = "rpiboot"@;
    assert(rp.len() == 7);
    assert(!dot_name(rp));
    assert(plain_component(rp));
    let a: Seq<char> = if mid == resources + rp {
        Seq::<char>::empty()
    } else if mid == resources + seq!['/'] + rp {
        seq!['/']
    } else {
        seq!['\\']
    };
    assert(mid == resources + a + rp) by {
        if a.len() == 0 {
            assert(resources + a =~= resources);
        }
    }
    lemma_join_keeps_determined(resources, a, rp);
    let b: Seq<char> = if p == mid + name {
        Seq::<char>::empty()
    } else if p == mid + seq!['/'] + name {
        seq!['/']
    } else {
        seq!['\\']
    };
    assert(p == mid + b + name) by {
        if b.len() == 0 {
            assert(mid + b =~= mid);
        }
    }
    assert(is_sep(a) && is_sep(b) && p == resources + a + rp + b + name);
}

/// The number of candidates an optional place adds.
pub open spec fn count<T>(o: Option<T>) -> int {
    if o is Some {
        1int
    } else {
        0int
    }
}

/// A name that `join_path` accepts as one relative component: not empty, and without
/// separators or a drive colon.
pub open spec fn component(name: Seq<char>) -> bool {
    name.len() > 0 && forall|i: int| 0 <= i < name.len() ==> name[i] != '/' && name[i] != '\\' && name[i] != ':'
}

/// `c` is `name` inside `dir`, tested as a file.
#[verifier::opaque]
pub open spec fn found_in_dir(dir: Seq<char>, name: Seq<char>, c: Candidate) -> bool {
    joined_onto(dir, name, c.path@) && c.probe == Probe::IsFile
}

/// From position `off` on, `cands` holds `name` in each of `dirs`, tested as a file.
pub open spec fn in_path(dirs: Seq<String>, name: Seq<char>, cands: Seq<Candidate>, off: int) -> bool {
    forall|k: int| 0 <= k < dirs.len() ==> #[trigger] found_in_dir(dirs[k]@, name, cands[off + k])
}

/// The places an artifact `name` is looked for, in order: the override given in the
/// environment (as it is), `rpiboot/<name>` under the bundled resources, `<name>` in the
/// RPiBoot installation (tested with `install_probe`), then `<name>` in each directory of
/// `PATH` (tested as a file). The first two are tested for existence only.
pub fn candidates(
    env_override: &Option<String>,
    resources: &Option<String>,
    install: &Option<String>,
    install_probe: Probe,
    path_dirs: &Vec<String>,
    name: &str,
) -> (res: Vec<Candidate>)
    requires
        component(name@),
    ensures
        res@.len() == count(*env_override) + count(*resources) + count(*install) + path_dirs@.len(),
        env_override matches Some(e) ==> res@[0].path@ == e@ && res@[0].probe == Probe::Exists,
        resources matches Some(r) ==> in_resources(r@, name@, res@[count(*env_override)].path@)
            && res@[count(*env_override)].probe == Probe::Exists,
        install matches Some(i) ==> joined_onto(
            i@,
            name@,
            res@[count(*env_override) + count(*resources)].path@,
        ) && res@[count(*env_override) + count(*resources)].probe == install_probe,
        in_path(path_dirs@, name@, res@, count(*env_override) + count(*resources) + count(*install)),
{
    let mut out: Vec<Candidate> = Vec::new();
    match env_override {
        Some(e) => {
            out.push(Candidate { path: string_of(&chars_of(e.as_str())), probe: Probe::Exists });
        },
        None => {},
    }
    proof {
        reveal_strlit("rpiboot");
    }
    match resources {
        Some(r) => {
            let mid = join_path(r.as_str(), "rpiboot");
            let p = join_path(mid.as_str(), name);
            assert(joined_onto(r@, "rpiboot"@, mid@) && joined_onto(mid@, name@, p@));
            out.push(Candidate { path: p, probe: Probe::Exists });
        },
        None => {},
    }
    match install {
        Some(i) => {
            out.push(Candidate { path: join_path(i.as_str(), name), probe: install_probe });
        },
        None => {},
    }
    let off: usize = out.len();
    let mut k: usize = 0;
    while k < path_dirs.len()
        invariant
            k <= path_dirs.len(),
            component(name@),
            off == count(*env_override) + count(*resources) + count(*install),
            out@.len() == off + k,
            env_override matches Some(e) ==> out@[0].path@ == e@ && out@[0].probe == Probe::Exists,
            resources matches Some(r) ==> in_resources(r@, name@, out@[count(*env_override)].path@)
                && out@[count(*env_override)].probe == Probe::Exists,
            install matches Some(i) ==> joined_onto(
                i@,
                name@,
                out@[count(*env_override) + count(*resources)].path@,
            ) && out@[count(*env_override) + count(*resources)].probe == install_probe,
            forall|j: int| 0 <= j < k ==> #[trigger] found_in_dir(path_dirs@[j]@, name@, out@[off + j]),
        decreases path_dirs.len() - k,
    {
        let p = join_path(path_dirs[k].as_str(), name);
        let ghost before = out@;
        out.push(Candidate { path: p, probe: Probe::IsFile });
        assert(forall|j: int| 0 <= j < off + k ==> out@[j] == before[j]);
        assert(out@[off + k].path@ == p@);
        proof {
            reveal(found_in_dir);
        }
        assert(found_in_dir(path_dirs@[k as int]@, name@, out@[off + k]));
        assert forall|j: int| 0 <= j < k + 1 implies #[trigger] found_in_dir(
            path_dirs@[j]@,
            name@,
            out@[off + j],
        ) by {
            if j < k {
                assert(out@[off + j] == before[off + j]);
            }
        }
        k = k + 1;
    }
    assert(in_path(path_dirs@, name@, out@, off as int));
    out
}

/// The first candidate whose test came out true (`present[k]` for `cands[k]`).
pub fn first_present(cands: &Vec<Candidate>, present: &Vec<bool>) -> (res: Option<String>)
    requires
        cands@.len() == present@.len(),
    ensures
        match res {
            Some(p) => exists|k: int|
                0 <= k < present@.len() && present@[k] && cands@[k].path@ == p@ && forall|j: int|
                    0 <= j < k ==> !present@[j],
            None => forall|j: int| 0 <= j < present@.len() ==> !present@[j],
        },
{
    let mut i: usize = 0;
    while i < cands.len()
        invariant
            i <= cands.len(),
            cands@.len() == present@.len(),
            forall|j: int| 0 <= j < i ==> !present@[j],
        decreases cands.len() - i,
    {
        if present[i] {
            let p = string_of(&chars_of(cands[i].path.as_str()));
            assert(present@[i as int] && cands@[i as int].path@ == p@);
            return Some(p);
        }
        i = i + 1;
    }
    None
}

/// Where the rpiboot executable is looked for: `REACHY_RPIBOOT_BIN`, the bundled
/// resources, the RPiBoot installation (Windows), then `PATH`.
pub fn bin_candidates(
    env_override: &Option<String>,
    resources: &Option<String>,
    install: &Option<String>,
    path_dirs: &Vec<String>,
    windows: bool,
) -> (res: Vec<Candidate>)
    ensures
        res@.len() == count(*env_override) + count(*resources) + count(*install) + path_dirs@.len(),
        env_override matches Some(e) ==> res@[0].path@ == e@ && res@[0].probe == Probe::Exists,
        resources matches Some(r) ==> in_resources(
            r@,
            bin_file(windows),
            res@[count(*env_override)].path@,
        ) && res@[count(*env_override)].probe == Probe::Exists,
        install matches Some(i) ==> joined_onto(
            i@,
            bin_file(windows),
            res@[count(*env_override) + count(*resources)].path@,
        ) && res@[count(*env_override) + count(*resources)].probe == Probe::IsFile,
        in_path(
            path_dirs@,
            bin_file(windows),
            res@,
            count(*env_override) + count(*resources) + count(*install),
        ),
{
    let name = bin_name(windows);
    proof {
        reveal_strlit("rpiboot.exe");
        reveal_strlit("rpiboot");
    }
    candidates(env_override, resources, install, Probe::IsFile, path_dirs, name)
}

/// Where the `mass-storage-gadget64` boot files are looked for: `REACHY_RPIBOOT_DIR`, the
/// bundled resources, then the RPiBoot installation (Windows). `PATH` is not searched.
pub fn gadget_candidates(
    env_override: &Option<String>,
    resources: &Option<String>,
    install: &Option<String>,
) -> (res: Vec<Candidate>)
    ensures
        res@.len() == count(*env_override) + count(*resources) + count(*install),
        env_override matches Some(e) ==> res@[0].path@ == e@ && res@[0].probe == Probe::Exists,
        resources matches Some(r) ==> in_resources(
            r@,
            GADGET_DIR@,
            res@[count(*env_override)].path@,
        ) && res@[count(*env_override)].probe == Probe::Exists,
        install matches Some(i) ==> joined_onto(
            i@,
            GADGET_DIR@,
            res@[count(*env_override) + count(*resources)].path@,
        ) && res@[count(*env_override) + count(*resources)].probe == Probe::IsDir,
{
    let none: Vec<String> = Vec::new();
    proof {
        reveal_strlit("mass-storage-gadget64");
    }
    candidates(env_override, resources, install, Probe::IsDir, &none, GADGET_DIR)
}

/// The error when no rpiboot executable was found.
pub const NO_BIN: &'static str = "rpiboot was not found. Install it (see README) or set REACHY_RPIBOOT_BIN.";

/// The error when no boot files were found.
pub const NO_GADGET: &'static str = "rpiboot boot files (mass-storage-gadget64) were not found. See README or set REACHY_RPIBOOT_DIR.";

/// What a run goes ahead with: a reason the driver blocks it (Windows) comes first, then
/// the executable, then the boot files; each missing one is its own error.
pub open spec fn plan(blocked: Option<String>, bin: Option<String>, dir: Option<String>) -> Result<
    (Seq<char>, Seq<char>),
    Seq<char>,
> {
    match blocked {
        Some(reason) => Err(reason@),
        None => match bin {
            None => Err(NO_BIN@),
            Some(b) => match dir {
                None => Err(NO_GADGET@),
                Some(d) => Ok((b@, d@)),
            },
        },
    }
}

/// Checks that a run can go ahead and hands back the executable and the boot-files
/// directory it will use.
pub fn rpiboot_plan(blocked: Option<String>, bin: Option<String>, dir: Option<String>) -> (res:
    Result<(String, String), String>)
    ensures
        match res {
            Ok((b, d)) => plan(blocked, bin, dir) == Ok::<(Seq<char>, Seq<char>), Seq<char>>(
                (b@, d@),
            ),
            Err(e) => plan(blocked, bin, dir) == Err::<(Seq<char>, Seq<char>), Seq<char>>(e@),
        },
{
    match blocked {
        Some(reason) => Err(reason),
        None => match bin {
            None => Err(string_of(&chars_of(NO_BIN))),
            Some(b) => match dir {
                None => Err(string_of(&chars_of(NO_GADGET))),
                Some(d) => Ok((b, d)),
            },
        },
    }
}

/// The AppleScript that runs rpiboot as root with the boot files in `dir`, its output
/// merged so that a failure says why.
pub open spec fn apple_script(bin: Seq<char>, dir: Seq<char>) -> Seq<char> {
    "do shell script \"'"@ + bin + "' -d '"@ + dir
        + "' 2>&1\" with prompt \"Reachy Mini Flasher needs administrator access to prepare your robot for flashing.\" with administrator privileges"@
}

/// The `osascript -e` argument that runs rpiboot elevated on macOS.
pub fn osascript_command(bin: &str, dir: &str) -> (res: String)
    ensures
        res@ == apple_script(bin@, dir@),
{
    let mut out: Vec<char> = Vec::new();
    extend_str(&mut out, "do shell script \"'");
    extend_str(&mut out, bin);
    extend_str(&mut out, "' -d '");
    extend_str(&mut out, dir);
    extend_str(
        &mut out,
        "' 2>&1\" with prompt \"Reachy Mini Flasher needs administrator access to prepare your robot for flashing.\" with administrator privileges",
    );
    string_of(&out)
}

/// The error when the administrator prompt was declined on macOS.
pub const MAC_CANCELLED: &'static str = "Preparation cancelled (admin authorization denied).";

/// What an `osascript` run of rpiboot means: success, a declined prompt (error -128 in
/// its stderr), or a failure described by the first of stderr and stdout that is not
/// blank once trimmed.
pub open spec fn mac_outcome(success: bool, stdout: Seq<u8>, stderr: Seq<u8>) -> Result<(), Seq<char>> {
    let e = utf8_lossy(stderr);
    let o = utf8_lossy(stdout);
    if success {
        Ok(())
    } else if has_infix(e, "-128"@) {
        Err(MAC_CANCELLED@)
    } else {
        let detail = if trim(e).len() > 0 {
            trim(e)
        } else if trim(o).len() > 0 {
            trim(o)
        } else {
            "no output"@
        };
        Err("rpiboot failed: "@ + detail)
    }
}

/// Reads how the elevated `osascript` run of rpiboot went on macOS.
pub fn mac_rpiboot_result(success: bool, stdout: &Vec<u8>, stderr: &Vec<u8>) -> (res: Result<(), String>)
    ensures
        match res {
            Ok(()) => mac_outcome(success, stdout@, stderr@) == Ok::<(), Seq<char>>(()),
            Err(m) => mac_outcome(success, stdout@, stderr@) == Err::<(), Seq<char>>(m@),
        },
{
    if success {
        return Ok(());
    }
    let e = from_utf8_lossy(stderr.as_slice());
    let o = from_utf8_lossy(stdout.as_slice());
    if contains(&e, &chars_of("-128")) {
        return Err(string_of(&chars_of(MAC_CANCELLED)));
    }
    let te = trim_chars(&e);
    let to = trim_chars(&o);
    let mut msg: Vec<char> = Vec::new();
    extend_str(&mut msg, "rpiboot failed: ");
    if te.len() > 0 {
        extend_chars(&mut msg, &te);
    } else if to.len() > 0 {
        extend_chars(&mut msg, &to);
    } else {
        extend_str(&mut msg, "no output");
    }
    Err(string_of(&msg))
}

/// The arguments of rpiboot on Windows: the boot-files directory without its verbatim
/// `\\?\` prefix (rpiboot cannot find its files through one), in double quotes, as its
/// path usually holds spaces.
pub fn windows_rpiboot_args(dir: &str) -> (res: String)
    ensures
        res@ == "-d \""@ + crate::win_ps::simplified(dir@) + "\""@,
{
    let plain = crate::win_ps::simplify(dir);
    let mut out: Vec<char> = Vec::new();
    extend_str(&mut out, "-d \"");
    extend_str(&mut out, plain.as_str());
    extend_str(&mut out, "\"");
    string_of(&out)
}

/// The message for an rpiboot run that exited with `code` on Windows.
pub open spec fn windows_failure(code: int) -> Seq<char> {
    "rpiboot failed (exit code "@ + crate::num::signed_decimal(code)
        + "). Unplug and re-plug the USB cable with the switch on DOWNLOAD, then try again."@
}

/// Reads the elevated rpiboot run on Windows: an error from the elevation itself passes
/// through, exit code 0 is success, any other code a failure.
pub fn windows_rpiboot_result(elevated: Result<i32, String>) -> (res: Result<(), String>)
    ensures
        match elevated {
            Err(e) => res == Err::<(), String>(e),
            Ok(c) => if c == 0 {
                res is Ok
            } else {
                res matches Err(m) && m@ == windows_failure(c as int)
            },
        },
{
    match elevated {
        Err(e) => Err(e),
        Ok(c) => {
            if c == 0 {
                Ok(())
            } else {
                let mut msg: Vec<char> = Vec::new();
                extend_str(&mut msg, "rpiboot failed (exit code ");
                crate::num::push_signed_decimal(&mut msg, c);
                extend_str(
                    &mut msg,
                    "). Unplug and re-plug the USB cable with the switch on DOWNLOAD, then try again.",
                );
                Err(string_of(&msg))
            }
        },
    }
}

/// On platforms other than macOS and Windows rpiboot is not run automatically.
pub fn elevated_rpiboot_elsewhere() -> (res: Result<(), String>)
    ensures
        res matches Err(m) && m@ == "automatic rpiboot is only implemented for macOS and Windows"@,
{
    Err(string_of(&chars_of("automatic rpiboot is only implemented for macOS and Windows")))
}

} // verus!
