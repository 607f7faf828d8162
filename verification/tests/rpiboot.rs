use reachy_mini_flasher::detect::ReachyDevice;
use reachy_mini_flasher::rpiboot::{
    bin_candidates, bin_name, elevated_rpiboot_elsewhere, first_present, gadget_candidates,
    mac_rpiboot_result, needs_rpiboot, osascript_command, rpiboot_plan, windows_rpiboot_args,
    windows_rpiboot_result, Probe, MAC_CANCELLED, NO_BIN, NO_GADGET,
};
use reachy_mini_flasher::sim::{dir, target_path};

fn device(mode: &str) -> ReachyDevice {
    ReachyDevice {
        device: String::new(),
        display_device: String::new(),
        description: String::new(),
        size: 0,
        mode: mode.to_string(),
    }
}

fn joined(base: &str, name: &str, got: &str) -> bool {
    got == format!("{base}{name}") || got == format!("{base}/{name}") || got == format!("{base}\\{name}")
}

#[test]
fn rpiboot_runs_only_when_the_emmc_is_hidden() {
    assert!(!needs_rpiboot(true, &None));
    assert!(!needs_rpiboot(false, &Some(device("ready"))));
    assert!(needs_rpiboot(false, &Some(device("download"))));
    assert!(needs_rpiboot(false, &None));
}

#[test]
fn the_binary_is_looked_for_in_order() {
    assert_eq!(bin_name(true), "rpiboot.exe");
    assert_eq!(bin_name(false), "rpiboot");
    let c = bin_candidates(
        &Some("/opt/rpiboot".to_string()),
        &Some("/app/res".to_string()),
        &None,
        &vec!["/usr/bin".to_string(), "/bin".to_string()],
        false,
    );
    assert_eq!(c.len(), 4);
    assert_eq!(c[0].path, "/opt/rpiboot");
    assert_eq!(c[0].probe, Probe::Exists);
    assert_eq!(c[1].path, "/app/res/rpiboot/rpiboot");
    assert_eq!(c[1].probe, Probe::Exists);
    assert!(joined("/usr/bin", "rpiboot", &c[2].path));
    assert_eq!(c[2].probe, Probe::IsFile);
    assert!(joined("/bin", "rpiboot", &c[3].path));
    assert_eq!(first_present(&c, &vec![false, false, true, true]), Some(c[2].path.clone()));
    assert_eq!(first_present(&c, &vec![false; 4]), None);
}

#[test]
fn the_boot_files_are_looked_for_in_order() {
    let c = gadget_candidates(&None, &Some("/app/res".to_string()), &Some("/pf/Raspberry Pi".to_string()));
    assert_eq!(c.len(), 2);
    assert_eq!(c[0].path, "/app/res/rpiboot/mass-storage-gadget64");
    assert!(joined("/pf/Raspberry Pi", "mass-storage-gadget64", &c[1].path));
    assert_eq!(c[1].probe, Probe::IsDir);
}

#[test]
fn missing_pieces_stop_the_run() {
    assert_eq!(
        rpiboot_plan(Some("driver".to_string()), None, None),
        Err("driver".to_string())
    );
    assert_eq!(rpiboot_plan(None, None, Some("d".to_string())), Err(NO_BIN.to_string()));
    assert_eq!(rpiboot_plan(None, Some("b".to_string()), None), Err(NO_GADGET.to_string()));
    assert_eq!(
        rpiboot_plan(None, Some("b".to_string()), Some("d".to_string())),
        Ok(("b".to_string(), "d".to_string()))
    );
    assert!(NO_GADGET.ends_with("See README or set REACHY_RPIBOOT_DIR."));
}

#[test]
fn the_macos_run() {
    assert_eq!(
        osascript_command("/c/rpiboot", "/c/msg64"),
        "do shell script \"'/c/rpiboot' -d '/c/msg64' 2>&1\" with prompt \"Reachy Mini Flasher needs administrator access to prepare your robot for flashing.\" with administrator privileges"
    );
    assert_eq!(mac_rpiboot_result(true, &vec![], &vec![]), Ok(()));
    assert_eq!(
        mac_rpiboot_result(false, &vec![], &b"execution error: User canceled. (-128)".to_vec()),
        Err(MAC_CANCELLED.to_string())
    );
    assert_eq!(
        mac_rpiboot_result(false, &b" No 'bootcode' files found \n".to_vec(), &b"  \n".to_vec()),
        Err("rpiboot failed: No 'bootcode' files found".to_string())
    );
    assert_eq!(
        mac_rpiboot_result(false, &vec![], &vec![]),
        Err("rpiboot failed: no output".to_string())
    );
}

#[test]
fn the_windows_run() {
    assert_eq!(windows_rpiboot_args(r"C:\Program Files\x"), r#"-d "C:\Program Files\x""#);
    assert_eq!(
        windows_rpiboot_args(r"\\?\C:\app\rpiboot\mass-storage-gadget64"),
        r#"-d "C:\app\rpiboot\mass-storage-gadget64""#
    );
    assert_eq!(windows_rpiboot_result(Ok(0)), Ok(()));
    assert_eq!(
        windows_rpiboot_result(Ok(-1)),
        Err("rpiboot failed (exit code -1). Unplug and re-plug the USB cable with the switch on DOWNLOAD, then try again.".to_string())
    );
    assert_eq!(windows_rpiboot_result(Err("denied".to_string())), Err("denied".to_string()));
    assert_eq!(
        elevated_rpiboot_elsewhere(),
        Err("automatic rpiboot is only implemented for macOS and Windows".to_string())
    );
}

#[test]
fn the_simulated_disk_lives_in_the_temp_dir() {
    let d = dir("/tmp");
    assert!(joined("/tmp", "reachy-mini-flasher-sim", &d));
    let t = target_path("/tmp");
    assert!(joined(&d, "sim-disk.img", &t));
}
