use reachy_mini_flasher::win_driver::{install_failure, install_next, install_result, InstallState};
use reachy_mini_flasher::win_driver::{
    blocking_reason, instance_pid, install_step, pids_needing_driver, rpiboot_install_dir, status,
    wdi_args, InstallStep, PnpDevice, DRIVER_MISSING,
};

fn dev(id: &str, status: &str, service: Option<&str>) -> PnpDevice {
    PnpDevice {
        instance_id: id.to_string(),
        status: status.to_string(),
        service: service.map(|s| s.to_string()),
    }
}

#[test]
fn reads_the_pid_out_of_an_instance_id() {
    assert_eq!(instance_pid(r"USB\VID_0A5C&PID_2711\6&1D0E4B2&0&2"), Some(0x2711));
    assert_eq!(instance_pid(r"USB\VID_0A5C&PID_2764\5&2A6F1B3&0&1"), Some(0x2764));
    assert_eq!(instance_pid(r"usb\vid_0a5c&pid_2712\6&x"), Some(0x2712));
    assert_eq!(instance_pid(r"USB\VID_0A5C\6&1D0E4B2"), None);
    assert_eq!(instance_pid(r"USB\VID_0A5C&PID_ZZZZ\6"), None);
}

#[test]
fn driverless_pids_come_out_sorted_and_once() {
    let devices = Ok(vec![
        dev(r"USB\VID_0A5C&PID_2764\1", "Error", None),
        dev(r"USB\VID_0A5C&PID_2711\2", "Error", None),
        dev(r"USB\VID_0A5C&PID_2764\3", "Unknown", Some("")),
        dev(r"USB\VID_0A5C&PID_2712\4", "OK", Some("WinUSB")),
    ]);
    assert_eq!(pids_needing_driver(&devices), vec![0x2711, 0x2764]);
}

#[test]
fn unknown_devices_fall_back_to_the_cm4() {
    assert_eq!(pids_needing_driver(&Err("powershell".to_string())), vec![0x2711]);
    assert_eq!(pids_needing_driver(&Ok(vec![])), vec![0x2711]);
}

#[test]
fn a_driverless_board_blocks_rpiboot() {
    let devices = Ok(vec![dev(r"USB\VID_0A5C&PID_2711\2", "Error", None)]);
    let st = status(&devices, true);
    assert!(st.device_present);
    assert!(!st.driver_ok);
    assert!(st.needs_driver());
    assert_eq!(blocking_reason(&st), Some(DRIVER_MISSING.to_string()));
    let bound = Ok(vec![dev(r"USB\VID_0A5C&PID_2711\2", "OK", Some("WINUSB"))]);
    let st = status(&bound, true);
    assert!(st.driver_ok);
    assert_eq!(blocking_reason(&st), None);
}

#[test]
fn install_steps_follow_the_exit_code() {
    assert!(matches!(install_step(0x2711, 0, ""), InstallStep::Done));
    match install_step(0x2711, 5, "boom") {
        InstallStep::Failed(m) => assert!(m.contains("2711")),
        InstallStep::Done => panic!("a failed install must not count as done"),
    }
    assert!(wdi_args(0x2711, "C:\\tmp").contains("2711"));
}

#[test]
fn the_first_existing_install_dir_is_used() {
    let cands = vec!["A".to_string(), "B".to_string(), "C".to_string()];
    assert_eq!(rpiboot_install_dir(&cands, &vec![false, true, true]), Some("B".to_string()));
    assert_eq!(rpiboot_install_dir(&cands, &vec![false, false, false]), None);
}

#[test]
fn the_install_stops_at_the_first_bound_device() {
    let s = install_next(InstallState::Pending(None), 0x2711, -3, "access denied");
    assert!(matches!(&s, InstallState::Pending(Some(m)) if *m == install_failure(0x2711, -3, "access denied")));
    let s = install_next(s, 0x2764, 0, "");
    assert!(matches!(s, InstallState::Installed));
    assert_eq!(install_result(s), Ok(()));
    let s = install_next(InstallState::Pending(None), 0x2711, 5, "");
    let last = install_next(s, 0x2764, 6, "boom");
    assert_eq!(install_result(last), Err(install_failure(0x2764, 6, "boom")));
    assert_eq!(install_result(InstallState::Pending(None)), Ok(()));
}
