use reachy_mini_flasher::detect::{
    detect_reachy, in_download_mode, looks_like_reachy_disk, sim_connected, SimState,
};
use reachy_mini_flasher::disks::DiskInfo;

fn disk(device: &str, description: &str, size: u64) -> DiskInfo {
    DiskInfo {
        device: device.to_string(),
        display_device: device.to_string(),
        description: description.to_string(),
        size,
        is_removable: true,
        is_external: true,
        is_system: false,
    }
}

#[test]
fn download_mode_disk_signatures_match() {
    assert!(looks_like_reachy_disk("RPi-MSD- 0001 Media"));
    assert!(looks_like_reachy_disk("Linux File-Stor Gadget Media"));
    assert!(looks_like_reachy_disk("Compute Module 4"));
    assert!(looks_like_reachy_disk("mmcblk0 Media"));
    assert!(!looks_like_reachy_disk("Samsung Flash Drive"));
    assert!(!looks_like_reachy_disk("APPLE SSD"));
}

#[test]
fn simulation_reports_a_simulated_device_once_connected() {
    let sim = SimState { connected: true, target: "/tmp/sim-disk.img".to_string() };
    let dev = detect_reachy(Some(sim), Ok(vec![]), false).expect("sim should report a device once connected");
    assert_eq!(dev.mode, "simulated");
    assert_eq!(dev.device, "/tmp/sim-disk.img");
    let waiting = SimState { connected: false, target: "/tmp/sim-disk.img".to_string() };
    assert!(detect_reachy(Some(waiting), Ok(vec![disk("/dev/rdisk4", "RPi-MSD- 0001 Media", 1)]), true).is_none());
}

#[test]
fn a_ready_disk_wins_over_download_mode() {
    let disks = vec![disk("/dev/rdisk2", "APPLE SSD", 500), disk("/dev/rdisk4", "RPi-MSD- 0001 Media", 32)];
    let dev = detect_reachy(None, Ok(disks), true).unwrap();
    assert_eq!(dev.mode, "ready");
    assert_eq!(dev.device, "/dev/rdisk4");
    assert_eq!(dev.size, 32);
}

#[test]
fn download_mode_without_a_disk_reports_download() {
    let dev = detect_reachy(None, Ok(vec![disk("/dev/rdisk2", "APPLE SSD", 500)]), true).unwrap();
    assert_eq!(dev.mode, "download");
    assert_eq!(dev.device, "");
    assert!(detect_reachy(None, Err("no disks".to_string()), false).is_none());
}

#[test]
fn broadcom_vendor_means_download_mode() {
    assert!(in_download_mode(&Ok(vec![0x1234, 0x0a5c])));
    assert!(!in_download_mode(&Ok(vec![0x1234])));
    assert!(!in_download_mode(&Err("usb".to_string())));
}

#[test]
fn simulated_robot_appears_after_the_delay() {
    assert!(!sim_connected(&None, 3));
    assert!(sim_connected(&None, 4));
    assert!(sim_connected(&Some("0".to_string()), 0));
    assert!(!sim_connected(&Some("10".to_string()), 9));
}
