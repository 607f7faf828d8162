use reachy_mini_flasher::disks::macos::{disk_info, list as mac_list, whole_disk_ids};
use reachy_mini_flasher::disks::windows::{list as windows_list, RawDisk};
use reachy_mini_flasher::disks::elsewhere::list as other_list;
use reachy_mini_flasher::disks::DiskInfo;

fn plist(body: &str) -> Vec<u8> {
    format!(
        "<?xml version=\"1.0\" encoding=\"UTF-8\"?>\n<!DOCTYPE plist PUBLIC \"-//Apple//DTD PLIST 1.0//EN\" \"http://www.apple.com/DTDs/PropertyList-1.0.dtd\">\n<plist version=\"1.0\">{body}</plist>"
    )
    .into_bytes()
}

fn raw(number: u32, name: Option<&str>, bus: &str, is_system: bool) -> RawDisk {
    RawDisk {
        number,
        friendly_name: name.map(|s| s.to_string()),
        size: 1000,
        bus_type: bus.to_string(),
        is_boot: false,
        is_system,
    }
}

#[test]
fn macos_lists_whole_disks() {
    let out = plist("<dict><key>WholeDisks</key><array><string>disk4</string><string>disk5</string></array></dict>");
    assert_eq!(whole_disk_ids(&out), Ok(vec!["disk4".to_string(), "disk5".to_string()]));
    assert_eq!(whole_disk_ids(&plist("<dict></dict>")), Ok(vec![]));
    assert!(whole_disk_ids(b"not a plist").unwrap_err().starts_with("failed to parse diskutil plist: "));
}

#[test]
fn macos_describes_a_disk() {
    let out = plist(
        "<dict><key>MediaName</key><string> RPi-MSD- 0001 Media </string>\
         <key>TotalSize</key><integer>31914983424</integer>\
         <key>Removable</key><true/><key>Internal</key><false/></dict>",
    );
    let d = disk_info("disk4", &out).unwrap();
    assert_eq!(d.device, "/dev/rdisk4");
    assert_eq!(d.display_device, "/dev/disk4");
    assert_eq!(d.description, "RPi-MSD- 0001 Media");
    assert_eq!(d.size, 31914983424);
    assert!(d.is_removable);
    assert!(d.is_external);
    assert!(!d.is_system);
    let bare = disk_info("disk5", &plist("<dict></dict>")).unwrap();
    assert_eq!(bare.description, "Unknown device");
    assert_eq!(bare.size, 0);
    assert_eq!(disk_info("disk6", &plist("<array></array>")).err(), Some("unexpected diskutil info format".to_string()));
}

#[test]
fn macos_skips_disks_it_could_not_read() {
    let ok = disk_info("disk4", &plist("<dict></dict>")).unwrap();
    let listed = mac_list(vec![Err("gone".to_string()), Ok(ok)]);
    assert_eq!(listed.len(), 1);
    assert_eq!(listed[0].device, "/dev/rdisk4");
}

#[test]
fn windows_hides_the_system_disk() {
    let rows = vec![
        raw(0, Some("NVMe"), "NVMe", true),
        raw(1, Some("Samsung SSD"), "SATA", false),
        raw(3, None, "usb", false),
    ];
    let disks: Vec<DiskInfo> = windows_list(Ok(rows)).unwrap();
    assert_eq!(disks.len(), 1);
    assert_eq!(disks[0].device, "\\\\.\\PhysicalDrive3");
    assert_eq!(disks[0].display_device, "PhysicalDrive3");
    assert_eq!(disks[0].description, "Unknown device");
    assert!(disks[0].is_removable && disks[0].is_external);
    assert_eq!(windows_list(Err("ps".to_string())).err(), Some("ps".to_string()));
}

#[test]
fn other_platforms_list_nothing() {
    assert!(other_list().is_err());
}
