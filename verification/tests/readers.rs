use reachy_mini_flasher::disks::windows::{list, raw_disks};
use reachy_mini_flasher::flash::{authopen_descriptor, flash_target, is_img_entry, NOT_DETECTED, NO_IMG_ENTRY, STILL_DOWNLOADING};
use reachy_mini_flasher::detect::ReachyDevice;
use reachy_mini_flasher::images::{download_error, offline_fallback, ResolvedImage};
use reachy_mini_flasher::json::{bool_member, optional_string_member, string_member, u32_member, u64_member};
use reachy_mini_flasher::text::chars_of;
use reachy_mini_flasher::win_driver::{first_existing, install_dir_candidates, pnp_devices, wdi_candidates};
use reachy_mini_flasher::win_ps::{encode_utf16, json_array};

fn device(path: &str, mode: &str) -> ReachyDevice {
    ReachyDevice {
        device: path.to_string(),
        display_device: String::new(),
        description: String::new(),
        size: 0,
        mode: mode.to_string(),
    }
}

#[test]
fn get_disk_rows_read_like_serde() {
    let items = json_array(
        r#"[{"Number":0,"FriendlyName":"NVMe","Size":512110190592,"BusType":"NVMe","IsBoot":true,"IsSystem":true},
            {"Number":3,"FriendlyName":null,"Size":31914983424,"BusType":"USB","IsBoot":false,"IsSystem":false}]"#,
        "Get-Disk",
    )
    .unwrap();
    let rows = raw_disks(&items, "Get-Disk").unwrap();
    assert_eq!(rows.len(), 2);
    assert_eq!((rows[1].number, rows[1].size, rows[1].bus_type.as_str()), (3, 31914983424, "USB"));
    assert_eq!(rows[1].friendly_name, None);
    assert_eq!(rows[0].friendly_name, Some("NVMe".to_string()));
    let disks = list(Ok(rows)).unwrap();
    assert_eq!(disks.len(), 1);
    assert_eq!(disks[0].device, "\\\\.\\PhysicalDrive3");
}

#[test]
fn malformed_rows_name_their_field() {
    let items = json_array(r#"{"Number":-1,"Size":1,"BusType":"USB","IsBoot":false,"IsSystem":false}"#, "Get-Disk").unwrap();
    assert_eq!(raw_disks(&items, "Get-Disk").err(), Some("unexpected Get-Disk JSON: invalid type for field `Number`".to_string()));
    let items = json_array(r#"[{"Number":1,"Size":1,"IsBoot":false,"IsSystem":false}]"#, "Get-Disk").unwrap();
    assert_eq!(raw_disks(&items, "Get-Disk").err(), Some("unexpected Get-Disk JSON: missing field `BusType`".to_string()));
    let items = json_array("[5]", "Get-Disk").unwrap();
    assert_eq!(raw_disks(&items, "Get-Disk").err(), Some("unexpected Get-Disk JSON: invalid type: expected an object".to_string()));
}

#[test]
fn pnp_rows_read_like_serde() {
    let items = json_array(r#"{"InstanceId":"USB\\VID_0A5C&PID_2711\\6&1","Status":"Error","Service":""}"#, "Get-PnpDevice").unwrap();
    let devs = pnp_devices(&items, "Get-PnpDevice").unwrap();
    assert_eq!(devs.len(), 1);
    assert_eq!(devs[0].instance_id, "USB\\VID_0A5C&PID_2711\\6&1");
    assert_eq!(devs[0].service, Some(String::new()));
    let items = json_array(r#"[{"InstanceId":"x","Status":3}]"#, "Get-PnpDevice").unwrap();
    assert_eq!(
        pnp_devices(&items, "Get-PnpDevice").err(),
        Some("unexpected Get-PnpDevice JSON: invalid type for field `Status`".to_string())
    );
}

#[test]
fn json_members() {
    let v = &json_array(r#"{"s":"x","n":42,"big":18446744073709551615,"f":1.5,"b":true,"z":null}"#, "t").unwrap()[0];
    assert_eq!(string_member(v, "s"), Ok("x".to_string()));
    assert_eq!(string_member(v, "n"), Err("invalid type for field `n`".to_string()));
    assert_eq!(u32_member(v, "n"), Ok(42));
    assert_eq!(u64_member(v, "big"), Ok(u64::MAX));
    assert!(u32_member(v, "big").is_err());
    assert!(u64_member(v, "f").is_err());
    assert_eq!(bool_member(v, "b"), Ok(true));
    assert_eq!(bool_member(v, "q"), Err("missing field `q`".to_string()));
    assert_eq!(optional_string_member(v, "z"), Ok(None));
    assert_eq!(optional_string_member(v, "q"), Ok(None));
}

#[test]
fn flash_targets() {
    assert_eq!(flash_target(None), Err(NOT_DETECTED.to_string()));
    assert_eq!(flash_target(Some(device("", "download"))), Err(STILL_DOWNLOADING.to_string()));
    assert_eq!(flash_target(Some(device("/dev/rdisk4", "ready"))), Ok("/dev/rdisk4".to_string()));
    assert_eq!(authopen_descriptor(1, 7), Ok(7));
    assert!(authopen_descriptor(0, 7).unwrap_err().starts_with("Could not open the robot's storage."));
    assert!(authopen_descriptor(1, -1).is_err());
    assert!(is_img_entry("OS.IMG"));
    assert!(!is_img_entry("os.img.gz"));
    assert_eq!(NO_IMG_ENTRY, "no .img entry inside the zip");
}

#[test]
fn offline_flashes_use_the_cache() {
    let cached = ResolvedImage { image_path: "/c/os.img".to_string(), bmap_path: None };
    assert_eq!(offline_fallback(Some(cached), "dns").unwrap().image_path, "/c/os.img");
    assert_eq!(
        offline_fallback(None, "dns").err(),
        Some("could not fetch latest release (and no local image found): dns".to_string())
    );
    assert_eq!(download_error("timeout"), "download failed: timeout");
}

#[test]
fn windows_lookups() {
    let cands = install_dir_candidates(&Ok("  C:\\RPi \r\n".to_string()), &vec!["C:\\PF".to_string()]);
    assert_eq!(cands.len(), 2);
    assert_eq!(cands[0], "C:\\RPi");
    assert!(cands[1].starts_with("C:\\PF") && cands[1].ends_with("Raspberry Pi"));
    assert_eq!(install_dir_candidates(&Err("no key".to_string()), &vec![]).len(), 0);
    let w = wdi_candidates(&Some("C:\\w.exe".to_string()), &None, &Some("C:\\RPi".to_string()));
    assert_eq!(w.len(), 2);
    assert_eq!(w[0], "C:\\w.exe");
    assert!(w[1].starts_with("C:\\RPi") && w[1].ends_with("wdi-simple.exe") && w[1].contains("redist"));
    assert_eq!(first_existing(&w, &vec![false, true]), Some(w[1].clone()));
    assert_eq!(encode_utf16(&chars_of("a\u{10000}")), vec![0x61, 0xD800, 0xDC00]);
}
