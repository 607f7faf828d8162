use reachy_mini_flasher::win_volume::{record_lock_attempt, unlocked_warning, volume_lock, VolumeStep, LOCK_ATTEMPTS};
use reachy_mini_flasher::win_volume::{disk_number_from_target, drive_path, lock_and_dismount, wide};

#[test]
fn parses_physical_drive_paths() {
    assert_eq!(disk_number_from_target("\\\\.\\PhysicalDrive0"), Some(0));
    assert_eq!(disk_number_from_target("\\\\.\\PhysicalDrive12"), Some(12));
    assert_eq!(disk_number_from_target("\\\\.\\physicaldrive3"), Some(3));
}

#[test]
fn ignores_non_disk_targets() {
    assert_eq!(disk_number_from_target("C:\\Users\\me\\reachy-sim.img"), None);
    assert_eq!(disk_number_from_target("/dev/rdisk4"), None);
    assert_eq!(disk_number_from_target("\\\\.\\PhysicalDriveX"), None);
}

#[test]
fn drive_paths_read_back_as_their_number() {
    assert_eq!(drive_path(7), "\\\\.\\PhysicalDrive7");
    assert_eq!(disk_number_from_target(&drive_path(42)), Some(42));
    assert_eq!(disk_number_from_target("//./PhysicalDrive5\\"), Some(5));
}

#[test]
fn a_volume_that_will_not_dismount_is_an_error() {
    assert_eq!(lock_and_dismount("\\\\?\\Volume{x}", Ok(())), Ok(()));
    let e = lock_and_dismount("\\\\?\\Volume{x}", Err("denied".to_string())).unwrap_err();
    assert!(e.contains("\\\\?\\Volume{x}"));
    assert!(e.contains("denied"));
}

#[test]
fn wide_strings_end_in_zero() {
    assert_eq!(wide("A\u{1F600}"), vec![0x41, 0xD83D, 0xDE00, 0]);
    assert_eq!(wide(""), vec![0]);
}

#[test]
fn drive_numbers_read_back_in_any_case() {
    for n in [0u32, 7, 12, u32::MAX] {
        assert_eq!(disk_number_from_target(&drive_path(n)), Some(n));
        assert_eq!(disk_number_from_target(&format!("\\\\.\\PHYSICALDRIVE{n}")), Some(n));
    }
}

#[test]
fn volumes_are_locked_until_the_first_success_then_dismounted() {
    let mut s = volume_lock();
    assert!(matches!(record_lock_attempt(&mut s, Err("busy".to_string())), VolumeStep::LockAgain));
    assert!(matches!(record_lock_attempt(&mut s, Ok(())), VolumeStep::Dismount));
    assert_eq!(s.attempts, 2);
    assert!(s.locked);
    assert_eq!(unlocked_warning(&s, "V", &Ok(())), None);

    let mut s = volume_lock();
    let mut steps = 0;
    loop {
        steps += 1;
        match record_lock_attempt(&mut s, Err(format!("busy {steps}"))) {
            VolumeStep::LockAgain => {}
            VolumeStep::Dismount => break,
        }
    }
    assert_eq!(steps, LOCK_ATTEMPTS);
    assert!(!s.locked);
    assert_eq!(
        unlocked_warning(&s, "V", &Ok(())),
        Some(format!("V: dismounted but could not be locked (busy {LOCK_ATTEMPTS})"))
    );
    assert_eq!(unlocked_warning(&s, "V", &Err("no".to_string())), None);
}
