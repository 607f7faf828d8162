use reachy_mini_flasher::flash::{
    corrupt_image_error, find_img_entry, flash_outcome, flash_total, image_kind, open_target_error,
    parse_progress, progress_line, run_elevated, sim_progress, unmount_target, worker_args,
    worker_command_line, worker_error, worker_verdict, FlashOutcome, ImageKind, ProgressCounter,
    SectorWriter, ALIGN, EMIT_EVERY_BYTES, SIM_STEPS, SIM_TOTAL,
};

/// Drives a writer the way the flash loop does and returns what reached the device.
fn write_all(chunks: &[&[u8]]) -> Vec<u8> {
    let mut w = SectorWriter::new();
    let mut device = Vec::new();
    for c in chunks {
        w.write(c);
        let n = w.block_len();
        device.extend_from_slice(&w.pending()[..n]);
        w.commit(n);
    }
    w.pad_tail();
    let n = w.block_len();
    device.extend_from_slice(&w.pending()[..n]);
    w.commit(n);
    device
}

#[test]
fn the_sector_writer_releases_whole_blocks_only() {
    let data: Vec<u8> = (0..5000u32).map(|i| (i % 251) as u8 + 1).collect();
    let device = write_all(&[&data[..100], &data[100..4200], &data[4200..]]);
    assert_eq!(device.len() % ALIGN, 0);
    assert_eq!(device.len(), 8192);
    assert_eq!(&device[..5000], &data[..]);
    assert!(device[5000..].iter().all(|b| *b == 0));
    assert!(write_all(&[]).is_empty());
    let exact = vec![7u8; ALIGN];
    assert_eq!(write_all(&[&exact]), exact);
}

#[test]
fn progress_round_trips_through_the_file() {
    assert_eq!(progress_line(1024, 4096), "1024 4096");
    assert_eq!(parse_progress(&progress_line(0, u64::MAX)), Some((0, u64::MAX)));
    assert_eq!(parse_progress("  12 34\n"), Some((12, 34)));
    assert_eq!(parse_progress("DONE"), None);
    assert_eq!(parse_progress("12 x"), None);
    assert_eq!(parse_progress(""), None);
}

#[test]
fn the_worker_verdict_is_what_the_gui_reads() {
    let (text, code) = worker_verdict(&Ok(()));
    assert_eq!((text.as_str(), code), ("DONE", 0));
    let (text, code) = worker_verdict(&Err("disk vanished".to_string()));
    assert_eq!((text.as_str(), code), ("ERR disk vanished", 1));
    assert_eq!(worker_error(&text), "disk vanished");
    assert!(matches!(flash_outcome(" DONE\n", Ok(false)), FlashOutcome::Done));
    assert!(matches!(flash_outcome("DONE", Err("shim".to_string())), FlashOutcome::Done));
}

#[test]
fn worker_errors_take_the_last_err_line() {
    assert_eq!(worker_error("1 2\nERR first\nERR ERR second\r\n"), "second");
    assert_eq!(worker_error("1 2"), "flash failed or was cancelled");
    assert_eq!(worker_error(""), "flash failed or was cancelled");
}

#[test]
fn a_corrupt_image_purges_the_cache() {
    match flash_outcome("ERR unexpected EOF in gzip", Ok(false)) {
        FlashOutcome::Failed { message, purge_cache } => {
            assert!(purge_cache);
            assert_eq!(message, corrupt_image_error("unexpected EOF in gzip"));
            assert!(message.starts_with("unexpected EOF in gzip\n\nThe downloaded image was corrupt"));
        }
        FlashOutcome::Done => panic!("a failed flash is not done"),
    }
    match flash_outcome("ERR permission denied", Ok(false)) {
        FlashOutcome::Failed { message, purge_cache } => {
            assert!(!purge_cache);
            assert_eq!(message, "permission denied");
        }
        FlashOutcome::Done => panic!("a failed flash is not done"),
    }
    match flash_outcome("", Err("Authorization was denied".to_string())) {
        FlashOutcome::Failed { message, purge_cache } => {
            assert!(!purge_cache);
            assert_eq!(message, "Authorization was denied");
        }
        FlashOutcome::Done => panic!("a failed flash is not done"),
    }
    assert!(matches!(flash_outcome("", Ok(true)), FlashOutcome::Done));
}

#[test]
fn images_are_read_by_their_extension() {
    assert!(matches!(image_kind("/c/ReachyMiniOS.ZIP"), ImageKind::Zip));
    assert!(matches!(image_kind("/c/os.img.gz"), ImageKind::Gz));
    assert!(matches!(image_kind("/c/os.img"), ImageKind::Raw));
    assert_eq!(flash_total(Some(10), &ImageKind::Zip, Some(99)), 10);
    assert_eq!(flash_total(None, &ImageKind::Gz, Some(99)), 0);
    assert_eq!(flash_total(None, &ImageKind::Raw, Some(99)), 99);
    assert_eq!(flash_total(None, &ImageKind::Raw, None), 0);
}

#[test]
fn the_zip_entry_is_the_first_img() {
    let names = vec!["README".to_string(), "os.IMG".to_string(), "b.img".to_string()];
    assert_eq!(find_img_entry(&names), Ok(1));
    assert_eq!(find_img_entry(&vec!["a.txt".to_string()]), Err("no .img entry inside the zip".to_string()));
}

#[test]
fn worker_arguments() {
    let args: Vec<String> = ["a.img", "-", "/dev/rdisk4", "p"].iter().map(|s| s.to_string()).collect();
    let w = worker_args(&args).unwrap();
    assert_eq!((w.image.as_str(), w.bmap, w.target.as_str(), w.progress.as_str()), ("a.img", None, "/dev/rdisk4", "p"));
    let args: Vec<String> = ["a.img", "a.bmap", "t", "p"].iter().map(|s| s.to_string()).collect();
    assert_eq!(worker_args(&args).unwrap().bmap, Some("a.bmap".to_string()));
    assert!(worker_args(&args[..3].to_vec()).is_none());
    assert_eq!(
        worker_command_line(r"C:\Users\A B\os.img", "-", r"\\.\PhysicalDrive2", r"C:\t\p"),
        r#"flash-worker "C:\Users\A B\os.img" "-" "\\.\PhysicalDrive2" "C:\t\p""#
    );
}

#[test]
fn progress_is_reported_every_sixteen_mebibytes() {
    let mut p = ProgressCounter::new(100 * EMIT_EVERY_BYTES);
    assert_eq!(p.record(EMIT_EVERY_BYTES - 1), None);
    assert_eq!(p.record(1), Some((EMIT_EVERY_BYTES, 100 * EMIT_EVERY_BYTES)));
    assert_eq!(p.record(10), None);
    assert_eq!(p.written, EMIT_EVERY_BYTES + 10);
}

#[test]
fn raw_devices_unmount_their_whole_disk() {
    assert_eq!(unmount_target("/dev/rdisk4"), Some("/dev/disk4".to_string()));
    assert_eq!(unmount_target("/dev/disk4"), Some("/dev/disk4".to_string()));
    assert_eq!(unmount_target("/tmp/sim-disk.img"), None);
    assert_eq!(
        open_target_error("/dev/rdisk4", "busy"),
        "failed to open target '/dev/rdisk4': busy"
    );
}

#[test]
fn simulated_flash_steps() {
    assert_eq!(sim_progress(0), 0);
    assert_eq!(sim_progress(SIM_STEPS), SIM_TOTAL);
    assert_eq!(sim_progress(30), SIM_TOTAL / 2);
    assert_eq!(
        run_elevated(),
        Err("elevated flashing is only implemented for macOS and Windows".to_string())
    );
}

#[test]
fn finishing_pads_the_data_to_a_block() {
    let mut w = SectorWriter::new();
    w.write(&[1, 2, 3]);
    let n = w.block_len();
    assert_eq!(n, 0);
    w.pad_tail();
    assert_eq!(w.pending().len(), ALIGN);
    assert_eq!(&w.pending()[..3], &[1, 2, 3]);
    assert!(w.pending()[3..].iter().all(|b| *b == 0));
    let n = w.block_len();
    w.commit(n);
    assert!(w.pending().is_empty());
}
