use reachy_mini_flasher::images::{
    check_download_complete, check_range_length, chunk_range, chunk_retry_delay, find_bmap,
    is_bmap_file, is_image_name, is_stale, looks_like_corrupt_image, newest_local_image,
    num_chunks, purge_removes, range_header, range_status_error, release_files, release_info,
    report_due, total_from_content_range, CacheEntry, DL_CHUNK,
};

fn entry(name: &str, modified_nanos: i128) -> CacheEntry {
    CacheEntry { name: name.to_string(), path: format!("/cache/{name}"), modified_nanos }
}

#[test]
fn image_names() {
    assert!(is_image_name("ReachyMiniOS-1.2.IMG.GZ"));
    assert!(is_image_name("os.zip"));
    assert!(is_image_name("os.img"));
    assert!(!is_image_name("os.bmap"));
    assert!(!is_image_name("os.img.part"));
}

#[test]
fn corrupt_image_errors() {
    assert!(looks_like_corrupt_image("Invalid Zip archive: could not find EOCD"));
    assert!(looks_like_corrupt_image("corrupt deflate stream"));
    assert!(looks_like_corrupt_image("no .img entry inside the zip"));
    assert!(!looks_like_corrupt_image("Permission denied (os error 13)"));
    assert!(!looks_like_corrupt_image("failed to read bmap: Permission denied (os error 13)"));
    assert!(looks_like_corrupt_image("flash failed: Failed to Read: invalid gzip header"));
    assert!(looks_like_corrupt_image("flash failed: Failed to Read: stream ended early"));
}

#[test]
fn purge_and_refresh_choose_their_files() {
    assert!(purge_removes("os.img.gz"));
    assert!(purge_removes("os.img.gz.PART"));
    assert!(!purge_removes("os.bmap"));
    let keep = vec!["new.img.gz".to_string(), "new.bmap".to_string()];
    assert!(is_stale("old.img.gz", &keep));
    assert!(is_stale("old.bmap", &keep));
    assert!(is_stale("new.img.gz.part", &keep));
    assert!(!is_stale("new.img.gz", &keep));
    assert!(!is_stale("notes.txt", &keep));
}

#[test]
fn the_release_picks_gz_before_zip_and_its_bmap() {
    let body = r#"{"tag_name":"v1.2","assets":[
        {"name":"os.zip","browser_download_url":"https://x/os.zip"},
        {"name":"os.img.gz","browser_download_url":"https://x/os.img.gz"},
        {"name":"os.bmap","browser_download_url":"https://x/os.bmap"}]}"#;
    let rel = release_info(body).unwrap();
    assert_eq!(rel.version, "v1.2");
    assert_eq!(rel.img_name, "os.img.gz");
    assert_eq!(rel.img_url, "https://x/os.img.gz");
    assert_eq!(rel.bmap, Some(("os.bmap".to_string(), "https://x/os.bmap".to_string())));
    assert_eq!(release_files(&rel), vec!["os.img.gz".to_string(), "os.bmap".to_string()]);
}

#[test]
fn a_release_without_an_image_is_an_error() {
    let body = r#"{"assets":[{"name":"notes.txt","browser_download_url":"u"}]}"#;
    assert_eq!(
        release_info(body).err(),
        Some("no image asset (.img.gz/.zip/.img) found in the latest release".to_string())
    );
    let rel = release_info(r#"{"assets":[{"name":"a.IMG","browser_download_url":"u"}]}"#).unwrap();
    assert_eq!(rel.version, "latest");
    assert_eq!(rel.bmap, None);
    assert!(release_info("not json").is_err());
}

#[test]
fn downloads_are_cut_into_ranges_that_tile() {
    let total = 2 * DL_CHUNK + 5;
    assert_eq!(num_chunks(total), 3);
    assert_eq!(chunk_range(0, total), (0, DL_CHUNK - 1));
    assert_eq!(chunk_range(1, total), (DL_CHUNK, 2 * DL_CHUNK - 1));
    assert_eq!(chunk_range(2, total), (2 * DL_CHUNK, total - 1));
    assert_eq!(num_chunks(DL_CHUNK), 1);
    assert_eq!(num_chunks(0), 0);
    let mut covered = 0;
    for i in 0..num_chunks(12345) {
        let (s, e) = chunk_range(i, 12345);
        assert_eq!(s, covered);
        covered = e + 1;
    }
    assert_eq!(covered, 12345);
}

#[test]
fn range_requests_and_their_errors() {
    assert_eq!(range_header(0, 1023), "bytes=0-1023");
    assert_eq!(range_status_error(5, 9, "200 OK"), "expected 206 for range 5-9, got 200 OK");
    assert_eq!(check_range_length(5, 9, 5), Ok(()));
    assert_eq!(
        check_range_length(5, 9, 3),
        Err("range 5-9 truncated: expected 5 bytes, got 3".to_string())
    );
    assert_eq!(check_download_complete(0, 7), Ok(()));
    assert_eq!(check_download_complete(7, 7), Ok(()));
    assert_eq!(
        check_download_complete(7, 6),
        Err("download incomplete: expected 7 bytes, got 6. Please retry.".to_string())
    );
    assert_eq!(chunk_retry_delay(1), Some(300));
    assert_eq!(chunk_retry_delay(2), Some(600));
    assert_eq!(chunk_retry_delay(3), None);
    assert!(report_due(10, 0, 10));
    assert!(!report_due(19, 10, 10));
}

#[test]
fn the_total_comes_from_content_range() {
    assert_eq!(total_from_content_range(true, &Some("bytes 0-0/1024".to_string())), Some(1024));
    assert_eq!(total_from_content_range(true, &Some("bytes 0-0/*".to_string())), None);
    assert_eq!(total_from_content_range(false, &Some("bytes 0-0/1024".to_string())), None);
    assert_eq!(total_from_content_range(true, &None), None);
}

#[test]
fn the_newest_cached_image_and_its_bmap() {
    let entries = vec![
        entry("old.img.gz", 10),
        entry("os.BMAP", 1),
        entry("new.zip", 30),
        entry("tie.img", 30),
        entry("x.part", 99),
    ];
    let r = newest_local_image(&entries).unwrap();
    assert_eq!(r.image_path, "/cache/new.zip");
    assert_eq!(r.bmap_path, Some("/cache/os.BMAP".to_string()));
    assert!(newest_local_image(&vec![entry("x.part", 1)]).is_none());
    assert_eq!(find_bmap(&vec![entry(".bmap", 1), entry("a.txt", 1)]), None);
}

#[test]
fn bmap_files_by_extension() {
    assert!(is_bmap_file("a.BMap"));
    assert!(!is_bmap_file(".bmap"));
    assert!(!is_bmap_file("a.bmap.gz"));
    assert!(!is_bmap_file(".."));
}
