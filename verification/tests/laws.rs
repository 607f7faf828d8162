use reachy_mini_flasher::win_ps::base64_encode;
use reachy_mini_flasher::flash::{flash_outcome, parse_progress, progress_line, worker_error, worker_verdict, FlashOutcome};
use reachy_mini_flasher::images::{is_stale, release_files, ReleaseInfo};
use reachy_mini_flasher::win_ps::{encode_command, quote, simplify};

/// Standard padded base64 decoding, written independently of the library.
fn unbase64(s: &str) -> Vec<u8> {
    let value = |c: u8| -> u32 {
        match c {
            b'A'..=b'Z' => (c - b'A') as u32,
            b'a'..=b'z' => (c - b'a' + 26) as u32,
            b'0'..=b'9' => (c - b'0' + 52) as u32,
            b'+' => 62,
            b'/' => 63,
            _ => 0,
        }
    };
    let mut out = Vec::new();
    for g in s.as_bytes().chunks(4) {
        let n = (value(g[0]) << 18) | (value(g[1]) << 12) | (value(g[2]) << 6) | value(g[3]);
        out.push((n >> 16) as u8);
        if g[2] != b'=' {
            out.push((n >> 8) as u8);
        }
        if g[3] != b'=' {
            out.push(n as u8);
        }
    }
    out
}

/// What PowerShell reads out of a single-quoted literal at the start of `t`.
fn ps_literal(t: &str) -> Option<(String, String)> {
    let cs: Vec<char> = t.chars().collect();
    if cs.first() != Some(&'\'') {
        return None;
    }
    let mut v = String::new();
    let mut i = 1;
    while i < cs.len() {
        if cs[i] == '\'' {
            if cs.get(i + 1) == Some(&'\'') {
                v.push('\'');
                i += 2;
                continue;
            }
            return Some((v, cs[i + 1..].iter().collect()));
        }
        v.push(cs[i]);
        i += 1;
    }
    None
}

#[test]
fn scripts_arrive_byte_for_byte() {
    for script in ["", "A", "\"a b\"", "Start-Process -FilePath 'C:\\O''Brien\\x.exe'", "caf\u{e9} \u{1F600}"] {
        let encoded = encode_command(script);
        assert!(encoded.chars().all(|c| c.is_ascii_alphanumeric() || c == '+' || c == '/' || c == '='));
        let bytes = unbase64(&encoded);
        let units: Vec<u16> = bytes.chunks(2).map(|p| u16::from_le_bytes([p[0], p[1]])).collect();
        assert_eq!(String::from_utf16(&units).unwrap(), script);
    }
}

#[test]
fn quoted_values_read_back_in_powershell() {
    for value in ["", "plain", "O'Brien", "''", "a'b'c'"] {
        let q = quote(value);
        assert_eq!(ps_literal(&(q.clone() + " -Verb RunAs")), Some((value.to_string(), " -Verb RunAs".to_string())));
    }
}

#[test]
fn device_paths_survive_simplify() {
    for p in [r"\\.\PhysicalDrive0", r"\\.\PhysicalDrive12\", r"\\.\C:"] {
        assert_eq!(simplify(p), p);
    }
}

#[test]
fn progress_and_verdicts_cross_the_process_boundary() {
    for (w, t) in [(0u64, 0u64), (1, 2), (16 * 1024 * 1024, 1_695_617_571), (u64::MAX, u64::MAX)] {
        assert_eq!(parse_progress(&progress_line(w, t)), Some((w, t)));
    }
    let (done, _) = worker_verdict(&Ok(()));
    assert!(matches!(flash_outcome(&done, Ok(false)), FlashOutcome::Done));
    for e in ["boom", "failed to open target '\\\\.\\PhysicalDrive2': Access is denied. (os error 5)", "x\r"] {
        let (text, _) = worker_verdict(&Err(e.to_string()));
        assert_eq!(worker_error(&text), e);
        match flash_outcome(&text, Ok(false)) {
            FlashOutcome::Failed { message, purge_cache } => {
                assert!(!purge_cache);
                assert_eq!(message, e);
            }
            FlashOutcome::Done => panic!("an error verdict is not done"),
        }
    }
}

#[test]
fn a_refresh_keeps_exactly_the_release() {
    let rel = ReleaseInfo {
        version: "v2".to_string(),
        img_name: "os-2.img.gz".to_string(),
        img_url: "u".to_string(),
        bmap: Some(("os-2.bmap".to_string(), "b".to_string())),
    };
    let keep = release_files(&rel);
    for name in ["os-2.img.gz", "os-2.bmap"] {
        assert!(!is_stale(name, &keep));
    }
    for name in ["os-1.img.gz", "os-1.bmap", "os-2.img.part", "old.zip"] {
        assert!(is_stale(name, &keep));
    }
}

#[test]
fn base64_has_the_standard_shape() {
    for n in 0..10usize {
        let input: Vec<u8> = (0..n as u8).map(|b| b.wrapping_mul(37)).collect();
        let out: String = base64_encode(&input).into_iter().collect();
        assert_eq!(out.len(), 4 * n.div_ceil(3));
        let pad = (3 - n % 3) % 3;
        assert!(out.ends_with(&"=".repeat(pad)));
        assert!(!out[..out.len() - pad].contains('='));
        assert_eq!(unbase64(&out), input);
    }
}

#[test]
fn quoted_values_have_the_documented_shape() {
    for s in ["", "plain", "O'Brien", "''", "$x 'y' z"] {
        let q = quote(s);
        assert_eq!(q.len(), s.len() + 2 + s.matches('\'').count());
        assert!(q.starts_with('\'') && q.ends_with('\''));
        assert_eq!(q[1..q.len() - 1].replace("''", "'"), s);
    }
}
