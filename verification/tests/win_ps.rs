use reachy_mini_flasher::json::Json;
use reachy_mini_flasher::win_ps::{
    capture_stem, captured_command, elevation_script, encode_command, json_array, output_tail,
    quote, run, run_elevated, simplify, ProcessOutput, DENIED,
};

/// The `n` member of a JSON object, as the text of its number.
fn n_of(v: &Json) -> String {
    match v {
        Json::Object(members) => {
            let found = members.iter().find(|(k, _)| k == "n").expect("object has an n");
            match &found.1 {
                Json::Number(t) => t.clone(),
                _ => panic!("n is not a number"),
            }
        }
        _ => panic!("not an object"),
    }
}

fn output(code: Option<i32>, stdout: &str, stderr: &str) -> ProcessOutput {
    ProcessOutput { code, stdout: stdout.as_bytes().to_vec(), stderr: stderr.as_bytes().to_vec() }
}

#[test]
fn keeps_the_last_meaningful_lines_of_output() {
    let out = "starting\n\nstep one\n   \nstep two\nfailed: no device\n";
    assert_eq!(output_tail(out, 2), "step two / failed: no device");
    assert_eq!(output_tail("only line", 4), "only line");
    assert_eq!(output_tail("", 4), "");
    assert_eq!(output_tail("\n  \n\n", 4), "");
}

#[test]
fn encodes_commands_as_utf16le_base64() {
    assert_eq!(encode_command("A"), "QQA=");
    assert_eq!(encode_command("AB"), "QQBCAA==");
    assert_eq!(encode_command("ABC"), "QQBCAEMA");
    assert_eq!(encode_command("\"a b\""), "IgBhACAAYgAiAA==");
}

#[test]
fn strips_the_verbatim_prefix() {
    assert_eq!(simplify(r"\\?\C:\Program Files\app\rpiboot.exe"), r"C:\Program Files\app\rpiboot.exe");
    assert_eq!(simplify(r"\\?\UNC\srv\share\x"), r"\\srv\share\x");
    assert_eq!(simplify(r"\\.\PhysicalDrive1"), r"\\.\PhysicalDrive1");
    assert_eq!(simplify(r"C:\plain\path"), r"C:\plain\path");
}

#[test]
fn quotes_and_escapes_paths() {
    assert_eq!(quote(r"C:\Program Files\rpiboot.exe"), r"'C:\Program Files\rpiboot.exe'");
    assert_eq!(quote(r"C:\Users\O'Brien\app.exe"), r"'C:\Users\O''Brien\app.exe'");
}

#[test]
fn accepts_both_powershell_json_shapes() {
    let rows = json_array(r#"[{"n":1},{"n":2}]"#, "test").unwrap();
    assert_eq!(rows.iter().map(n_of).collect::<Vec<_>>(), vec!["1".to_string(), "2".to_string()]);
    let rows = json_array(r#"{"n":7}"#, "test").unwrap();
    assert_eq!(rows.iter().map(n_of).collect::<Vec<_>>(), vec!["7".to_string()]);
    assert!(json_array("", "test").unwrap().is_empty());
    assert!(json_array("null", "test").unwrap().is_empty());
}

#[test]
fn malformed_json_names_the_operation() {
    let e = json_array("{oops", "disk list").unwrap_err();
    assert!(e.starts_with("failed to parse disk list JSON: "));
}

#[test]
fn encoded_command_of_a_non_ascii_script() {
    // U+00E9 is one UTF-16 unit (E9 00), U+1F600 a surrogate pair (3D D8 00 DE).
    assert_eq!(encode_command("\u{e9}"), "6QA=");
    assert_eq!(encode_command("\u{1F600}"), "PdgA3g==");
    assert_eq!(encode_command(""), "");
}

#[test]
fn a_quoted_value_with_a_quote_reads_back() {
    assert_eq!(quote("it's"), "'it''s'");
    assert_eq!(quote(""), "''");
    assert_eq!(quote("''"), "''''''");
}

#[test]
fn powershell_runs_report_stdout_or_stderr() {
    assert_eq!(run("disk list", Ok(output(Some(0), "[1]\n", ""))), Ok("[1]\n".to_string()));
    assert_eq!(
        run("disk list", Ok(output(Some(1), "", "  access denied \n"))),
        Err("disk list failed: access denied".to_string())
    );
    assert_eq!(
        run("disk list", Err("not found".to_string())),
        Err("failed to run powershell for disk list: not found".to_string())
    );
}

#[test]
fn elevated_runs_read_the_reported_exit_code() {
    assert_eq!(run_elevated(Ok(output(Some(0), "noise\nEXIT=0\n", ""))), Ok(0));
    assert_eq!(run_elevated(Ok(output(Some(0), "EXIT=3\r\nEXIT=-2\n", ""))), Ok(-2));
    assert_eq!(run_elevated(Ok(output(Some(1223), "", ""))), Err(DENIED.to_string()));
    assert_eq!(
        run_elevated(Ok(output(Some(0), " nothing \n", ""))),
        Err("the elevated helper did not report an exit code: nothing".to_string())
    );
    assert_eq!(
        run_elevated(Ok(output(Some(1), "", " boom "))),
        Err("the elevated helper could not be started: boom".to_string())
    );
    assert_eq!(
        run_elevated(Ok(output(Some(1), "", ""))),
        Err("the elevated helper could not be started".to_string())
    );
    assert_eq!(run_elevated(Ok(output(None, "", ""))), Err("the elevated helper was terminated".to_string()));
    assert_eq!(
        run_elevated(Err("no shell".to_string())),
        Err("failed to request administrator privileges: no shell".to_string())
    );
}

#[test]
fn the_elevation_shim_quotes_its_paths() {
    let s = elevation_script(r"\\?\C:\O'Brien\rpiboot.exe", r#"-d "C:\a b""#, None);
    assert!(s.starts_with("$ErrorActionPreference='Stop'; try { $p = Start-Process -FilePath 'C:\\O''Brien\\rpiboot.exe' -Verb RunAs -WindowStyle Hidden -Wait -PassThru -ArgumentList '-d \"C:\\a b\"'"));
    assert!(s.ends_with("exit 0"));
    let s = elevation_script(r"C:\x.exe", "", Some(r"C:\work"));
    assert!(s.contains("-PassThru -WorkingDirectory 'C:\\work' } catch"));
}

#[test]
fn captured_commands_redirect_into_the_file() {
    assert_eq!(
        captured_command(r"\\?\C:\wdi.exe", "-n x", r"C:\t\out.txt"),
        r#"/c ""C:\wdi.exe" -n x > "C:\t\out.txt" 2>&1""#
    );
    assert_eq!(capture_stem("driver install!"), "driver-install-");
}
