use reachy_mini_flasher::check_url;
use reachy_mini_flasher::num::{parse_i32, parse_u16_hex, parse_u32, parse_u64, push_decimal, push_hex4, push_signed_decimal};
use reachy_mini_flasher::text::{chars_of, find, join_chars, lines_of, string_of, trim_chars};

fn cs(s: &str) -> Vec<char> {
    chars_of(s)
}

#[test]
fn only_web_urls_open() {
    assert_eq!(check_url("https://pollen-robotics.com"), Ok(()));
    assert_eq!(check_url("http://x"), Ok(()));
    assert_eq!(check_url("file:///etc/passwd"), Err("only http(s) URLs are allowed".to_string()));
    assert_eq!(check_url("HTTPS://x"), Err("only http(s) URLs are allowed".to_string()));
}

#[test]
fn numbers_parse_like_std() {
    assert_eq!(parse_u64(&cs("18446744073709551615")), Some(u64::MAX));
    assert_eq!(parse_u64(&cs("18446744073709551616")), None);
    assert_eq!(parse_u64(&cs("+7")), Some(7));
    assert_eq!(parse_u64(&cs("")), None);
    assert_eq!(parse_u64(&cs("-1")), None);
    assert_eq!(parse_u32(&cs("4294967296")), None);
    assert_eq!(parse_u16_hex(&cs("2aBc")), Some(0x2abc));
    assert_eq!(parse_i32(&cs("-2147483648")), Some(i32::MIN));
    assert_eq!(parse_i32(&cs("2147483648")), None);
}

#[test]
fn numbers_format_like_std() {
    let mut out = Vec::new();
    push_decimal(&mut out, 0);
    push_signed_decimal(&mut out, -42);
    push_hex4(&mut out, 0x0a5c);
    assert_eq!(string_of(&out), "0-42" .to_string() + "0a5c");
    for n in [0u64, 9, 10, 12345, u64::MAX] {
        let mut d = Vec::new();
        push_decimal(&mut d, n);
        assert_eq!(string_of(&d), n.to_string());
        assert_eq!(parse_u64(&d), Some(n));
    }
}

#[test]
fn text_helpers() {
    assert_eq!(string_of(&trim_chars(&cs("\u{3000} a b \n"))), "a b");
    assert_eq!(find(&cs("abcabc"), &cs("ca")), Some(2));
    assert_eq!(find(&cs("abc"), &cs("x")), None);
    let ls: Vec<String> = lines_of(&cs("a\r\nb\n\nc\n")).iter().map(string_of).collect();
    assert_eq!(ls, vec!["a", "b", "", "c"]);
    assert_eq!(string_of(&join_chars(&vec![cs("a"), cs("b")], &cs(" / "))), "a / b");
}
