//! Verified core of the Reachy Mini flasher.
pub mod text;
pub mod num;
pub mod win_ps;
pub mod json;
pub mod win_volume;
pub mod win_driver;
pub mod detect;
pub mod disks;
pub mod images;
pub mod flash;
pub mod rpiboot;
pub mod sim;

use vstd::prelude::*;
use crate::text::{chars_of, starts_with, string_of};

verus! {

/// Only web pages may be opened in the browser, so that the request cannot launch local
/// programs: `Ok` for `http://` and `https://` URLs, an error for anything else.
pub fn check_url(url: &str) -> (res: Result<(), String>)
    ensures
        res is Ok <==> ("http://"@.is_prefix_of(url@) || "https://"@.is_prefix_of(url@)),
        res matches Err(m) ==> m@ == "only http(s) URLs are allowed"@,
{
    let u = chars_of(url);
    if starts_with(&u, &chars_of("http://")) || starts_with(&u, &chars_of("https://")) {
        Ok(())
    } else {
        Err(string_of(&chars_of("only http(s) URLs are allowed")))
    }
}

} // verus!
