//! The ReachyMiniOS image: which files in the cache count as images, which release asset
//! to fetch, how a download is cut into ranges, and when a download or a flash error
//! calls for a fresh copy.
use vstd::prelude::*;
use crate::json::{get, json_reading, lookup, parse_json, text_of, Json};
use crate::num::{decimal, parse_u64, parse_unsigned, push_decimal};
use crate::text::{
    ascii_text,
    chars_of, contains, ends_with, eq_ascii_fold, eq_ignore_ascii_case, extend_str, has_infix,
    string_of, to_lowercase, trim, trim_chars, lower_case,
};

verus! {

/// The image to flash, and its block map when there is one.
pub struct ResolvedImage {
    pub image_path: String,
    pub bmap_path: Option<String>,
}

/// A file name that, lower-cased, ends in `.img`, `.img.gz` or `.zip`.
pub open spec fn image_name(name: Seq<char>) -> bool {
    let n = lower_case(name);
    ".img"@.is_suffix_of(n) || ".img.gz"@.is_suffix_of(n) || ".zip"@.is_suffix_of(n)
}

/// Whether a file name is that of an OS image.
pub fn is_image_name(name: &str) -> (res: bool)
    ensures
        res == image_name(name@),
{
    let n = to_lowercase(name);
    ends_with(&n, &chars_of(".img")) || ends_with(&n, &chars_of(".img.gz")) || ends_with(
        &n,
        &chars_of(".zip"),
    )
}

/// A flash error whose lower-cased text names a corrupt or truncated image. A read of the
/// image stream that failed (`Failed to Read: ...` from the copy) counts; a block map that
/// could not be read (`failed to read bmap: ...`, a permission or hardware problem) does not.
pub open spec fn corrupt_image_error(err: Seq<char>) -> bool {
    let e = lower_case(err);
    ||| has_infix(e, "corrupt"@)
    ||| has_infix(e, "deflate"@)
    ||| has_infix(e, "inflate"@)
    ||| has_infix(e, "failed to read:"@)
    ||| has_infix(e, "checksum"@)
    ||| has_infix(e, "unexpected eof"@)
    ||| has_infix(e, "eocd"@)
    ||| has_infix(e, "central directory"@)
    ||| has_infix(e, "invalid zip"@)
    ||| has_infix(e, "invalid gzip"@)
    ||| has_infix(e, "no .img entry"@)
}

/// A failed checksum verification means a corrupt image: any ASCII error text that
/// mentions `checksum`, in any case, is taken as a corrupt image (so the cache is purged).
pub proof fn lemma_checksum_errors_are_corruption(e: Seq<char>, x: Seq<char>)
    requires
        ascii_text(e),
        has_infix(e, x),
        eq_ascii_fold(x, "checksum"@),
    ensures
        corrupt_image_error(e),
{
    reveal_strlit("checksum");
    let c = "checksum"@;
    crate::text::lemma_lower_keeps_infix(e, x);
    assert(ascii_text(c));
    crate::text::lemma_fold_same_lower(x, c);
    crate::text::lemma_lowered(c, c);
}

/// What the image copy reports when the image itself is bad - a failed checksum
/// (`Checksum error`), a stream that ends early (`Unexpected EOF on input`) or a read of
/// the image that fails (`Failed to Read: ...`) - is taken as a corrupt image wherever it
/// stands in an ASCII error text.
pub proof fn lemma_copy_errors_are_corruption(e: Seq<char>)
    requires
        ascii_text(e),
    ensures
        has_infix(e, "Checksum error"@) ==> corrupt_image_error(e),
        has_infix(e, "Unexpected EOF on input"@) ==> corrupt_image_error(e),
        has_infix(e, "Failed to Read: "@) ==> corrupt_image_error(e),
{
    reveal_strlit("Checksum error");
    reveal_strlit("checksum error");
    reveal_strlit("checksum");
    reveal_strlit("Unexpected EOF on input");
    reveal_strlit("unexpected eof on input");
    reveal_strlit("unexpected eof");
    reveal_strlit("Failed to Read: ");
    reveal_strlit("failed to read: ");
    reveal_strlit("failed to read:");
    if has_infix(e, "Checksum error"@) {
        crate::text::lemma_lower_keeps_infix(e, "Checksum error"@);
        crate::text::lemma_lowered("Checksum error"@, "checksum error"@);
        assert(has_infix("checksum error"@, "checksum"@)) by {
            assert("checksum error"@.subrange(0, 0 + "checksum"@.len() as int) =~= "checksum"@);
        }
        crate::text::lemma_infix_trans(lower_case(e), "checksum error"@, "checksum"@);
    }
    if has_infix(e, "Unexpected EOF on input"@) {
        crate::text::lemma_lower_keeps_infix(e, "Unexpected EOF on input"@);
        crate::text::lemma_lowered("Unexpected EOF on input"@, "unexpected eof on input"@);
        assert(has_infix("unexpected eof on input"@, "unexpected eof"@)) by {
            assert("unexpected eof on input"@.subrange(0, 0 + "unexpected eof"@.len() as int) =~= "unexpected eof"@);
        }
        crate::text::lemma_infix_trans(lower_case(e), "unexpected eof on input"@, "unexpected eof"@);
    }
    if has_infix(e, "Failed to Read: "@) {
        crate::text::lemma_lower_keeps_infix(e, "Failed to Read: "@);
        crate::text::lemma_lowered("Failed to Read: "@, "failed to read: "@);
        assert(has_infix("failed to read: "@, "failed to read:"@)) by {
            assert("failed to read: "@.subrange(0, 0 + "failed to read:"@.len() as int) =~= "failed to read:"@);
        }
        crate::text::lemma_infix_trans(lower_case(e), "failed to read: "@, "failed to read:"@);
    }
}

/// Whether a flash error looks like a corrupt/truncated image (as opposed to a
/// hardware/permission problem), meaning re-downloading is worth trying.
pub fn looks_like_corrupt_image(err: &str) -> (res: bool)
    ensures
        res == corrupt_image_error(err@),
{
    let e = to_lowercase(err);
    contains(&e, &chars_of("corrupt")) || contains(&e, &chars_of("deflate")) || contains(
        &e,
        &chars_of("inflate"),
    ) || contains(&e, &chars_of("failed to read:")) || contains(&e, &chars_of("checksum"))
        || contains(&e, &chars_of("unexpected eof")) || contains(&e, &chars_of("eocd"))
        || contains(&e, &chars_of("central directory")) || contains(&e, &chars_of("invalid zip"))
        || contains(&e, &chars_of("invalid gzip")) || contains(&e, &chars_of("no .img entry"))
}

/// A cached file that a purge removes: an image or a partial download.
pub open spec fn purgeable(name: Seq<char>) -> bool {
    let n = lower_case(name);
    image_name(n) || ".part"@.is_suffix_of(n)
}

/// A purge removes exactly the cached images and partial downloads: an ASCII file name is
/// purged when, in any case, it ends in `.img`, `.img.gz`, `.zip` or `.part`, and no other.
/// In particular every file that counts as an image is purged.
pub proof fn lemma_purge_takes_every_image(name: Seq<char>)
    requires
        ascii_text(name),
    ensures
        purgeable(name) <==> (".img"@.is_suffix_of(lower_case(name)) || ".img.gz"@.is_suffix_of(
            lower_case(name),
        ) || ".zip"@.is_suffix_of(lower_case(name)) || ".part"@.is_suffix_of(lower_case(name))),
        image_name(name) ==> purgeable(name),
        purgeable(name) ==> image_name(name) || ".part"@.is_suffix_of(lower_case(name)),
{
    crate::text::lemma_lower_case_ascii(name);
}

/// Whether the purge of a corrupt image removes the cached file `name`. The small `.bmap`
/// is left in place.
pub fn purge_removes(name: &str) -> (res: bool)
    ensures
        res == purgeable(name@),
{
    let n = to_lowercase(name);
    let lower = string_of(&n);
    is_image_name(lower.as_str()) || ends_with(&n, &chars_of(".part"))
}

/// A cached file that a refresh removes: not one of the current release's assets, and an
/// image, a block map or a partial download.
pub open spec fn stale(name: Seq<char>, keep: Seq<Seq<char>>) -> bool {
    !keep.contains(name) && (image_name(name) || ".bmap"@.is_suffix_of(lower_case(name))
        || ".part"@.is_suffix_of(name))
}

/// Whether refreshing the cache to the release whose assets are `keep` removes `name`.
pub fn is_stale(name: &str, keep: &Vec<String>) -> (res: bool)
    ensures
        res == stale(name@, keep@.map_values(|k: String| k@)),
{
    let ghost kept = keep@.map_values(|k: String| k@);
    let mut i: usize = 0;
    while i < keep.len()
        invariant
            i <= keep.len(),
            kept == keep@.map_values(|k: String| k@),
            forall|j: int| 0 <= j < i ==> kept[j] != name@,
        decreases keep.len() - i,
    {
        if crate::text::str_eq(keep[i].as_str(), name) {
            assert(kept[i as int] == name@);
            return false;
        }
        i = i + 1;
    }
    assert(!kept.contains(name@));
    let cs = chars_of(name);
    is_image_name(name) || ends_with(&to_lowercase(name), &chars_of(".bmap")) || ends_with(
        &cs,
        &chars_of(".part"),
    )
}


/// A refresh leaves the cache holding exactly the current release's assets among its
/// images, block maps and partial downloads: a file of the release is never removed, and
/// any other such file is.
pub proof fn lemma_refresh_keeps_only_the_release(keep: Seq<Seq<char>>, name: Seq<char>)
    ensures
        keep.contains(name) ==> !stale(name, keep),
        (image_name(name) || ".bmap"@.is_suffix_of(lower_case(name)) || ".part"@.is_suffix_of(
            name,
        )) ==> (stale(name, keep) <==> !keep.contains(name)),
{
}

/// What the latest GitHub release ships: version tag, the image asset, and an optional
/// `.bmap` asset, each as (name, download URL).
pub struct ReleaseInfo {
    pub version: String,
    pub img_name: String,
    pub img_url: String,
    pub bmap: Option<(String, String)>,
}

/// An asset's name and download URL, when both are strings.
pub open spec fn asset_link(a: Json) -> Option<(Seq<char>, Seq<char>)> {
    match (text_of(lookup(a, "name"@)), text_of(lookup(a, "browser_download_url"@))) {
        (Some(n), Some(u)) => Some((n, u)),
        _ => None,
    }
}

/// The first asset with a name and a URL whose lower-cased name ends in `suffix`.
pub open spec fn first_asset(assets: Seq<Json>, suffix: Seq<char>) -> Option<(Seq<char>, Seq<char>)>
    decreases assets.len(),
{
    if assets.len() == 0 {
        None
    } else {
        match asset_link(assets[0]) {
            Some(p) => if suffix.is_suffix_of(lower_case(p.0)) {
                Some(p)
            } else {
                first_asset(assets.drop_first(), suffix)
            },
            None => first_asset(assets.drop_first(), suffix),
        }
    }
}

/// The release's assets; none when the document has no `assets` array.
pub open spec fn release_assets(doc: Json) -> Seq<Json> {
    match lookup(doc, "assets"@) {
        Some(Json::Array(a)) => a@,
        _ => seq![],
    }
}

/// The release's tag, `latest` when it has none.
pub open spec fn release_version(doc: Json) -> Seq<char> {
    match text_of(lookup(doc, "tag_name"@)) {
        Some(t) => t,
        None => "latest"@,
    }
}

/// The image asset to download: a `.img.gz`, else a `.zip`, else a plain `.img`.
pub open spec fn image_asset(doc: Json) -> Option<(Seq<char>, Seq<char>)> {
    let assets = release_assets(doc);
    match first_asset(assets, ".img.gz"@) {
        Some(p) => Some(p),
        None => match first_asset(assets, ".zip"@) {
            Some(p) => Some(p),
            None => first_asset(assets, ".img"@),
        },
    }
}

/// `info` describes the release document `doc`.
pub open spec fn release_of(info: ReleaseInfo, doc: Json) -> bool {
    &&& info.version@ == release_version(doc)
    &&& image_asset(doc) == Some((info.img_name@, info.img_url@))
    &&& first_asset(release_assets(doc), ".bmap"@) == match info.bmap {
        Some(b) => Some((b.0@, b.1@)),
        None => None,
    }
}

/// The error when the release has no image asset.
pub open spec fn no_image_asset() -> Seq<char> {
    "no image asset (.img.gz/.zip/.img) found in the latest release"@
}

fn asset_pair(a: &Json) -> (res: Option<(String, String)>)
    ensures
        match res {
            Some(p) => asset_link(*a) == Some((p.0@, p.1@)),
            None => asset_link(*a) is None,
        },
{
    let name = match get(a, "name") {
        Some(Json::Str(n)) => n.clone(),
        _ => return None,
    };
    let url = match get(a, "browser_download_url") {
        Some(Json::Str(u)) => u.clone(),
        _ => return None,
    };
    Some((name, url))
}

/// The first asset with a name and a URL whose lower-cased name ends in `suffix`.
pub fn pick_asset(assets: &Vec<Json>, suffix: &str) -> (res: Option<(String, String)>)
    ensures
        match res {
            Some(p) => first_asset(assets@, suffix@) == Some((p.0@, p.1@)),
            None => first_asset(assets@, suffix@) is None,
        },
{
    let suf = chars_of(suffix);
    let mut i: usize = 0;
    assert(assets@.skip(0) == assets@);
    while i < assets.len()
        invariant
            i <= assets.len(),
            suf@ == suffix@,
            first_asset(assets@, suffix@) == first_asset(assets@.skip(i as int), suffix@),
        decreases assets.len() - i,
    {
        let ghost rest = assets@.skip(i as int);
        assert(rest.drop_first() == assets@.skip(i + 1));
        assert(rest[0] == assets@[i as int]);
        match asset_pair(&assets[i]) {
            Some(p) => {
                if ends_with(&to_lowercase(p.0.as_str()), &suf) {
                    return Some(p);
                }
            },
            None => {},
        }
        i = i + 1;
    }
    None
}

/// Picks the image (and block map) assets out of a release document.
pub fn release_from(doc: &Json) -> (res: Result<ReleaseInfo, String>)
    ensures
        match res {
            Ok(info) => release_of(info, *doc),
            Err(e) => image_asset(*doc) is None && e@ == no_image_asset(),
        },
{
    let version = match get(doc, "tag_name") {
        Some(Json::Str(t)) => t.clone(),
        _ => string_of(&chars_of("latest")),
    };
    let empty: Vec<Json> = Vec::new();
    let assets: &Vec<Json> = match get(doc, "assets") {
        Some(Json::Array(a)) => a,
        _ => &empty,
    };
    assert(assets@ == release_assets(*doc));
    let img = match pick_asset(assets, ".img.gz") {
        Some(p) => Some(p),
        None => match pick_asset(assets, ".zip") {
            Some(p) => Some(p),
            None => pick_asset(assets, ".img"),
        },
    };
    match img {
        None => Err(string_of(&chars_of("no image asset (.img.gz/.zip/.img) found in the latest release"))),
        Some((img_name, img_url)) => {
            let bmap = pick_asset(assets, ".bmap");
            Ok(ReleaseInfo { version, img_name, img_url, bmap })
        },
    }
}

/// What the releases API's answer `body` yields: the release, or why not.
pub open spec fn release_answer(body: Seq<char>, res: Result<ReleaseInfo, String>) -> bool {
    match json_reading(body) {
        Err(e) => res matches Err(m) && m@ == e,
        Ok(doc) => match res {
            Ok(info) => release_of(info, doc),
            Err(m) => image_asset(doc) is None && m@ == no_image_asset(),
        },
    }
}

/// Reads the latest-release answer of the GitHub API and picks its assets.
pub fn release_info(body: &str) -> (res: Result<ReleaseInfo, String>)
    ensures
        release_answer(body@, res),
{
    match parse_json(body) {
        Err(e) => Err(e),
        Ok(doc) => release_from(&doc),
    }
}

/// The cached files that make up `rel`: its image, and its block map when it has one.
pub fn release_files(rel: &ReleaseInfo) -> (res: Vec<String>)
    ensures
        res@.map_values(|k: String| k@) == match rel.bmap {
            Some(b) => seq![rel.img_name@, b.0@],
            None => seq![rel.img_name@],
        },
{
    let mut keep: Vec<String> = Vec::new();
    keep.push(rel.img_name.clone());
    match &rel.bmap {
        Some(b) => keep.push(b.0.clone()),
        None => {},
    }
    assert(keep@.map_values(|k: String| k@) =~= match rel.bmap {
        Some(b) => seq![rel.img_name@, b.0@],
        None => seq![rel.img_name@],
    });
    keep
}


/// Size of one ranged download request.
pub const DL_CHUNK: u64 = 16 * 1024 * 1024;

/// How many times one range is tried before the download fails.
pub const DL_CHUNK_RETRIES: u32 = 3;

/// Number of ranges a download of `total` bytes is cut into: `total / DL_CHUNK`, rounded
/// up (`u64::div_ceil`).
pub open spec fn chunk_count(total: nat) -> nat {
    if total % (DL_CHUNK as nat) == 0 {
        total / (DL_CHUNK as nat)
    } else {
        total / (DL_CHUNK as nat) + 1
    }
}

/// First byte of range `idx`.
pub open spec fn chunk_start(idx: nat) -> nat {
    (idx * DL_CHUNK) as nat
}

/// Last byte of range `idx` of a `total`-byte download.
pub open spec fn chunk_end(idx: nat, total: nat) -> nat {
    if chunk_start(idx) + DL_CHUNK <= total {
        (chunk_start(idx) + DL_CHUNK - 1) as nat
    } else {
        (total - 1) as nat
    }
}

proof fn lemma_chunk_count(total: nat)
    ensures
        total > 0 ==> chunk_count(total) >= 1 && (chunk_count(total) - 1) * DL_CHUNK < total,
        total <= chunk_count(total) * DL_CHUNK,
        chunk_count(total) <= total,
        forall|i: nat| i < chunk_count(total) ==> #[trigger] (i * DL_CHUNK) < total,
{
    let c = DL_CHUNK as int;
    let q = total / (DL_CHUNK as nat);
    let r = total % (DL_CHUNK as nat);
    vstd::arithmetic::div_mod::lemma_fundamental_div_mod(total as int, c);
    vstd::arithmetic::div_mod::lemma_mod_pos_bound(total as int, c);
    let n = chunk_count(total);
    assert(total <= n * c && n <= total && (total > 0 ==> n >= 1 && (n - 1) * c < total)) by (nonlinear_arith)
        requires
            total == c * q + r,
            0 <= r < c,
            c == 16777216,
            q >= 0,
            r == 0 ==> n == q,
            r != 0 ==> n == q + 1,
    ;
    assert forall|i: nat| i < n implies #[trigger] (i * DL_CHUNK) < total by {
        assert(i * c < total) by (nonlinear_arith)
            requires
                total == c * q + r,
                0 <= r < c,
                c > 0,
                r == 0 ==> i + 1 <= q,
                r != 0 ==> i <= q,
        ;
    }
}

/// Number of ranges a download of `total` bytes is cut into (`total.div_ceil(DL_CHUNK)`).
pub fn num_chunks(total: u64) -> (res: u64)
    ensures
        res == chunk_count(total as nat),
{
    let q = total / DL_CHUNK;
    assert(q <= total);
    if total % DL_CHUNK == 0 {
        q
    } else {
        assert(q < total) by (nonlinear_arith)
            requires
                q == total / 16777216,
                total % 16777216 != 0,
        ;
        q + 1
    }
}

/// The inclusive byte range of chunk `idx`.
pub fn chunk_range(idx: u64, total: u64) -> (res: (u64, u64))
    requires
        idx < chunk_count(total as nat),
    ensures
        res.0 == chunk_start(idx as nat),
        res.1 == chunk_end(idx as nat, total as nat),
        res.0 <= res.1 < total,
{
    proof {
        lemma_chunk_count(total as nat);
        assert(((idx as nat) * DL_CHUNK) < total);
    }
    let start = idx * DL_CHUNK;
    if total - start >= DL_CHUNK {
        (start, start + DL_CHUNK - 1)
    } else {
        (start, total - 1)
    }
}

/// Total length of ranges `0..n` of a `total`-byte download.
pub open spec fn chunks_length(n: nat, total: nat) -> nat
    decreases n,
{
    if n == 0 {
        0
    } else {
        chunks_length((n - 1) as nat, total) + (chunk_end((n - 1) as nat, total) + 1 - chunk_start(
            (n - 1) as nat,
        )) as nat
    }
}

/// The ranges of a download cover it exactly: range `i + 1` starts right after range `i`
/// ends, the first starts at byte 0, the last ends at the last byte, and their lengths add
/// up to the total - so a download whose ranges all arrived is complete.
pub proof fn lemma_chunks_tile(total: nat)
    requires
        total > 0,
    ensures
        chunk_start(0) == 0,
        chunk_end((chunk_count(total) - 1) as nat, total) == total - 1,
        forall|i: nat| i + 1 < chunk_count(total) ==> chunk_end(i, total) + 1 == chunk_start(i + 1),
        chunks_length(chunk_count(total), total) == total,
{
    lemma_chunk_count(total);
    let n = chunk_count(total);
    assert forall|i: nat| i + 1 < n implies chunk_end(i, total) + 1 == chunk_start(i + 1) by {
        assert(((i + 1) as nat * DL_CHUNK) < total);
        assert((i + 1) * DL_CHUNK == i * DL_CHUNK + DL_CHUNK) by (nonlinear_arith);
    }
    let last = (n - 1) as nat;
    assert(last * DL_CHUNK + DL_CHUNK == n * DL_CHUNK) by (nonlinear_arith)
        requires
            last + 1 == n,
    ;
    lemma_chunks_length(n, total);
}

proof fn lemma_chunks_length(k: nat, total: nat)
    requires
        k <= chunk_count(total),
        total > 0,
    ensures
        chunks_length(k, total) as int == if k * DL_CHUNK <= total {
            k * DL_CHUNK
        } else {
            total as int
        },
    decreases k,
{
    lemma_chunk_count(total);
    if k > 0 {
        let j = (k - 1) as nat;
        lemma_chunks_length(j, total);
        assert((j * DL_CHUNK) < total);
        assert(j * DL_CHUNK + DL_CHUNK == k * DL_CHUNK) by (nonlinear_arith)
            requires
                j + 1 == k,
        ;
        assert(chunk_start(j) == j * DL_CHUNK);
        assert(chunks_length(j, total) == j * DL_CHUNK);
        assert(chunks_length(k, total) == chunks_length(j, total) + (chunk_end(j, total) + 1
            - chunk_start(j)) as nat);
    } else {
        assert(0 * DL_CHUNK == 0);
    }
}

/// Whether a failed attempt `attempt` (counted from 1) at a range is retried, and after how
/// many milliseconds.
pub fn chunk_retry_delay(attempt: u32) -> (res: Option<u64>)
    requires
        attempt >= 1,
    ensures
        attempt >= DL_CHUNK_RETRIES ==> res is None,
        attempt < DL_CHUNK_RETRIES ==> res == Some((300 * attempt) as u64),
{
    if attempt >= DL_CHUNK_RETRIES {
        None
    } else {
        Some(300 * attempt as u64)
    }
}

/// `from-to`, the way the range requests and their errors write a range.
pub open spec fn range_text(start: u64, end: u64) -> Seq<char> {
    decimal(start as nat) + "-"@ + decimal(end as nat)
}

/// The `Range` request header value for a range.
pub fn range_header(start: u64, end: u64) -> (res: String)
    ensures
        res@ == "bytes="@ + range_text(start, end),
{
    let mut out: Vec<char> = Vec::new();
    extend_str(&mut out, "bytes=");
    push_decimal(&mut out, start);
    extend_str(&mut out, "-");
    push_decimal(&mut out, end);
    assert(out@ =~= "bytes="@ + range_text(start, end));
    string_of(&out)
}

/// The error for a range request that the server answered with `status` instead of 206.
pub fn range_status_error(start: u64, end: u64, status: &str) -> (res: String)
    ensures
        res@ == "expected 206 for range "@ + range_text(start, end) + ", got "@ + status@,
{
    let mut out: Vec<char> = Vec::new();
    extend_str(&mut out, "expected 206 for range ");
    push_decimal(&mut out, start);
    extend_str(&mut out, "-");
    push_decimal(&mut out, end);
    extend_str(&mut out, ", got ");
    extend_str(&mut out, status);
    assert(out@ =~= "expected 206 for range "@ + range_text(start, end) + ", got "@ + status@);
    string_of(&out)
}

/// Checks that a range arrived whole.
pub fn check_range_length(start: u64, end: u64, written: u64) -> (res: Result<(), String>)
    requires
        start <= end < u64::MAX,
    ensures
        written == end - start + 1 ==> res is Ok,
        written != end - start + 1 ==> (res matches Err(e) && e@ == "range "@ + range_text(
            start,
            end,
        ) + " truncated: expected "@ + decimal((end - start + 1) as nat) + " bytes, got "@
            + decimal(written as nat)),
{
    let expected = end - start + 1;
    if written != expected {
        let mut out: Vec<char> = Vec::new();
        extend_str(&mut out, "range ");
        push_decimal(&mut out, start);
        extend_str(&mut out, "-");
        push_decimal(&mut out, end);
        extend_str(&mut out, " truncated: expected ");
        push_decimal(&mut out, expected);
        extend_str(&mut out, " bytes, got ");
        push_decimal(&mut out, written);
        assert(out@ =~= "range "@ + range_text(start, end) + " truncated: expected "@ + decimal(
            (end - start + 1) as nat,
        ) + " bytes, got "@ + decimal(written as nat));
        return Err(string_of(&out));
    }
    Ok(())
}

/// The error for a download that ended short of (or past) its announced size.
pub open spec fn incomplete_message(total: u64, got: u64) -> Seq<char> {
    "download incomplete: expected "@ + decimal(total as nat) + " bytes, got "@ + decimal(got as nat)
        + ". Please retry."@
}

/// Checks a finished download against its announced size; an unknown size (0) accepts
/// anything.
pub fn check_download_complete(total: u64, got: u64) -> (res: Result<(), String>)
    ensures
        (total == 0 || got == total) ==> res is Ok,
        (total > 0 && got != total) ==> (res matches Err(e) && e@ == incomplete_message(total, got)),
{
    if total > 0 && got != total {
        let mut out: Vec<char> = Vec::new();
        extend_str(&mut out, "download incomplete: expected ");
        push_decimal(&mut out, total);
        extend_str(&mut out, " bytes, got ");
        push_decimal(&mut out, got);
        extend_str(&mut out, ". Please retry.");
        assert(out@ =~= incomplete_message(total, got));
        return Err(string_of(&out));
    }
    Ok(())
}

/// Whether a progress report is due: `every` bytes or more since the last one.
pub fn report_due(done: u64, last_report: u64, every: u64) -> (res: bool)
    requires
        last_report <= done,
    ensures
        res == (done - last_report >= every),
{
    done - last_report >= every
}

/// The part of `s` after its last `/` (all of `s` when it has none).
pub open spec fn after_last_slash(s: Seq<char>) -> Seq<char>
    decreases s.len(),
{
    if s.len() == 0 {
        s
    } else if s.last() == '/' {
        seq![]
    } else {
        after_last_slash(s.drop_last()).push(s.last())
    }
}

/// The total size announced by a ranged reply: the number after the last `/` of its
/// `Content-Range` (`bytes 0-0/1695617571`), when the reply is a 206 and that number is a
/// positive `u64`.
pub open spec fn announced_total(partial: bool, content_range: Option<String>) -> Option<nat> {
    if !partial {
        None
    } else {
        match content_range {
            None => None,
            Some(cr) => match parse_unsigned(trim(after_last_slash(cr@)), 10, u64::MAX as nat) {
                Some(t) => if t > 0 {
                    Some(t)
                } else {
                    None
                },
                None => None,
            },
        }
    }
}

/// Reads the asset size out of the reply to a one-byte ranged probe; `None` when the server
/// ignored the range (`partial` false), sent no usable `Content-Range`, or announced 0.
pub fn total_from_content_range(partial: bool, content_range: &Option<String>) -> (res: Option<u64>)
    ensures
        match res {
            Some(t) => announced_total(partial, *content_range) == Some(t as nat),
            None => announced_total(partial, *content_range) is None,
        },
{
    if !partial {
        return None;
    }
    let cr = match content_range {
        Some(c) => chars_of(c.as_str()),
        None => return None,
    };
    let mut k = cr.len();
    assert(cr@.subrange(0, k as int) == cr@);
    while k > 0 && cr[k - 1] != '/'
        invariant
            k <= cr.len(),
            after_last_slash(cr@) == after_last_slash(cr@.subrange(0, k as int)) + cr@.subrange(
                k as int,
                cr@.len() as int,
            ),
        decreases k,
    {
        let ghost pre = cr@.subrange(0, k as int);
        assert(pre.drop_last() == cr@.subrange(0, k - 1));
        assert(cr@.subrange(k - 1, cr@.len() as int) =~= seq![cr@[k - 1]] + cr@.subrange(
            k as int,
            cr@.len() as int,
        ));
        assert(after_last_slash(pre) == after_last_slash(pre.drop_last()).push(cr@[k - 1]));
        k = k - 1;
    }
    if k > 0 {
        let ghost pre = cr@.subrange(0, k as int);
        assert(pre.last() == '/');
        assert(after_last_slash(pre) =~= Seq::<char>::empty());
    } else {
        assert(cr@.subrange(0, 0) =~= Seq::<char>::empty());
    }
    let tail = crate::text::copy_range(&cr, k, cr.len());
    assert(tail@ =~= after_last_slash(cr@));
    match parse_u64(&trim_chars(&tail)) {
        Some(t) => if t > 0 {
            Some(t)
        } else {
            None
        },
        None => None,
    }
}


/// Version reported in simulation mode (no real OS is written).
pub const SIM_OS_VERSION: &'static str = "1.8.4";

/// A file found in the image cache: its name, its full path, and when it was last
/// modified (nanoseconds from the Unix epoch, negative before it; the epoch itself when
/// unknown).
pub struct CacheEntry {
    pub name: String,
    pub path: String,
    pub modified_nanos: i128,
}

/// Position of the last `.` in `s`, or -1.
pub open spec fn last_dot(s: Seq<char>) -> int
    decreases s.len(),
{
    if s.len() == 0 {
        -1
    } else if s.last() == '.' {
        s.len() - 1
    } else {
        last_dot(s.drop_last())
    }
}

/// The extension of a file name (`Path::extension`): what follows its last `.`, unless
/// there is none, the name starts with its only `.`, or the name is `..`.
pub open spec fn extension(name: Seq<char>) -> Option<Seq<char>> {
    if name == ".."@ || last_dot(name) <= 0 {
        None
    } else {
        Some(name.skip(last_dot(name) + 1))
    }
}

/// A file whose extension is `bmap`, in any ASCII case.
pub open spec fn bmap_file(name: Seq<char>) -> bool {
    match extension(name) {
        Some(e) => eq_ascii_fold(e, "bmap"@),
        None => false,
    }
}

proof fn lemma_last_dot(s: Seq<char>)
    ensures
        -1 <= last_dot(s) < s.len(),
        last_dot(s) >= 0 ==> s[last_dot(s)] == '.',
        forall|i: int| last_dot(s) < i < s.len() ==> s[i] != '.',
    decreases s.len(),
{
    if s.len() > 0 && s.last() != '.' {
        lemma_last_dot(s.drop_last());
        assert forall|i: int| last_dot(s) < i < s.len() implies s[i] != '.' by {
            if i < s.len() - 1 {
                assert(s[i] == s.drop_last()[i]);
            }
        }
    }
}

/// Whether a file name has the extension `bmap` (any ASCII case).
pub fn is_bmap_file(name: &str) -> (res: bool)
    ensures
        res == bmap_file(name@),
{
    let cs = chars_of(name);
    proof {
        reveal_strlit("..");
        lemma_last_dot(cs@);
    }
    if crate::text::str_eq(name, "..") {
        return false;
    }
    let mut k = cs.len();
    assert(cs@.subrange(0, k as int) == cs@);
    while k > 0 && cs[k - 1] != '.'
        invariant
            k <= cs.len(),
            last_dot(cs@) == last_dot(cs@.subrange(0, k as int)),
        decreases k,
    {
        assert(cs@.subrange(0, k as int).drop_last() == cs@.subrange(0, k - 1));
        k = k - 1;
    }
    assert(cs@.subrange(0, cs.len() as int) == cs@);
    if k > 0 {
        assert(cs@.subrange(0, k as int).last() == '.');
    }
    if k <= 1 {
        return false;
    }
    let ext = crate::text::copy_range(&cs, k, cs.len());
    eq_ignore_ascii_case(&ext, &chars_of("bmap"))
}

/// The path of the first listed file with a `bmap` extension.
pub open spec fn first_bmap(entries: Seq<CacheEntry>) -> Option<String>
    decreases entries.len(),
{
    if entries.len() == 0 {
        None
    } else if bmap_file(entries[0].name@) {
        Some(entries[0].path)
    } else {
        first_bmap(entries.drop_first())
    }
}

/// The block map in the cache: the first file listed with a `bmap` extension (a release
/// ships exactly one).
pub fn find_bmap(entries: &Vec<CacheEntry>) -> (res: Option<String>)
    ensures
        res == first_bmap(entries@),
{
    let mut i: usize = 0;
    assert(entries@.skip(0) == entries@);
    while i < entries.len()
        invariant
            i <= entries.len(),
            first_bmap(entries@) == first_bmap(entries@.skip(i as int)),
        decreases entries.len() - i,
    {
        assert(entries@.skip(i as int).drop_first() == entries@.skip(i + 1));
        assert(entries@.skip(i as int)[0] == entries@[i as int]);
        if is_bmap_file(entries[i].name.as_str()) {
            return Some(entries[i].path.clone());
        }
        i = i + 1;
    }
    None
}

/// `k` is the newest image in `entries`: an image, later than every image listed before
/// it and no earlier than every image listed after it.
pub open spec fn newest_at(entries: Seq<CacheEntry>, k: int) -> bool {
    &&& 0 <= k < entries.len()
    &&& image_name(entries[k].name@)
    &&& forall|j: int|
        0 <= j < entries.len() && image_name(#[trigger] entries[j].name@) ==> (j < k
            ==> entries[j].modified_nanos < entries[k].modified_nanos) && (j > k
            ==> entries[j].modified_nanos <= entries[k].modified_nanos)
}

/// Position of the most recently modified image in the cache listing; on a tie, the first
/// one listed.
pub fn newest_image(entries: &Vec<CacheEntry>) -> (res: Option<usize>)
    ensures
        match res {
            Some(k) => newest_at(entries@, k as int),
            None => forall|j: int| 0 <= j < entries@.len() ==> !image_name(#[trigger] entries@[j].name@),
        },
{
    let mut best: Option<usize> = None;
    let mut i: usize = 0;
    while i < entries.len()
        invariant
            i <= entries.len(),
            match best {
                Some(k) => k < i && newest_at(entries@.take(i as int), k as int),
                None => forall|j: int| 0 <= j < i ==> !image_name(#[trigger] entries@[j].name@),
            },
        decreases entries.len() - i,
    {
        let ghost pre = entries@.take(i as int);
        let ghost now = entries@.take(i + 1);
        if is_image_name(entries[i].name.as_str()) {
            let better = match best {
                Some(k) => entries[i].modified_nanos > entries[k].modified_nanos,
                None => true,
            };
            if better {
                best = Some(i);
            }
        }
        proof {
            match best {
                Some(k) => {
                    assert forall|j: int|
                        0 <= j < now.len() && image_name(#[trigger] now[j].name@) implies (j < k
                        ==> now[j].modified_nanos < now[k as int].modified_nanos) && (j > k
                        ==> now[j].modified_nanos <= now[k as int].modified_nanos) by {
                        if j < i {
                            assert(now[j] == pre[j]);
                        }
                    }
                },
                None => {},
            }
        }
        i = i + 1;
    }
    assert(entries@.take(entries.len() as int) == entries@);
    best
}

/// The newest cached image, with the cached block map, for flashing offline.
pub fn newest_local_image(entries: &Vec<CacheEntry>) -> (res: Option<ResolvedImage>)
    ensures
        match res {
            Some(r) => exists|k: int| newest_at(entries@, k) && entries@[k].path == r.image_path,
            None => forall|j: int| 0 <= j < entries@.len() ==> !image_name(#[trigger] entries@[j].name@),
        },
        res matches Some(r) ==> r.bmap_path == first_bmap(entries@),
{
    match newest_image(entries) {
        Some(k) => Some(ResolvedImage { image_path: entries[k].path.clone(), bmap_path: find_bmap(entries) }),
        None => None,
    }
}

/// When the latest release cannot be had (offline, or GitHub unreachable), a cached image
/// still lets the flash go ahead; with none, the error says why the release was needed.
pub fn offline_fallback(found: Option<ResolvedImage>, net_err: &str) -> (res: Result<ResolvedImage, String>)
    ensures
        match found {
            Some(r) => res == Ok::<ResolvedImage, String>(r),
            None => res matches Err(e) && e@
                == "could not fetch latest release (and no local image found): "@ + net_err@,
        },
{
    match found {
        Some(r) => Ok(r),
        None => {
            let mut msg: Vec<char> = Vec::new();
            extend_str(&mut msg, "could not fetch latest release (and no local image found): ");
            extend_str(&mut msg, net_err);
            Err(string_of(&msg))
        },
    }
}

/// The error for a download that could not be started or whose ranges failed.
pub fn download_error(err: &str) -> (res: String)
    ensures
        res@ == "download failed: "@ + err@,
{
    let mut msg: Vec<char> = Vec::new();
    extend_str(&mut msg, "download failed: ");
    extend_str(&mut msg, err);
    string_of(&msg)
}

/// Name of the image generated in simulation mode.
pub const SIM_IMAGE_NAME: &'static str = "sim-image.img";

/// Size of the simulated image, in MiB.
pub const SIM_IMAGE_MIB: u32 = 48;

/// The byte the simulated image is filled with.
pub const SIM_IMAGE_BYTE: u8 = 0xA5;

} // verus!
