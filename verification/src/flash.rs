//! Flashing: block-aligned buffering for raw devices, progress accounting, the choice of
//! decompression, and the protocol between the GUI and the elevated `flash-worker` (its
//! arguments, its progress file and its verdict).
use vstd::prelude::*;
use crate::num::{decimal, parse_u64, parse_unsigned, push_decimal};
use crate::text::{
    chars_of, copy_range, ends_with, extend_chars, extend_str, find, lines, lines_of, starts_with,
    string_of, to_lowercase, trim, trim_chars, lower_case, views,
};

verus! {

/// Raw disk devices reject writes whose length or offset is not a multiple of this.
pub const ALIGN: usize = 4096;

/// Buffered bytes that make [`SectorWriter::write`] ask for a drain.
pub const FLUSH_CHUNK: usize = 4 * 1024 * 1024;

/// Progress is reported every time this many more bytes have been written.
pub const EMIT_EVERY_BYTES: u64 = 16 * 1024 * 1024;

/// The buffer that aligns all writes to a block boundary before they reach the device.
///
/// Bytes accumulate here; only whole blocks (`ALIGN` bytes each) are ever released, and
/// the final short block is zero-padded up to `ALIGN`. The caller writes what
/// [`SectorWriter::block_len`] says from the front of [`SectorWriter::pending`], then
/// [`SectorWriter::commit`]s it.
pub struct SectorWriter {
    buf: Vec<u8>,
    /// Everything handed to the writer, with the zero padding it added.
    accepted: Ghost<Seq<u8>>,
    /// Everything released to the device.
    sent: Ghost<Seq<u8>>,
}

impl SectorWriter {
    /// Bytes held back, not yet released.
    pub closed spec fn buffered(&self) -> Seq<u8> {
        self.buf@
    }

    /// Everything the writer took in, zero padding included.
    pub closed spec fn accepted(&self) -> Seq<u8> {
        self.accepted@
    }

    /// Everything the writer released to the device.
    pub closed spec fn sent(&self) -> Seq<u8> {
        self.sent@
    }

    /// Nothing is lost, duplicated or reordered (what was released, then what is held,
    /// is what was taken in), and what was released is a whole number of blocks.
    pub closed spec fn wf(&self) -> bool {
        &&& self.sent@ + self.buf@ == self.accepted@
        &&& self.sent@.len() % (ALIGN as nat) == 0
    }

    /// Once the writer holds nothing back, the device has received exactly what the writer
    /// took in - every byte, once, in order - and a whole number of blocks of it.
    pub proof fn lemma_drained_writer_sent_everything(&self)
        requires
            self.wf(),
            self.buffered().len() == 0,
        ensures
            self.sent() == self.accepted(),
            self.sent().len() % (ALIGN as nat) == 0,
    {
        assert(self.sent@ + self.buf@ =~= self.sent@);
    }

    /// An empty writer.
    pub fn new() -> (res: SectorWriter)
        ensures
            res.wf(),
            res.buffered() == Seq::<u8>::empty(),
            res.accepted() == Seq::<u8>::empty(),
            res.sent() == Seq::<u8>::empty(),
    {
        SectorWriter {
            buf: Vec::with_capacity(FLUSH_CHUNK + ALIGN),
            accepted: Ghost(Seq::empty()),
            sent: Ghost(Seq::empty()),
        }
    }

    /// Takes in `data`; the answer says whether enough is buffered that whole blocks should
    /// be drained now. All of `data` counts as written.
    pub fn write(&mut self, data: &[u8]) -> (drain_now: bool)
        requires
            old(self).wf(),
            old(self).buffered().len() + data@.len() <= usize::MAX,
        ensures
            final(self).wf(),
            final(self).accepted() == old(self).accepted() + data@,
            final(self).sent() == old(self).sent(),
            final(self).buffered() == old(self).buffered() + data@,
            drain_now == (final(self).buffered().len() >= FLUSH_CHUNK),
    {
        let ghost before = self.buf@;
        self.buf.extend_from_slice(data);
        assert(self.buf@ =~= before + data@);
        self.accepted = Ghost(self.accepted@ + data@);
        assert(self.sent@ + self.buf@ =~= self.accepted@);
        self.buf.len() >= FLUSH_CHUNK
    }

    /// The bytes held back, in order.
    pub fn pending(&self) -> (res: &Vec<u8>)
        ensures
            res@ == self.buffered(),
    {
        &self.buf
    }

    /// Length of the largest whole-block prefix of the buffer.
    pub fn block_len(&self) -> (res: usize)
        ensures
            res == self.buffered().len() / (ALIGN as nat) * (ALIGN as nat),
            res % ALIGN == 0,
            res <= self.buffered().len(),
            self.buffered().len() - res < ALIGN,
    {
        let n = (self.buf.len() / ALIGN) * ALIGN;
        assert(n % ALIGN == 0 && n <= self.buf.len() && self.buf.len() - n < ALIGN) by (nonlinear_arith)
            requires
                n == (self.buf.len() / 4096) * 4096,
        ;
        n
    }

    /// Records that the first `n` buffered bytes - a whole-block prefix - reached the
    /// device, and drops them from the buffer.
    pub fn commit(&mut self, n: usize)
        requires
            old(self).wf(),
            n % ALIGN == 0,
            n <= old(self).buffered().len(),
        ensures
            final(self).wf(),
            final(self).accepted() == old(self).accepted(),
            final(self).sent() == old(self).sent() + old(self).buffered().subrange(0, n as int),
            final(self).buffered() == old(self).buffered().subrange(n as int, old(self).buffered().len() as int),
    {
        let ghost before = self.buf@;
        let ghost sent_before = self.sent@.len();
        let rest = self.buf.split_off(n);
        let ghost head = self.buf@;
        self.buf = rest;
        self.sent = Ghost(self.sent@ + head);
        assert(head + self.buf@ =~= before);
        assert(self.sent@ + self.buf@ =~= self.accepted@);
        assert((self.sent@.len()) % (ALIGN as nat) == 0) by (nonlinear_arith)
            requires
                self.sent@.len() == sent_before + n,
                sent_before % 4096 == 0,
                n % 4096 == 0,
        ;
    }

    /// Zero-pads the buffer up to a block boundary (fewer than `ALIGN` zeros), so that all
    /// of it can be released. Used once at the very end, or before a seek.
    pub fn pad_tail(&mut self)
        requires
            old(self).wf(),
            old(self).buffered().len() < ALIGN,
        ensures
            final(self).wf(),
            final(self).sent() == old(self).sent(),
            final(self).buffered() == old(self).buffered() + zeros(
                padding(old(self).buffered().len()),
            ),
            final(self).accepted() == old(self).accepted() + zeros(
                padding(old(self).buffered().len()),
            ),
            final(self).buffered().len() >= old(self).buffered().len(),
            final(self).buffered().len() % (ALIGN as nat) == 0,
            final(self).buffered().len() < old(self).buffered().len() + ALIGN,
    {
        let len = self.buf.len();
        let pad = (ALIGN - len % ALIGN) % ALIGN;
        let ghost before = self.buf@;
        self.buf.resize(len + pad, 0u8);
        let ghost zs = self.buf@.subrange(len as int, (len + pad) as int);
        assert(zs =~= zeros(padding(len as nat)));
        assert(self.buf@ =~= before + zs);
        self.accepted = Ghost(self.accepted@ + zs);
        assert(self.sent@ + self.buf@ =~= self.accepted@);
        assert((len + pad) % 4096 == 0) by (nonlinear_arith)
            requires
                pad == (4096 - len % 4096) % 4096,
        ;
    }

    /// Finishing a write: pad the short tail, then release it. If, before that, the
    /// writer had taken in the data `D` (and held back less than a block of it), the device
    /// ends up with exactly `D` followed by zeros up to the next block boundary
    /// (`(ALIGN - |D| % ALIGN) % ALIGN` of them), and nothing more.
    pub proof fn lemma_finish(before: SectorWriter, after: SectorWriter)
        requires
            before.wf(),
            before.buffered().len() < ALIGN,
            after.wf(),
            after.buffered().len() == 0,
            after.accepted() == before.accepted() + zeros(padding(before.buffered().len())),
        ensures
            after.sent() == before.accepted() + zeros(padding(before.accepted().len())),
            after.sent().len() % (ALIGN as nat) == 0,
    {
        let s = before.sent@.len();
        let b = before.buf@.len();
        assert(before.accepted@.len() == s + b);
        assert((s + b) % 4096 == b) by (nonlinear_arith)
            requires
                s % 4096 == 0,
                b < 4096,
        ;
        assert(after.sent@ + after.buf@ =~= after.sent@);
    }
}

/// `n` zero bytes.
pub open spec fn zeros(n: nat) -> Seq<u8> {
    Seq::new(n, |_i: int| 0u8)
}

/// How many zero bytes bring `len` bytes up to the next block boundary.
pub open spec fn padding(len: nat) -> nat {
    ((ALIGN as int - len % (ALIGN as nat)) % (ALIGN as int)) as nat
}

/// Counts bytes written and decides when progress is reported.
pub struct ProgressCounter {
    pub written: u64,
    pub total: u64,
    pub last_emit: u64,
}

impl ProgressCounter {
    /// A counter for a `total`-byte write, nothing written yet.
    pub fn new(total: u64) -> (res: ProgressCounter)
        ensures
            res.written == 0,
            res.total == total,
            res.last_emit == 0,
    {
        ProgressCounter { written: 0, total, last_emit: 0 }
    }

    /// Counts `n` more bytes; returns the `(written, total)` pair to report when at least
    /// [`EMIT_EVERY_BYTES`] were written since the last report.
    pub fn record(&mut self, n: u64) -> (report: Option<(u64, u64)>)
        requires
            old(self).last_emit <= old(self).written,
            old(self).written + n <= u64::MAX,
        ensures
            final(self).written == old(self).written + n,
            final(self).total == old(self).total,
            final(self).last_emit <= final(self).written,
            final(self).written - old(self).last_emit >= EMIT_EVERY_BYTES ==> report == Some(
                (final(self).written, final(self).total),
            ) && final(self).last_emit == final(self).written,
            final(self).written - old(self).last_emit < EMIT_EVERY_BYTES ==> report is None
                && final(self).last_emit == old(self).last_emit,
    {
        self.written = self.written + n;
        if self.written - self.last_emit >= EMIT_EVERY_BYTES {
            self.last_emit = self.written;
            Some((self.written, self.total))
        } else {
            None
        }
    }
}

/// How the image file is stored.
pub enum ImageKind {
    /// A `.zip` holding the `.img`.
    Zip,
    /// A gzip-compressed image.
    Gz,
    /// A plain image.
    Raw,
}

/// How the image at `path` is read: by its lower-cased name, `.zip` before `.gz`.
pub open spec fn kind_of(path: Seq<char>) -> ImageKind {
    let lower = lower_case(path);
    if ".zip"@.is_suffix_of(lower) {
        ImageKind::Zip
    } else if ".gz"@.is_suffix_of(lower) {
        ImageKind::Gz
    } else {
        ImageKind::Raw
    }
}

/// The file kind follows the image's name in any case: a name ending in `.zip` is read as
/// a zip archive, one ending in `.gz` (so `.img.gz` too) as gzip, and one ending in `.img`
/// as a plain image, which is also what a zip's image entry is named.
pub proof fn lemma_image_kinds(path: Seq<char>, x: Seq<char>)
    requires
        crate::text::ascii_text(path),
        x.is_suffix_of(path),
    ensures
        crate::text::eq_ascii_fold(x, ".zip"@) ==> kind_of(path) is Zip,
        crate::text::eq_ascii_fold(x, ".gz"@) ==> kind_of(path) is Gz,
        crate::text::eq_ascii_fold(x, ".img"@) ==> kind_of(path) is Raw && img_entry(path),
{
    reveal_strlit(".zip");
    reveal_strlit(".gz");
    reveal_strlit(".img");
    let l = lower_case(path);
    crate::text::lemma_lower_case_ascii(path);
    if crate::text::eq_ascii_fold(x, ".zip"@) {
        crate::text::lemma_ending_any_case(path, x, ".zip"@);
    }
    if crate::text::eq_ascii_fold(x, ".gz"@) {
        crate::text::lemma_ending_any_case(path, x, ".gz"@);
        assert(l.subrange(l.len() - 3, l.len() as int) == ".gz"@);
        assert(l.subrange(l.len() - 3, l.len() as int)[2] == l[l.len() - 1]);
        assert(l[l.len() - 1] == 'z');
        assert(!".zip"@.is_suffix_of(l)) by {
            if ".zip"@.is_suffix_of(l) {
                assert(l.subrange(l.len() - 4, l.len() as int)[3] == l[l.len() - 1]);
            }
        }
    }
    if crate::text::eq_ascii_fold(x, ".img"@) {
        crate::text::lemma_ending_any_case(path, x, ".img"@);
        assert(l.subrange(l.len() - 4, l.len() as int) == ".img"@);
        assert(l.subrange(l.len() - 4, l.len() as int)[3] == l[l.len() - 1]);
        assert(l[l.len() - 1] == 'g');
        assert(!".zip"@.is_suffix_of(l)) by {
            if ".zip"@.is_suffix_of(l) {
                assert(l.subrange(l.len() - 4, l.len() as int)[3] == l[l.len() - 1]);
            }
        }
        assert(!".gz"@.is_suffix_of(l)) by {
            if ".gz"@.is_suffix_of(l) {
                assert(l.subrange(l.len() - 3, l.len() as int)[2] == l[l.len() - 1]);
            }
        }
    }
}

/// Decides how the image at `path` is read.
pub fn image_kind(path: &str) -> (res: ImageKind)
    ensures
        res == kind_of(path@),
{
    let lower = to_lowercase(path);
    if ends_with(&lower, &chars_of(".zip")) {
        ImageKind::Zip
    } else if ends_with(&lower, &chars_of(".gz")) {
        ImageKind::Gz
    } else {
        ImageKind::Raw
    }
}

/// The number of bytes a flash is expected to write, for progress: what the block map
/// maps, else nothing known for a compressed image, else the image file's size (0 when it
/// cannot be read).
pub fn flash_total(bmap_total: Option<u64>, kind: &ImageKind, file_len: Option<u64>) -> (res: u64)
    ensures
        res == match bmap_total {
            Some(t) => t,
            None => match kind {
                ImageKind::Raw => match file_len {
                    Some(l) => l,
                    None => 0,
                },
                _ => 0,
            },
        },
{
    match bmap_total {
        Some(t) => t,
        None => match kind {
            ImageKind::Raw => match file_len {
                Some(l) => l,
                None => 0,
            },
            _ => 0,
        },
    }
}

/// An archive entry that holds the image: its lower-cased name ends in `.img`.
pub open spec fn img_entry(name: Seq<char>) -> bool {
    ".img"@.is_suffix_of(lower_case(name))
}

/// The error for a `.zip` without an image entry.
pub const NO_IMG_ENTRY: &'static str = "no .img entry inside the zip";

/// Whether an archive entry holds the image.
pub fn is_img_entry(name: &str) -> (res: bool)
    ensures
        res == img_entry(name@),
{
    ends_with(&to_lowercase(name), &chars_of(".img"))
}

/// The image entry of a `.zip`: the first entry whose name ends in `.img`, any case.
pub fn find_img_entry(names: &Vec<String>) -> (res: Result<usize, String>)
    ensures
        match res {
            Ok(k) => k < names@.len() && img_entry(names@[k as int]@) && forall|j: int|
                0 <= j < k ==> !img_entry(#[trigger] names@[j]@),
            Err(e) => e@ == NO_IMG_ENTRY@ && forall|j: int|
                0 <= j < names@.len() ==> !img_entry(#[trigger] names@[j]@),
        },
{
    let mut i: usize = 0;
    while i < names.len()
        invariant
            i <= names.len(),
            forall|j: int| 0 <= j < i ==> !img_entry(#[trigger] names@[j]@),
        decreases names.len() - i,
    {
        if is_img_entry(names[i].as_str()) {
            return Ok(i);
        }
        i = i + 1;
    }
    Err(string_of(&chars_of(NO_IMG_ENTRY)))
}

/// What the elevated `flash-worker` is told: `<image> <bmap|-> <target> <progress_file>`.
pub struct WorkerArgs {
    pub image: String,
    pub bmap: Option<String>,
    pub target: String,
    pub progress: String,
}

/// Reads the `flash-worker` arguments; `None` (a usage error) when fewer than four are
/// given. A block map of `-` means none.
pub fn worker_args(args: &Vec<String>) -> (res: Option<WorkerArgs>)
    ensures
        args@.len() < 4 ==> res is None,
        args@.len() >= 4 ==> (res matches Some(w) && w.image == args@[0] && w.target == args@[2]
            && w.progress == args@[3] && w.bmap == if args@[1]@ == "-"@ {
            None
        } else {
            Some(args@[1])
        }),
{
    if args.len() < 4 {
        return None;
    }
    let bmap = if crate::text::str_eq(args[1].as_str(), "-") {
        None
    } else {
        Some(args[1].clone())
    };
    Some(WorkerArgs {
        image: args[0].clone(),
        bmap,
        target: args[2].clone(),
        progress: args[3].clone(),
    })
}

/// The progress file's content while the worker writes: `<written> <total>`.
pub open spec fn progress_text(written: u64, total: u64) -> Seq<char> {
    decimal(written as nat) + " "@ + decimal(total as nat)
}

/// Formats a progress report for the progress file.
pub fn progress_line(written: u64, total: u64) -> (res: String)
    ensures
        res@ == progress_text(written, total),
{
    let mut out: Vec<char> = Vec::new();
    push_decimal(&mut out, written);
    extend_str(&mut out, " ");
    push_decimal(&mut out, total);
    string_of(&out)
}

/// Position of the first space of `s`, or -1.
pub open spec fn first_space(s: Seq<char>) -> int
    decreases s.len(),
{
    if s.len() == 0 {
        -1
    } else if s[0] == ' ' {
        0
    } else if first_space(s.drop_first()) < 0 {
        -1
    } else {
        first_space(s.drop_first()) + 1
    }
}

/// What the GUI reads out of the progress file: the trimmed content split at its first
/// space, both halves read as `u64`.
pub open spec fn progress_reading(content: Seq<char>) -> Option<(nat, nat)> {
    let t = trim(content);
    let k = first_space(t);
    if k < 0 {
        None
    } else {
        match (
            parse_unsigned(t.take(k), 10, u64::MAX as nat),
            parse_unsigned(t.skip(k + 1), 10, u64::MAX as nat),
        ) {
            (Some(w), Some(tt)) => Some((w, tt)),
            _ => None,
        }
    }
}

proof fn lemma_first_space(s: Seq<char>)
    ensures
        -1 <= first_space(s) < s.len(),
        first_space(s) >= 0 ==> s[first_space(s)] == ' ',
        forall|i: int| 0 <= i < s.len() && (first_space(s) < 0 || i < first_space(s)) ==> s[i] != ' ',
    decreases s.len(),
{
    if s.len() > 0 && s[0] != ' ' {
        lemma_first_space(s.drop_first());
        assert forall|i: int| 0 <= i < s.len() && (first_space(s) < 0 || i < first_space(s)) implies s[i] != ' ' by {
            if i > 0 {
                assert(s[i] == s.drop_first()[i - 1]);
            }
        }
    }
}

/// The progress protocol between the elevated worker and the GUI: the line the worker
/// writes for `written` of `total` bytes is read back by the GUI as exactly those two
/// numbers.
pub proof fn lemma_progress_round_trip(written: u64, total: u64)
    ensures
        progress_reading(progress_text(written, total)) == Some((written as nat, total as nat)),
{
    let a = decimal(written as nat);
    let b = decimal(total as nat);
    crate::num::lemma_decimal_digits(written as nat);
    crate::num::lemma_decimal_digits(total as nat);
    crate::num::lemma_parse_decimal(written as nat, u64::MAX as nat);
    crate::num::lemma_parse_decimal(total as nat, u64::MAX as nat);
    reveal_strlit(" ");
    let s = progress_text(written, total);
    assert(s =~= a + seq![' '] + b);
    let k = a.len() as int;
    assert(s[0] == a[0]);
    assert(0x30 <= (a[0] as u32) <= 0x39);
    assert(s.last() == b[b.len() - 1]);
    assert(0x30 <= (b[b.len() - 1] as u32) <= 0x39);
    assert(crate::text::trim_start(s) == s);
    assert(trim(s) == s);
    lemma_first_space(s);
    assert(s[k] == ' ');
    assert(first_space(s) == k) by {
        if first_space(s) < k {
            let f = first_space(s);
            if f >= 0 {
                assert(s[f] == a[f]);
                assert(0x30 <= (a[f] as u32) <= 0x39);
            }
        }
    }
    assert(s.take(k) =~= a);
    assert(s.skip(k + 1) =~= b);
}

/// Reads a progress report back out of the progress file's content.
pub fn parse_progress(content: &str) -> (res: Option<(u64, u64)>)
    ensures
        match res {
            Some((w, t)) => progress_reading(content@) == Some((w as nat, t as nat)),
            None => progress_reading(content@) is None,
        },
{
    let t = trim_chars(&chars_of(content));
    proof {
        lemma_first_space(t@);
    }
    let mut k: usize = 0;
    while k < t.len() && t[k] != ' '
        invariant
            k <= t.len(),
            forall|i: int| 0 <= i < k ==> t@[i] != ' ',
        decreases t.len() - k,
    {
        k = k + 1;
    }
    assert(first_space(t@) < 0 ==> k == t.len());
    if k == t.len() {
        assert(first_space(t@) < 0) by {
            if first_space(t@) >= 0 {
                assert(t@[first_space(t@)] == ' ');
            }
        }
        return None;
    }
    assert(first_space(t@) == k) by {
        if first_space(t@) < 0 {
            assert(t@[k as int] != ' ');
        } else if first_space(t@) < k {
            assert(t@[first_space(t@)] != ' ');
        } else if first_space(t@) > k {
            assert(t@[k as int] != ' ');
        }
    }
    let head = copy_range(&t, 0, k);
    let tail = copy_range(&t, k + 1, t.len());
    assert(head@ == t@.take(k as int));
    assert(tail@ == t@.skip(k + 1));
    match (parse_u64(&head), parse_u64(&tail)) {
        (Some(w), Some(total)) => Some((w, total)),
        _ => None,
    }
}

/// What the worker writes last into its progress file: `DONE`, or `ERR <message>`.
pub open spec fn verdict_text(result: Result<(), String>) -> Seq<char> {
    match result {
        Ok(()) => "DONE"@,
        Err(e) => "ERR "@ + e@,
    }
}

/// The worker's last word and exit code for the outcome of its flash: `DONE` and 0, or
/// `ERR <message>` and 1.
pub fn worker_verdict(result: &Result<(), String>) -> (res: (String, i32))
    ensures
        res.0@ == verdict_text(*result),
        res.1 == if result is Ok {
            0i32
        } else {
            1i32
        },
{
    match result {
        Ok(()) => (string_of(&chars_of("DONE")), 0),
        Err(e) => {
            let mut out: Vec<char> = Vec::new();
            extend_str(&mut out, "ERR ");
            extend_str(&mut out, e.as_str());
            (string_of(&out), 1)
        },
    }
}

/// `s` with every leading repetition of `p` removed (`trim_start_matches`).
pub open spec fn strip_leading(s: Seq<char>, p: Seq<char>) -> Seq<char>
    decreases s.len(),
{
    if p.len() > 0 && p.is_prefix_of(s) {
        strip_leading(s.skip(p.len() as int), p)
    } else {
        s
    }
}

/// The last line of `ls` that starts with `ERR `, if any.
pub open spec fn last_err_line(ls: Seq<Seq<char>>) -> Option<Seq<char>>
    decreases ls.len(),
{
    if ls.len() == 0 {
        None
    } else if "ERR "@.is_prefix_of(ls.last()) {
        Some(ls.last())
    } else {
        last_err_line(ls.drop_last())
    }
}

/// The error the worker reported in its progress file: its last `ERR ` line without the
/// `ERR ` prefix(es), or a generic message when there is none.
pub open spec fn worker_error_text(content: Seq<char>) -> Seq<char> {
    match last_err_line(lines(content)) {
        Some(l) => strip_leading(l, "ERR "@),
        None => "flash failed or was cancelled"@,
    }
}

/// Recovers the worker's error message from its progress file.
pub fn worker_error(final_content: &str) -> (res: String)
    ensures
        res@ == worker_error_text(final_content@),
{
    let ls = lines_of(&chars_of(final_content));
    let marker = chars_of("ERR ");
    proof {
        reveal_strlit("ERR ");
    }
    let mut i = ls.len();
    assert(views(ls@).take(i as int) =~= views(ls@));
    while i > 0
        invariant
            i <= ls.len(),
            marker@ == "ERR "@,
            marker@.len() == 4,
            views(ls@) == lines(final_content@),
            last_err_line(views(ls@)) == last_err_line(views(ls@).take(i as int)),
        decreases i,
    {
        let ghost pre = views(ls@).take(i as int);
        assert(pre.drop_last() =~= views(ls@).take(i - 1));
        assert(pre.last() == ls@[i - 1]@);
        if starts_with(&ls[i - 1], &marker) {
            let mut rest = copy_range(&ls[i - 1], 0, ls[i - 1].len());
            assert(rest@ == ls@[i - 1]@);
            while starts_with(&rest, &marker)
                invariant
                    marker@ == "ERR "@,
                    marker@.len() == 4,
                    strip_leading(rest@, "ERR "@) == strip_leading(ls@[i - 1]@, "ERR "@),
                decreases rest@.len(),
            {
                rest = copy_range(&rest, 4, rest.len());
            }
            return string_of(&rest);
        }
        i = i - 1;
    }
    string_of(&chars_of("flash failed or was cancelled"))
}

proof fn lemma_trim_end_prefix(s: Seq<char>)
    ensures
        crate::text::trim_end(s).len() <= s.len(),
        crate::text::trim_end(s) == s.take(crate::text::trim_end(s).len() as int),
    decreases s.len(),
{
    if s.len() > 0 && crate::text::is_white_space(s.last()) {
        lemma_trim_end_prefix(s.drop_last());
        let t = crate::text::trim_end(s.drop_last());
        assert(s.drop_last().take(t.len() as int) =~= s.take(t.len() as int));
    } else {
        assert(s.take(s.len() as int) =~= s);
    }
}

/// The verdict protocol between the elevated worker and the GUI: a worker that reports
/// `DONE` is taken as done, whatever the elevation reported; one that reports the error
/// `e` has the GUI show exactly `e`, provided `e` is one line and does not itself start
/// with `ERR `.
pub proof fn lemma_verdict_round_trip(e: String)
    requires
        forall|i: int| 0 <= i < e@.len() ==> e@[i] != '\n',
        !"ERR "@.is_prefix_of(e@),
    ensures
        trim(verdict_text(Ok(()))) == "DONE"@,
        trim(verdict_text(Err(e))) != "DONE"@,
        worker_error_text(verdict_text(Err(e))) == e@,
{
    reveal_strlit("DONE");
    reveal_strlit("ERR ");
    let d = "DONE"@;
    assert(crate::text::trim_start(d) == d);
    assert(crate::text::trim_end(d) == d);
    let v = verdict_text(Err(e));
    assert(v =~= seq!['E', 'R', 'R', ' '] + e@);
    assert(crate::text::trim_start(v) == v);
    lemma_trim_end_prefix(v);
    let t = trim(v);
    if t.len() == 4 {
        assert(t[0] == v[0]);
    }
    crate::text::lemma_line_len(v);
    assert(crate::text::line_len(v) == v.len()) by {
        if crate::text::line_len(v) < v.len() {
            let k = crate::text::line_len(v) as int;
            if k >= 4 {
                assert(v[k] == e@[k - 4]);
            }
        }
    }
    assert(lines(v) == seq![v]);
    assert(seq![v].last() == v);
    assert("ERR "@.is_prefix_of(v)) by {
        assert(v.take(4) =~= "ERR "@);
    }
    assert(last_err_line(lines(v)) == Some(v));
    assert(v.skip(4) =~= e@);
    assert(strip_leading(v, "ERR "@) == strip_leading(e@, "ERR "@));
}

/// A worker whose flash failed on the image's checksum makes the GUI purge the cache:
/// its verdict is not `DONE`, and the error the GUI reads back from it counts as a corrupt
/// image (so [`flash_outcome`] answers `purge_cache`, and the next run downloads afresh).
pub proof fn lemma_checksum_failure_purges(e: String)
    requires
        crate::text::ascii_text(e@),
        forall|i: int| 0 <= i < e@.len() ==> e@[i] != '\n',
        !"ERR "@.is_prefix_of(e@),
        crate::text::has_infix(e@, "Checksum error"@),
    ensures
        trim(verdict_text(Err(e))) != "DONE"@,
        crate::images::corrupt_image_error(worker_error_text(verdict_text(Err(e)))),
{
    lemma_verdict_round_trip(e);
    crate::images::lemma_copy_errors_are_corruption(e@);
}

/// The message for a flash that failed on a corrupt image, once the image was removed.
pub open spec fn corrupt_image_message(err: Seq<char>) -> Seq<char> {
    err + "\n\nThe downloaded image was corrupt and has been removed. Relaunch to download a fresh copy, then flash again."@
}

/// Tells the user that the corrupt image was removed and what to do next.
pub fn corrupt_image_error(err: &str) -> (res: String)
    ensures
        res@ == corrupt_image_message(err@),
{
    let mut out: Vec<char> = Vec::new();
    extend_str(&mut out, err);
    extend_str(
        &mut out,
        "\n\nThe downloaded image was corrupt and has been removed. Relaunch to download a fresh copy, then flash again.",
    );
    string_of(&out)
}

/// How an elevated flash ended, for the GUI.
pub enum FlashOutcome {
    /// The image was written.
    Done,
    /// The flash failed with this message; `purge_cache` when the image looked corrupt and
    /// the cache is to be emptied.
    Failed { message: String, purge_cache: bool },
}

/// Decides how an elevated flash ended, from the worker's last progress-file content and
/// what the elevation reported (`Ok(true)` for exit code 0, `Ok(false)` for another code,
/// `Err` when the worker never ran). The worker's own `DONE` wins over the exit status.
pub fn flash_outcome(final_content: &str, status: Result<bool, String>) -> (res: FlashOutcome)
    ensures
        (trim(final_content@) == "DONE"@ || status == Ok::<bool, String>(true)) ==> res is Done,
        trim(final_content@) != "DONE"@ ==> match status {
            Ok(true) => res is Done,
            Ok(false) => {
                let err = worker_error_text(final_content@);
                if crate::images::corrupt_image_error(err) {
                    res matches FlashOutcome::Failed { message, purge_cache } && purge_cache
                        && message@ == corrupt_image_message(err)
                } else {
                    res matches FlashOutcome::Failed { message, purge_cache } && !purge_cache
                        && message@ == err
                }
            },
            Err(e) => res matches FlashOutcome::Failed { message, purge_cache } && !purge_cache
                && message == e,
        },
{
    let t = trim_chars(&chars_of(final_content));
    if crate::text::chars_eq(&t, &chars_of("DONE")) {
        return FlashOutcome::Done;
    }
    match status {
        Ok(true) => FlashOutcome::Done,
        Ok(false) => {
            let err = worker_error(final_content);
            if crate::images::looks_like_corrupt_image(err.as_str()) {
                FlashOutcome::Failed { message: corrupt_image_error(err.as_str()), purge_cache: true }
            } else {
                FlashOutcome::Failed { message: err, purge_cache: false }
            }
        },
        Err(e) => FlashOutcome::Failed { message: e, purge_cache: false },
    }
}

/// The command line of the elevated worker: each argument double-quoted, as paths under
/// the user's profile may hold spaces.
pub open spec fn worker_command(image: Seq<char>, bmap: Seq<char>, target: Seq<char>, progress: Seq<char>) -> Seq<char> {
    "flash-worker \""@ + image + "\" \""@ + bmap + "\" \""@ + target + "\" \""@ + progress + "\""@
}

/// Builds the elevated worker's command line.
pub fn worker_command_line(image: &str, bmap: &str, target: &str, progress: &str) -> (res: String)
    ensures
        res@ == worker_command(image@, bmap@, target@, progress@),
{
    let mut out: Vec<char> = Vec::new();
    extend_str(&mut out, "flash-worker \"");
    extend_str(&mut out, image);
    extend_str(&mut out, "\" \"");
    extend_str(&mut out, bmap);
    extend_str(&mut out, "\" \"");
    extend_str(&mut out, target);
    extend_str(&mut out, "\" \"");
    extend_str(&mut out, progress);
    extend_str(&mut out, "\"");
    assert(out@ =~= worker_command(image@, bmap@, target@, progress@));
    string_of(&out)
}

/// Elevated flashing on platforms other than macOS and Windows.
pub fn run_elevated() -> (res: Result<bool, String>)
    ensures
        res matches Err(e) && e@ == "elevated flashing is only implemented for macOS and Windows"@,
{
    Err(string_of(&chars_of("elevated flashing is only implemented for macOS and Windows")))
}

/// The pretend image size of a simulated flash (12 GiB).
pub const SIM_TOTAL: u64 = 12 * 1024 * 1024 * 1024;

/// Steps of a simulated flash.
pub const SIM_STEPS: u64 = 60;

/// Bytes reported written after step `i` of a simulated flash.
pub fn sim_progress(i: u64) -> (res: u64)
    requires
        i <= SIM_STEPS,
    ensures
        res == SIM_TOTAL * i / (SIM_STEPS as int),
{
    assert(SIM_TOTAL * i <= SIM_TOTAL * SIM_STEPS) by (nonlinear_arith)
        requires
            i <= 60,
    ;
    SIM_TOTAL * i / SIM_STEPS
}

/// The whole-disk node to unmount before writing a macOS raw device: the first
/// `/dev/rdisk` of the target turned into `/dev/disk`. Only `/dev/` targets are devices.
pub open spec fn unmount_node(target: Seq<char>) -> Option<Seq<char>> {
    let from = "/dev/rdisk"@;
    if !"/dev/"@.is_prefix_of(target) {
        None
    } else if crate::text::has_infix(target, from) {
        let k = crate::text::first_occurrence(target, from);
        Some(target.take(k) + "/dev/disk"@ + target.skip(k + from.len()))
    } else {
        Some(target)
    }
}

/// The node to unmount before a raw write on macOS (`replacen("/dev/rdisk", "/dev/disk",
/// 1)`), or `None` when the target is not a device.
pub fn unmount_target(target: &str) -> (res: Option<String>)
    ensures
        match res {
            Some(n) => unmount_node(target@) == Some(n@),
            None => unmount_node(target@) is None,
        },
{
    let t = chars_of(target);
    if !starts_with(&t, &chars_of("/dev/")) {
        return None;
    }
    let from = chars_of("/dev/rdisk");
    match find(&t, &from) {
        Some(k) => {
            assert(crate::text::occurs_at(t@, from@, k as int));
            assert(k + from.len() <= t.len());
            let after: usize = k + from.len();
            let mut out = copy_range(&t, 0, k);
            extend_str(&mut out, "/dev/disk");
            let rest = copy_range(&t, after, t.len());
            extend_chars(&mut out, &rest);
            Some(string_of(&out))
        },
        None => Some(string_of(&t)),
    }
}

/// The error for a flash target that could not be opened.
pub fn open_target_error(target: &str, err: &str) -> (res: String)
    ensures
        res@ == "failed to open target '"@ + target@ + "': "@ + err@,
{
    let mut out: Vec<char> = Vec::new();
    extend_str(&mut out, "failed to open target '");
    extend_str(&mut out, target);
    extend_str(&mut out, "': ");
    extend_str(&mut out, err);
    assert(out@ =~= "failed to open target '"@ + target@ + "': "@ + err@);
    string_of(&out)
}

/// The error when no robot is connected.
pub const NOT_DETECTED: &'static str = "No Reachy Mini detected over USB.";

/// The error when the robot's storage is not exposed yet.
pub const STILL_DOWNLOADING: &'static str = "Reachy is still in download mode; its storage isn't exposed yet. Wait for preparation to finish, or re-plug the USB cable.";

/// The device a flash writes to: the detected robot's, unless there is no robot or it is
/// still in download mode.
pub fn flash_target(device: Option<crate::detect::ReachyDevice>) -> (res: Result<String, String>)
    ensures
        match device {
            None => res matches Err(e) && e@ == NOT_DETECTED@,
            Some(d) => if d.mode@ == "download"@ {
                res matches Err(e) && e@ == STILL_DOWNLOADING@
            } else {
                res == Ok::<String, String>(d.device)
            },
        },
{
    match device {
        None => Err(string_of(&chars_of(NOT_DETECTED))),
        Some(d) => {
            if crate::text::str_eq(d.mode.as_str(), "download") {
                Err(string_of(&chars_of(STILL_DOWNLOADING)))
            } else {
                Ok(d.device)
            }
        },
    }
}

/// What `authopen` handed back over its socket: the descriptor of the opened device, or an
/// error when it sent none (authorization denied, or the device busy).
pub fn authopen_descriptor(received: usize, fd: i32) -> (res: Result<i32, String>)
    ensures
        received >= 1 && fd >= 0 ==> res == Ok::<i32, String>(fd),
        !(received >= 1 && fd >= 0) ==> (res matches Err(e) && e@
            == "Could not open the robot's storage. Authorization was denied, or the device is busy."@),
{
    if received < 1 || fd < 0 {
        Err(
            string_of(
                &chars_of(
                    "Could not open the robot's storage. Authorization was denied, or the device is busy.",
                ),
            ),
        )
    } else {
        Ok(fd)
    }
}

} // verus!
