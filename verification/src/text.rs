//! Character-level string handling shared by the rest of the library.
use vstd::prelude::*;

verus! {

/// Appends one character to a string (`String::push`). Claimed: the string afterwards is
/// the one before with `c` at its end, which is what `String::push` documents.
#[verifier::external_body]
pub(crate) fn push_char(s: &mut String, c: char)
    ensures
        final(s)@ == old(s)@.push(c),
{
    s.push(c);
}

/// The characters of a string slice, in order.
pub fn chars_of(s: &str) -> (res: Vec<char>)
    ensures
        res@ == s@,
{
    let mut out: Vec<char> = Vec::new();
    for c in it: s.chars()
        invariant
            out@ == it.seq().take(it.index() as int),
            it.seq() == s@,
    {
        out.push(c);
    }
    out
}

/// Builds a string from a sequence of characters.
pub fn string_of(cs: &Vec<char>) -> (res: String)
    ensures
        res@ == cs@,
{
    let mut out = String::new();
    for i in 0..cs.len()
        invariant
            out@ == cs@.take(i as int),
    {
        push_char(&mut out, cs[i]);
        assert(cs@.take(i + 1) == cs@.take(i as int).push(cs@[i as int]));
    }
    assert(cs@.take(cs.len() as int) == cs@);
    out
}


/// The `White_Space` property of Unicode, which is what `char::is_whitespace` tests.
pub open spec fn is_white_space(c: char) -> bool {
    let u = c as u32;
    ||| 0x9 <= u <= 0xd
    ||| u == 0x20
    ||| u == 0x85
    ||| u == 0xa0
    ||| u == 0x1680
    ||| 0x2000 <= u <= 0x200a
    ||| u == 0x2028
    ||| u == 0x2029
    ||| u == 0x202f
    ||| u == 0x205f
    ||| u == 0x3000
}

/// `s` without its leading white space.
pub open spec fn trim_start(s: Seq<char>) -> Seq<char>
    decreases s.len(),
{
    if s.len() > 0 && is_white_space(s[0]) {
        trim_start(s.drop_first())
    } else {
        s
    }
}

/// `s` without its trailing white space.
pub open spec fn trim_end(s: Seq<char>) -> Seq<char>
    decreases s.len(),
{
    if s.len() > 0 && is_white_space(s.last()) {
        trim_end(s.drop_last())
    } else {
        s
    }
}

/// `s` without leading and trailing white space (`str::trim`).
pub open spec fn trim(s: Seq<char>) -> Seq<char> {
    trim_end(trim_start(s))
}

/// Tests a character for Unicode white space, as `char::is_whitespace` does.
pub fn is_whitespace(c: char) -> (res: bool)
    ensures
        res == is_white_space(c),
{
    let u = c as u32;
    (0x9 <= u && u <= 0xd) || u == 0x20 || u == 0x85 || u == 0xa0 || u == 0x1680 || (0x2000 <= u
        && u <= 0x200a) || u == 0x2028 || u == 0x2029 || u == 0x202f || u == 0x205f || u == 0x3000
}

/// Removes leading and trailing white space.
pub fn trim_chars(s: &Vec<char>) -> (res: Vec<char>)
    ensures
        res@ == trim(s@),
{
    let mut start: usize = 0;
    assert(s@.skip(0) == s@);
    while start < s.len() && is_whitespace(s[start])
        invariant
            start <= s.len(),
            trim_start(s@.skip(start as int)) == trim_start(s@),
        decreases s.len() - start,
    {
        assert(s@.skip(start as int).drop_first() == s@.skip(start + 1));
        start = start + 1;
    }
    let ghost front = s@.skip(start as int);
    assert(trim_start(s@) == front);
    let mut end: usize = s.len();
    while end > start && is_whitespace(s[end - 1])
        invariant
            start <= end <= s.len(),
            front == s@.skip(start as int),
            trim_end(s@.subrange(start as int, end as int)) == trim_end(front),
        decreases end,
    {
        assert(s@.subrange(start as int, end as int).drop_last() == s@.subrange(
            start as int,
            end - 1,
        ));
        end = end - 1;
    }
    assert(front == s@.subrange(start as int, s.len() as int));
    let mut out: Vec<char> = Vec::new();
    let mut i = start;
    while i < end
        invariant
            start <= i <= end <= s.len(),
            out@ == s@.subrange(start as int, i as int),
        decreases end - i,
    {
        out.push(s[i]);
        assert(s@.subrange(start as int, i + 1) == s@.subrange(start as int, i as int).push(
            s@[i as int],
        ));
        i = i + 1;
    }
    out
}


/// Number of characters before the first `'\n'` of `s` (all of `s` when it has none).
pub open spec fn line_len(s: Seq<char>) -> nat
    decreases s.len(),
{
    if s.len() == 0 || s[0] == '\n' {
        0
    } else {
        1 + line_len(s.drop_first())
    }
}

/// A line ended by `'\n'`, without a carriage return that preceded the `'\n'`.
pub open spec fn strip_cr(line: Seq<char>) -> Seq<char> {
    if line.len() > 0 && line.last() == '\r' {
        line.drop_last()
    } else {
        line
    }
}

/// The lines of `s`, as `str::lines` yields them: split at `'\n'`, each line that a `'\n'`
/// ends loses one `'\r'` before it, and a final `'\n'` starts no empty line.
pub open spec fn lines(s: Seq<char>) -> Seq<Seq<char>>
    decreases s.len(),
{
    if s.len() == 0 {
        seq![]
    } else if line_len(s) < s.len() {
        seq![strip_cr(s.take(line_len(s) as int))] + lines(s.skip(line_len(s) + 1int))
    } else {
        seq![s]
    }
}

pub proof fn lemma_line_len(s: Seq<char>)
    ensures
        line_len(s) <= s.len(),
        forall|i: int| 0 <= i < line_len(s) ==> s[i] != '\n',
        line_len(s) < s.len() ==> s[line_len(s) as int] == '\n',
    decreases s.len(),
{
    if s.len() > 0 && s[0] != '\n' {
        lemma_line_len(s.drop_first());
        assert forall|i: int| 0 <= i < line_len(s) implies s[i] != '\n' by {
            if i > 0 {
                assert(s[i] == s.drop_first()[i - 1]);
            }
        }
    }
}

/// Position of the first `'\n'` at or after `from`, or the length when there is none.
fn next_newline(s: &Vec<char>, from: usize) -> (res: usize)
    requires
        from <= s.len(),
    ensures
        from <= res <= s.len(),
        res - from == line_len(s@.skip(from as int)),
{
    let mut i = from;
    while i < s.len() && s[i] != '\n'
        invariant
            from <= i <= s.len(),
            forall|k: int| from <= k < i ==> s@[k] != '\n',
        decreases s.len() - i,
    {
        i = i + 1;
    }
    proof {
        let t = s@.skip(from as int);
        lemma_line_len(t);
        let n = line_len(t);
        if n < i - from {
            assert(t[n as int] == s@[from + n]);
        } else if n > i - from {
            assert(t[i - from] == s@[i as int]);
        }
    }
    i
}

/// Copies `s[from..to]`.
pub fn copy_range(s: &Vec<char>, from: usize, to: usize) -> (res: Vec<char>)
    requires
        from <= to <= s.len(),
    ensures
        res@ == s@.subrange(from as int, to as int),
{
    let mut out: Vec<char> = Vec::new();
    let mut i = from;
    while i < to
        invariant
            from <= i <= to <= s.len(),
            out@ == s@.subrange(from as int, i as int),
        decreases to - i,
    {
        out.push(s[i]);
        assert(s@.subrange(from as int, i + 1) == s@.subrange(from as int, i as int).push(
            s@[i as int],
        ));
        i = i + 1;
    }
    out
}

/// The contents of each vector of characters.
pub open spec fn views(v: Seq<Vec<char>>) -> Seq<Seq<char>> {
    v.map_values(|l: Vec<char>| l@)
}

/// Splits `s` into lines exactly as `str::lines` does.
pub fn lines_of(s: &Vec<char>) -> (res: Vec<Vec<char>>)
    ensures
        views(res@) == lines(s@),
{
    let mut out: Vec<Vec<char>> = Vec::new();
    let mut pos: usize = 0;
    assert(s@.skip(0) == s@);
    while pos < s.len()
        invariant
            pos <= s.len(),
            views(out@) + lines(s@.skip(pos as int)) == lines(s@),
        decreases s.len() - pos,
    {
        let ghost rest = s@.skip(pos as int);
        let nl = next_newline(s, pos);
        if nl < s.len() {
            let mut line_end = nl;
            if line_end > pos && s[line_end - 1] == '\r' {
                line_end = line_end - 1;
            }
            let line = copy_range(s, pos, line_end);
            proof {
                assert(rest.take(nl - pos) == s@.subrange(pos as int, nl as int));
                if line_end < nl {
                    assert(s@.subrange(pos as int, nl as int).drop_last() == s@.subrange(
                        pos as int,
                        nl - 1,
                    ));
                }
                assert(rest.skip(nl - pos + 1) == s@.skip(nl + 1));
                assert(line@ == strip_cr(rest.take(nl - pos)));
            }
            let ghost before = views(out@);
            out.push(line);
            assert(views(out@) =~= before.push(line@));
            assert(lines(rest) == seq![line@] + lines(s@.skip(nl + 1)));
            assert(before.push(line@) + lines(s@.skip(nl + 1)) =~= before + (seq![line@] + lines(
                s@.skip(nl + 1),
            )));
            pos = nl + 1;
        } else {
            let line = copy_range(s, pos, s.len());
            assert(line@ == rest);
            let ghost before = views(out@);
            out.push(line);
            assert(views(out@) =~= before.push(line@));
            assert(lines(rest) == seq![rest]);
            assert(s@.skip(s.len() as int) =~= Seq::<char>::empty());
            assert(before + seq![rest] =~= before.push(rest));
            pos = s.len();
        }
    }
    out
}


/// `n` occurs in `h` as a contiguous run.
pub open spec fn has_infix(h: Seq<char>, n: Seq<char>) -> bool {
    exists|i: int| 0 <= i && i + n.len() <= h.len() && #[trigger] h.subrange(i, i + n.len()) == n
}

/// `n` occurs in `h` at position `i`.
pub open spec fn occurs_at(h: Seq<char>, n: Seq<char>, i: int) -> bool {
    0 <= i && i + n.len() <= h.len() && h.subrange(i, i + n.len()) == n
}

/// Whether `n` occurs in `h` starting at `i`.
pub fn matches_at(h: &Vec<char>, n: &Vec<char>, i: usize) -> (res: bool)
    ensures
        res == occurs_at(h@, n@, i as int),
{
    if i > h.len() || n.len() > h.len() - i {
        return false;
    }
    let mut k: usize = 0;
    while k < n.len()
        invariant
            i + n.len() <= h.len(),
            k <= n.len(),
            forall|j: int| 0 <= j < k ==> h@[i + j] == n@[j],
        decreases n.len() - k,
    {
        if h[i + k] != n[k] {
            assert(h@.subrange(i as int, i + n.len())[k as int] != n@[k as int]);
            return false;
        }
        k = k + 1;
    }
    assert(h@.subrange(i as int, i + n.len()) =~= n@);
    true
}

/// Whether `p` is a prefix of `s`.
pub fn starts_with(s: &Vec<char>, p: &Vec<char>) -> (res: bool)
    ensures
        res == p@.is_prefix_of(s@),
{
    matches_at(s, p, 0)
}

/// Whether `p` is a suffix of `s`.
pub fn ends_with(s: &Vec<char>, p: &Vec<char>) -> (res: bool)
    ensures
        res == p@.is_suffix_of(s@),
{
    if p.len() > s.len() {
        return false;
    }
    matches_at(s, p, s.len() - p.len())
}

/// Position of the first occurrence of `n` in `h` (meaningful when there is one).
pub open spec fn first_occurrence(h: Seq<char>, n: Seq<char>) -> int {
    choose|i: int| occurs_at(h, n, i) && forall|j: int| 0 <= j < i ==> !occurs_at(h, n, j)
}

/// Position of the first occurrence of `n` in `h`.
pub fn find(h: &Vec<char>, n: &Vec<char>) -> (res: Option<usize>)
    ensures
        match res {
            Some(i) => occurs_at(h@, n@, i as int) && (forall|j: int|
                0 <= j < i ==> !occurs_at(h@, n@, j)) && has_infix(h@, n@) && i as int
                == first_occurrence(h@, n@),
            None => !has_infix(h@, n@),
        },
{
    if n.len() > h.len() {
        assert forall|i: int|
            0 <= i && i + n@.len() <= h@.len() implies #[trigger] h@.subrange(i, i + n@.len())
            != n@ by {}
        return None;
    }
    let last = h.len() - n.len();
    let mut i: usize = 0;
    loop
        invariant
            last + n.len() == h.len(),
            i <= last,
            forall|j: int| 0 <= j < i ==> !occurs_at(h@, n@, j),
        ensures
            forall|j: int| 0 <= j <= last ==> !occurs_at(h@, n@, j),
        decreases last - i,
    {
        if matches_at(h, n, i) {
            proof {
                assert(has_infix(h@, n@)) by {
                    assert(h@.subrange(i as int, i + n@.len()) == n@);
                }
                let w = first_occurrence(h@, n@);
                assert(occurs_at(h@, n@, i as int) && forall|j: int|
                    0 <= j < i ==> !occurs_at(h@, n@, j));
                if w < i {
                    assert(!occurs_at(h@, n@, w));
                } else if w > i {
                    assert(!occurs_at(h@, n@, i as int));
                }
            }
            return Some(i);
        }
        if i == last {
            break;
        }
        i = i + 1;
    }
    assert forall|j: int|
        0 <= j && j + n@.len() <= h@.len() implies #[trigger] h@.subrange(j, j + n@.len())
        != n@ by {
        assert(!occurs_at(h@, n@, j));
    }
    None
}

/// Whether `n` occurs anywhere in `h` (`str::contains`).
pub fn contains(h: &Vec<char>, n: &Vec<char>) -> (res: bool)
    ensures
        res == has_infix(h@, n@),
{
    match find(h, n) {
        Some(i) => {
            assert(occurs_at(h@, n@, i as int));
            true
        },
        None => false,
    }
}

/// Code of `c` with ASCII upper-case letters folded to lower case.
pub open spec fn ascii_fold(c: char) -> u32 {
    let u = c as u32;
    if 0x41 <= u <= 0x5a {
        (u + 0x20) as u32
    } else {
        u
    }
}

/// Same length and equal up to ASCII case (`str::eq_ignore_ascii_case`).
pub open spec fn eq_ascii_fold(a: Seq<char>, b: Seq<char>) -> bool {
    a.len() == b.len() && forall|i: int| 0 <= i < a.len() ==> ascii_fold(a[i]) == ascii_fold(b[i])
}

/// Compares two strings, ignoring ASCII case.
pub fn eq_ignore_ascii_case(a: &Vec<char>, b: &Vec<char>) -> (res: bool)
    ensures
        res == eq_ascii_fold(a@, b@),
{
    if a.len() != b.len() {
        return false;
    }
    let mut i: usize = 0;
    while i < a.len()
        invariant
            a.len() == b.len(),
            i <= a.len(),
            forall|j: int| 0 <= j < i ==> ascii_fold(a@[j]) == ascii_fold(b@[j]),
        decreases a.len() - i,
    {
        let x = a[i] as u32;
        let y = b[i] as u32;
        let fx = if 0x41 <= x && x <= 0x5a { x + 0x20 } else { x };
        let fy = if 0x41 <= y && y <= 0x5a { y + 0x20 } else { y };
        if fx != fy {
            return false;
        }
        i = i + 1;
    }
    true
}

/// What `str::to_lowercase` returns for a string (Unicode lower-case mapping).
pub uninterp spec fn unicode_lowercase(s: Seq<char>) -> Seq<char>;

/// What `str::to_uppercase` returns for a string (Unicode upper-case mapping).
pub uninterp spec fn unicode_uppercase(s: Seq<char>) -> Seq<char>;

/// What `String::from_utf8_lossy` returns for a byte sequence.
pub uninterp spec fn utf8_lossy(bytes: Seq<u8>) -> Seq<char>;

/// Text made of ASCII characters only.
pub open spec fn ascii_text(s: Seq<char>) -> bool {
    forall|i: int| 0 <= i < s.len() ==> (s[i] as u32) < 0x80
}

/// The ASCII lower-case of a character: `A`-`Z` become `a`-`z`, anything else stays.
pub open spec fn ascii_lower(c: char) -> char {
    if 0x41 <= (c as u32) <= 0x5a {
        ((c as u32) + 0x20) as char
    } else {
        c
    }
}

/// The ASCII upper-case of a character: `a`-`z` become `A`-`Z`, anything else stays.
pub open spec fn ascii_upper(c: char) -> char {
    if 0x61 <= (c as u32) <= 0x7a {
        ((c as u32) - 0x20) as char
    } else {
        c
    }
}

/// The lower-case form of a text: its ASCII lower-case when it is all ASCII (which is what
/// the Unicode mapping gives there, see [`to_lowercase`]), else [`unicode_lowercase`].
pub open spec fn lower_case(s: Seq<char>) -> Seq<char> {
    if ascii_text(s) {
        s.map_values(|c: char| ascii_lower(c))
    } else {
        unicode_lowercase(s)
    }
}

proof fn lemma_ascii_lower_char(c: char)
    requires
        (c as u32) < 0x80,
    ensures
        (ascii_lower(c) as u32) == ascii_fold(c),
        (ascii_lower(c) as u32) < 0x80,
        ascii_lower(ascii_lower(c)) == ascii_lower(c),
{
    if 0x41 <= (c as u32) <= 0x5a {
        let d = ((c as u32) + 0x20) as char;
        vstd::utf8::char_u32_cast(d, d as u32);
        assert((d as u32) == (c as u32) + 0x20);
    }
}

/// On ASCII text, lower-casing gives ASCII text of the same length, character by
/// character, and lower-casing again changes nothing.
pub proof fn lemma_lower_case_ascii(s: Seq<char>)
    requires
        ascii_text(s),
    ensures
        lower_case(s).len() == s.len(),
        forall|i: int| 0 <= i < s.len() ==> #[trigger] lower_case(s)[i] == ascii_lower(s[i]),
        ascii_text(lower_case(s)),
        lower_case(lower_case(s)) == lower_case(s),
{
    let l = lower_case(s);
    assert forall|i: int| 0 <= i < s.len() implies (#[trigger] l[i] as u32) < 0x80 && ascii_lower(
        l[i],
    ) == l[i] by {
        lemma_ascii_lower_char(s[i]);
    }
    assert(ascii_text(l));
    assert(lower_case(l) =~= l);
}

/// `lower_case` of an ASCII text `x` is the text `l` when `l` holds, character by
/// character, the ASCII lower case of `x`.
pub proof fn lemma_lowered(x: Seq<char>, l: Seq<char>)
    requires
        ascii_text(x),
        l.len() == x.len(),
        forall|i: int| 0 <= i < x.len() ==> #[trigger] ascii_lower(x[i]) == l[i],
    ensures
        lower_case(x) == l,
{
    lemma_lower_case_ascii(x);
    assert(lower_case(x) =~= l);
}

/// Texts equal up to ASCII case lower-case to the same text.
pub proof fn lemma_fold_same_lower(a: Seq<char>, b: Seq<char>)
    requires
        ascii_text(a),
        ascii_text(b),
        eq_ascii_fold(a, b),
    ensures
        lower_case(a) == lower_case(b),
{
    assert forall|i: int| 0 <= i < a.len() implies lower_case(a)[i] == lower_case(b)[i] by {
        lemma_ascii_lower_char(a[i]);
        lemma_ascii_lower_char(b[i]);
        let x = ascii_lower(a[i]);
        let y = ascii_lower(b[i]);
        vstd::utf8::char_u32_cast(x, x as u32);
        vstd::utf8::char_u32_cast(y, y as u32);
    }
    assert(lower_case(a) =~= lower_case(b));
}

/// Lower-casing ASCII text keeps what it contains: if `x` occurs in `h`, the lower-case of
/// `x` occurs in the lower-case of `h`.
pub proof fn lemma_lower_keeps_infix(h: Seq<char>, x: Seq<char>)
    requires
        ascii_text(h),
        has_infix(h, x),
    ensures
        ascii_text(x),
        has_infix(lower_case(h), lower_case(x)),
{
    let i = choose|i: int| 0 <= i && i + x.len() <= h.len() && #[trigger] h.subrange(i, i + x.len()) == x;
    assert forall|j: int| 0 <= j < x.len() implies (x[j] as u32) < 0x80 by {
        assert(x[j] == h[i + j]);
    }
    let lh = lower_case(h);
    let lx = lower_case(x);
    assert(lh.subrange(i, i + lx.len()) =~= lx) by {
        assert forall|j: int| 0 <= j < x.len() implies lh.subrange(i, i + lx.len())[j] == lx[j] by {
            assert(x[j] == h[i + j]);
        }
    }
}

/// An occurrence inside an occurrence: if `y` occurs in `x` and `x` in `h`, `y` occurs
/// in `h`.
pub proof fn lemma_infix_trans(h: Seq<char>, x: Seq<char>, y: Seq<char>)
    requires
        has_infix(h, x),
        has_infix(x, y),
    ensures
        has_infix(h, y),
{
    let i = choose|i: int| 0 <= i && i + x.len() <= h.len() && #[trigger] h.subrange(i, i + x.len()) == x;
    let j = choose|j: int| 0 <= j && j + y.len() <= x.len() && #[trigger] x.subrange(j, j + y.len()) == y;
    assert(h.subrange(i + j, i + j + y.len()) =~= y) by {
        assert forall|k: int| 0 <= k < y.len() implies h.subrange(i + j, i + j + y.len())[k] == y[k] by {
            assert(y[k] == x.subrange(j, j + y.len())[k]);
            assert(x[j + k] == h.subrange(i, i + x.len())[j + k]);
        }
    }
}

/// Lower-casing ASCII text keeps how it ends: if `h` ends with `x`, the lower-case of
/// `h` ends with the lower-case of `x`.
pub proof fn lemma_lower_keeps_suffix(h: Seq<char>, x: Seq<char>)
    requires
        ascii_text(h),
        x.is_suffix_of(h),
    ensures
        ascii_text(x),
        lower_case(x).is_suffix_of(lower_case(h)),
{
    let d = h.len() - x.len();
    assert forall|j: int| 0 <= j < x.len() implies (x[j] as u32) < 0x80 by {
        assert(x[j] == h.subrange(d, h.len() as int)[j]);
    }
    lemma_lower_case_ascii(h);
    lemma_lower_case_ascii(x);
    let lh = lower_case(h);
    let lx = lower_case(x);
    assert(lh.subrange(d, lh.len() as int) =~= lx) by {
        assert forall|j: int| 0 <= j < x.len() implies lh.subrange(d, lh.len() as int)[j] == lx[j] by {
            assert(x[j] == h.subrange(d, h.len() as int)[j]);
        }
    }
}

/// A lower-case ASCII word met in ASCII text in any mix of case: if `x` occurs in `h` and
/// equals `word` up to ASCII case, `word` occurs in the lower-case of `h`.
pub proof fn lemma_word_any_case(h: Seq<char>, x: Seq<char>, word: Seq<char>)
    requires
        ascii_text(h),
        ascii_text(word),
        has_infix(h, x),
        eq_ascii_fold(x, word),
        forall|i: int| 0 <= i < word.len() ==> !(0x41 <= #[trigger] (word[i] as u32) <= 0x5a),
    ensures
        has_infix(lower_case(h), word),
{
    lemma_lower_keeps_infix(h, x);
    lemma_fold_same_lower(x, word);
    lemma_lowered(word, word);
}

/// The same for a word at the end: if `h` ends with `x`, equal to the lower-case ASCII
/// `word` up to case, the lower-case of `h` ends with `word`.
pub proof fn lemma_ending_any_case(h: Seq<char>, x: Seq<char>, word: Seq<char>)
    requires
        ascii_text(h),
        ascii_text(word),
        x.is_suffix_of(h),
        eq_ascii_fold(x, word),
        forall|i: int| 0 <= i < word.len() ==> !(0x41 <= #[trigger] (word[i] as u32) <= 0x5a),
    ensures
        word.is_suffix_of(lower_case(h)),
{
    lemma_lower_keeps_suffix(h, x);
    lemma_fold_same_lower(x, word);
    lemma_lowered(word, word);
}

/// The upper-case form of a text: its ASCII upper-case when it is all ASCII, else
/// [`unicode_uppercase`].
pub open spec fn upper_case(s: Seq<char>) -> Seq<char> {
    if ascii_text(s) {
        s.map_values(|c: char| ascii_upper(c))
    } else {
        unicode_uppercase(s)
    }
}

/// `str::to_lowercase`, its characters collected. Claimed: the result is
/// [`unicode_lowercase`] of `s`, a function of `s` alone, and on text made of ASCII
/// characters only it is the ASCII lower-case of each character (the Unicode lower-case
/// mapping of an ASCII character is its ASCII one, one character for one). What the
/// mapping does to other text, which takes Unicode's tables to state, is left unsaid.
#[verifier::external_body]
pub(crate) fn to_lowercase(s: &str) -> (res: Vec<char>)
    ensures
        res@ == unicode_lowercase(s@),
        ascii_text(s@) ==> res@ == s@.map_values(|c: char| ascii_lower(c)),
{
    s.to_lowercase().chars().collect()
}

/// `str::to_uppercase`, its characters collected. Claimed: the result is
/// [`unicode_uppercase`] of `s`, a function of `s` alone, and on text made of ASCII
/// characters only it is the ASCII upper-case of each character. What the mapping does to
/// other text is left unsaid.
#[verifier::external_body]
pub(crate) fn to_uppercase(s: &str) -> (res: Vec<char>)
    ensures
        res@ == unicode_uppercase(s@),
        ascii_text(s@) ==> res@ == s@.map_values(|c: char| ascii_upper(c)),
{
    s.to_uppercase().chars().collect()
}

/// `String::from_utf8_lossy`, its characters collected. Claimed: the result is
/// [`utf8_lossy`] of the bytes, a function of the bytes alone, and - as the documentation
/// promises - bytes that are valid UTF-8 come back decoded as they are. What replaces
/// invalid sequences is left unsaid.
#[verifier::external_body]
pub(crate) fn from_utf8_lossy(bytes: &[u8]) -> (res: Vec<char>)
    ensures
        res@ == utf8_lossy(bytes@),
        vstd::utf8::valid_utf8(bytes@) ==> res@ == vstd::utf8::decode_utf8(bytes@),
{
    String::from_utf8_lossy(bytes).chars().collect()
}


/// Appends the characters of `more`.
pub fn extend_chars(out: &mut Vec<char>, more: &Vec<char>)
    ensures
        final(out)@ == old(out)@ + more@,
{
    let mut i: usize = 0;
    while i < more.len()
        invariant
            i <= more.len(),
            out@ == old(out)@ + more@.take(i as int),
        decreases more.len() - i,
    {
        out.push(more[i]);
        assert(more@.take(i + 1) == more@.take(i as int).push(more@[i as int]));
        i = i + 1;
    }
    assert(more@.take(more.len() as int) == more@);
}

/// Appends the characters of a string slice.
pub fn extend_str(out: &mut Vec<char>, more: &str)
    ensures
        final(out)@ == old(out)@ + more@,
{
    let cs = chars_of(more);
    extend_chars(out, &cs);
}

/// `parts` joined with `sep` between neighbours (`[..].join(sep)`).
pub open spec fn join(parts: Seq<Seq<char>>, sep: Seq<char>) -> Seq<char>
    decreases parts.len(),
{
    if parts.len() == 0 {
        seq![]
    } else if parts.len() == 1 {
        parts[0]
    } else {
        join(parts.drop_last(), sep) + sep + parts.last()
    }
}

/// Joins `parts` with `sep` between neighbours.
pub fn join_chars(parts: &Vec<Vec<char>>, sep: &Vec<char>) -> (res: Vec<char>)
    ensures
        res@ == join(views(parts@), sep@),
{
    let mut out: Vec<char> = Vec::new();
    let mut i: usize = 0;
    while i < parts.len()
        invariant
            i <= parts.len(),
            out@ == join(views(parts@.take(i as int)), sep@),
        decreases parts.len() - i,
    {
        let ghost before = views(parts@.take(i as int));
        let ghost after = views(parts@.take(i + 1));
        assert(after.drop_last() =~= before);
        assert(after.last() == parts@[i as int]@);
        if i > 0 {
            extend_chars(&mut out, sep);
        } else {
            assert(after =~= seq![parts@[0]@]);
        }
        extend_chars(&mut out, &parts[i]);
        i = i + 1;
    }
    assert(parts@.take(parts.len() as int) == parts@);
    out
}


/// Whether two character sequences are equal.
pub fn chars_eq(a: &Vec<char>, b: &Vec<char>) -> (res: bool)
    ensures
        res == (a@ == b@),
{
    if a.len() != b.len() {
        return false;
    }
    let r = starts_with(a, b);
    if r {
        assert(a@ =~= b@);
    }
    r
}

/// Whether two string slices hold the same characters.
pub fn str_eq(a: &str, b: &str) -> (res: bool)
    ensures
        res == (a@ == b@),
{
    chars_eq(&chars_of(a), &chars_of(b))
}


/// A path with a Windows verbatim prefix (`\\?\`), which `Path::join` normalizes.
pub open spec fn verbatim(p: Seq<char>) -> bool {
    "\\\\?\\"@.is_prefix_of(p)
}

/// `n` is `.` or `..`.
pub open spec fn dot_name(n: Seq<char>) -> bool {
    n == seq!['.'] || n == seq!['.', '.']
}

/// A join separator: nothing, `/` or `\`.
pub open spec fn is_sep(a: Seq<char>) -> bool {
    a == Seq::<char>::empty() || a == seq!['/'] || a == seq!['\\']
}

/// `s`, split at `\`, has only non-empty components, none of them `.` or `..`.
#[verifier::opaque]
pub open spec fn clean_components(s: Seq<char>) -> bool {
    &&& s.len() > 0
    &&& s[0] != '\\'
    &&& s[s.len() - 1] != '\\'
    &&& forall|i: int| 0 <= i < s.len() - 1 ==> !(#[trigger] s[i] == '\\' && s[i + 1] == '\\')
    &&& forall|i: int|
        0 <= i < s.len() && #[trigger] s[i] == '.' && (i == 0 || s[i - 1] == '\\') ==> i + 1
            < s.len() && s[i + 1] != '\\' && !(s[i + 1] == '.' && (i + 2 == s.len() || s[i + 2]
            == '\\'))
}

/// A verbatim path that normalization leaves as it is: after the `\\?\`, only non-empty
/// components, none of them `.` or `..`.
pub open spec fn verbatim_clean(p: Seq<char>) -> bool {
    verbatim(p) && clean_components(p.skip(4))
}

/// A base that `join_path` states its result for: not verbatim, or verbatim and clean.
pub open spec fn determined(p: Seq<char>) -> bool {
    !verbatim(p) || verbatim_clean(p)
}

/// One plain component: not empty, without `\`, and not `.` or `..`.
pub open spec fn plain_component(n: Seq<char>) -> bool {
    n.len() > 0 && !dot_name(n) && forall|i: int| 0 <= i < n.len() ==> n[i] != '\\'
}

proof fn lemma_plain_is_clean(n: Seq<char>)
    requires
        plain_component(n),
    ensures
        clean_components(n),
{
    reveal(clean_components);
    assert forall|i: int|
        0 <= i < n.len() && #[trigger] n[i] == '.' && (i == 0 || n[i - 1] == '\\') implies i + 1
        < n.len() && n[i + 1] != '\\' && !(n[i + 1] == '.' && (i + 2 == n.len() || n[i + 2]
        == '\\')) by {
        assert(i == 0);
        if n.len() == 1 {
            assert(n =~= seq!['.']);
        }
        if n.len() == 2 && n[1] == '.' {
            assert(n =~= seq!['.', '.']);
        }
    }
}

/// Appending a separator and a plain component to clean components keeps them clean.
proof fn lemma_clean_append(a: Seq<char>, sep: Seq<char>, n: Seq<char>)
    requires
        clean_components(a),
        is_sep(sep),
        plain_component(n),
    ensures
        clean_components(a + sep + n),
{
    reveal(clean_components);
    let s = a + sep + n;
    let k = a.len() + sep.len();
    assert forall|i: int| 0 <= i < s.len() - 1 implies !(#[trigger] s[i] == '\\' && s[i + 1]
        == '\\') by {
        if i + 1 < a.len() {
            assert(s[i] == a[i] && s[i + 1] == a[i + 1]);
        } else if i + 1 == a.len() {
            assert(s[i] == a[a.len() - 1]);
        } else if i >= k {
            assert(s[i] == n[i - k]);
        } else {
            assert(s[i + 1] == n[i + 1 - k]);
        }
    }
    assert forall|i: int|
        0 <= i < s.len() && #[trigger] s[i] == '.' && (i == 0 || s[i - 1] == '\\') implies i + 1
        < s.len() && s[i + 1] != '\\' && !(s[i + 1] == '.' && (i + 2 == s.len() || s[i + 2]
        == '\\')) by {
        if i < a.len() {
            assert(s[i] == a[i]);
            if i > 0 {
                assert(s[i - 1] == a[i - 1]);
            }
            assert(a[i] == '.' && (i == 0 || a[i - 1] == '\\'));
            assert(s[i + 1] == a[i + 1]);
            if a[i + 1] == '.' {
                assert(s[i + 2] == a[i + 2]);
            }
        } else if i < k {
            assert(s[i] == sep[i - a.len()]);
        } else {
            assert(s[i] == n[i - k]);
            if i == k {
                if sep.len() == 0 {
                    assert(s[i - 1] == a[a.len() - 1]);
                } else {
                    assert(s[i - 1] == sep[0]);
                }
            } else {
                assert(s[i - 1] == n[i - 1 - k]);
            }
            assert(i == k);
            assert(sep == seq!['\\']);
            if n.len() == 1 {
                assert(n =~= seq!['.']);
            }
            assert(s[i + 1] == n[1]);
            if n[1] == '.' {
                if n.len() == 2 {
                    assert(n =~= seq!['.', '.']);
                }
                assert(s[i + 2] == n[2]);
            }
        }
    }
}

/// Joining a plain component onto a base that `join_path` states its result for gives
/// again such a base.
pub proof fn lemma_join_keeps_determined(r: Seq<char>, sep: Seq<char>, n: Seq<char>)
    requires
        determined(r),
        is_sep(sep),
        plain_component(n),
    ensures
        determined(r + sep + n),
{
    reveal_strlit("\\\\?\\");
    let v = "\\\\?\\"@;
    let c = r + sep + n;
    if verbatim(c) {
        assert(v =~= seq!['\\', '\\', '?', '\\']);
        assert(c.subrange(0, 4) == v);
        assert(c.subrange(0, 4)[3] == c[3] && c.subrange(0, 4)[2] == c[2]);
        assert(c[3] == '\\' && c[2] == '?');
        if r.len() >= 4 {
            assert(r.subrange(0, 4) =~= c.subrange(0, 4));
            assert(verbatim(r));
            assert(clean_components(r.skip(4)));
            lemma_clean_append(r.skip(4), sep, n);
            assert(c.skip(4) =~= r.skip(4) + sep + n);
        } else {
            let k = r.len() + sep.len();
            if k <= 3 {
                assert(c[3] == n[3 - k]);
            }
            assert(k > 3);
            assert(r.len() == 3 && sep == seq!['\\']);
            lemma_plain_is_clean(n);
            assert(c.skip(4) =~= n);
        }
    }
}

/// `base` joined with the relative component `name` (`Path::join`, then
/// `to_string_lossy`). Claimed: the result is `base` followed by `name`, with at most one
/// separator, `/` or `\`, between them; which one, and whether one is added, depends on
/// the platform and on how `base` ends, and is left unsaid. For a verbatim `base`
/// (`\\?\...`), `PathBuf::push` documents that the new path is normalized (references to
/// `.` and `..` removed; empty components go too), so the claim is made only when that
/// changes nothing: `base` has non-empty components, none `.` or `..`, and `name` is not
/// `.` or `..`. Nothing is claimed for other verbatim bases. `name` is one plain
/// component, so that it cannot replace `base` (an absolute path or a Windows prefix
/// would).
#[verifier::external_body]
pub(crate) fn join_path(base: &str, name: &str) -> (res: String)
    requires
        name@.len() > 0,
        forall|i: int| 0 <= i < name@.len() ==> name@[i] != '/' && name@[i] != '\\' && name@[i] != ':',
    ensures
        (!verbatim(base@) || (verbatim_clean(base@) && !dot_name(name@))) ==> (res@ == base@
            + name@ || res@ == base@ + seq!['/'] + name@ || res@ == base@ + seq!['\\'] + name@),
{
    std::path::Path::new(base).join(name).to_string_lossy().into_owned()
}

} // verus!
