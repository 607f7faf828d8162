//! Everything that goes into or comes back from a PowerShell invocation on Windows:
//! the `-EncodedCommand` encoding, path quoting, the elevation shim's script and the
//! reading of what it printed.
use vstd::prelude::*;
use crate::json::{json_reading, parse_json, Json};
use crate::num::{
    decimal, lemma_decimal_digits, lemma_parse_decimal, parse_i32, parse_i32_spec, signed_decimal,
};
use crate::text::{
    chars_of, extend_chars, extend_str, join, join_chars, lines, lines_of, string_of, trim, trim_chars,
    trim_end, trim_start, views,
};

verus! {

/// The character of the standard base64 alphabet for the 6-bit value `v`.
pub open spec fn b64_char(v: nat) -> char {
    if v < 26 {
        ((0x41 + v) as u8) as char
    } else if v < 52 {
        ((0x61 + v - 26) as u8) as char
    } else if v < 62 {
        ((0x30 + v - 52) as u8) as char
    } else if v == 62 {
        '+'
    } else {
        '/'
    }
}

/// Standard base64 with `=` padding, three input bytes to four output characters.
pub open spec fn base64(input: Seq<u8>) -> Seq<char>
    decreases input.len(),
{
    if input.len() == 0 {
        seq![]
    } else {
        let b0 = input[0] as nat;
        let b1 = if input.len() > 1 { input[1] as nat } else { 0 };
        let b2 = if input.len() > 2 { input[2] as nat } else { 0 };
        let n = b0 * 65536 + b1 * 256 + b2;
        let group = seq![
            b64_char(n / 262144 % 64),
            b64_char(n / 4096 % 64),
            if input.len() > 1 { b64_char(n / 64 % 64) } else { '=' },
            if input.len() > 2 { b64_char(n % 64) } else { '=' },
        ];
        if input.len() <= 3 {
            group
        } else {
            group + base64(input.skip(3))
        }
    }
}

/// The 6-bit value of a character of the base64 alphabet (`=` and other characters read
/// as 0 and 63, and are never produced for data).
pub open spec fn b64_value(c: char) -> nat {
    let u = c as u32;
    if 0x41 <= u <= 0x5a {
        (u - 0x41) as nat
    } else if 0x61 <= u <= 0x7a {
        (u - 0x61 + 26) as nat
    } else if 0x30 <= u <= 0x39 {
        (u - 0x30 + 52) as nat
    } else if c == '+' {
        62
    } else if c == '/' {
        63
    } else {
        0
    }
}

/// Decoding of standard padded base64, as the receiver of `-EncodedCommand` reads it: each
/// group of four characters gives three bytes, two when it ends in `=`, one when it ends
/// in `==`.
pub open spec fn unbase64(s: Seq<char>) -> Seq<u8>
    decreases s.len(),
{
    if s.len() < 4 {
        seq![]
    } else {
        let d2 = if s[2] == '=' { 0 } else { b64_value(s[2]) };
        let d3 = if s[3] == '=' { 0 } else { b64_value(s[3]) };
        let n = b64_value(s[0]) * 262144 + b64_value(s[1]) * 4096 + d2 * 64 + d3;
        let bytes = if s[2] == '=' {
            seq![(n / 65536) as u8]
        } else if s[3] == '=' {
            seq![(n / 65536) as u8, (n / 256 % 256) as u8]
        } else {
            seq![(n / 65536) as u8, (n / 256 % 256) as u8, (n % 256) as u8]
        };
        bytes + unbase64(s.skip(4))
    }
}

proof fn lemma_b64_char(v: nat)
    requires
        v < 64,
    ensures
        b64_value(b64_char(v)) == v,
        b64_char(v) != '=',
{
    if v < 26 {
        assert(b64_char(v) as u32 == 0x41 + v);
    } else if v < 52 {
        assert(b64_char(v) as u32 == 0x61 + v - 26);
    } else if v < 62 {
        assert(b64_char(v) as u32 == 0x30 + v - 52);
    }
}

proof fn lemma_b64_arith(b0: u32, b1: u32, b2: u32)
    requires
        b0 < 256,
        b1 < 256,
        b2 < 256,
    ensures
        ({
            let n = b0 * 65536 + b1 * 256 + b2;
            &&& (n / 262144 % 64) * 262144 + (n / 4096 % 64) * 4096 + (n / 64 % 64) * 64 + n % 64 == n
            &&& n / 65536 == b0
            &&& n / 256 % 256 == b1
            &&& n % 256 == b2
            &&& (b1 == 0 && b2 == 0 ==> n / 64 % 64 == 0 && n % 64 == 0)
            &&& (b2 == 0 ==> n % 64 == 0)
        }),
{
    assert({
        let n = b0 * 65536 + b1 * 256 + b2;
        &&& (n / 262144 % 64) * 262144 + (n / 4096 % 64) * 4096 + (n / 64 % 64) * 64 + n % 64 == n
        &&& n / 65536 == b0
        &&& n / 256 % 256 == b1
        &&& n % 256 == b2
        &&& (b1 == 0 && b2 == 0 ==> n / 64 % 64 == 0 && n % 64 == 0)
        &&& (b2 == 0 ==> n % 64 == 0)
    }) by (bit_vector)
        requires
            b0 < 256,
            b1 < 256,
            b2 < 256,
    ;
}

/// A character of padded base64 text: an ASCII letter or digit, `+`, `/` or `=`.
pub open spec fn base64_text_char(c: char) -> bool {
    let u = c as u32;
    ||| 0x41 <= u <= 0x5a
    ||| 0x61 <= u <= 0x7a
    ||| 0x30 <= u <= 0x39
    ||| c == '+'
    ||| c == '/'
    ||| c == '='
}

proof fn lemma_b64_char_text(v: nat)
    requires
        v < 64,
    ensures
        base64_text_char(b64_char(v)),
{
    if v < 26 {
        assert(b64_char(v) as u32 == 0x41 + v);
    } else if v < 52 {
        assert(b64_char(v) as u32 == 0x61 + v - 26);
    } else if v < 62 {
        assert(b64_char(v) as u32 == 0x30 + v - 52);
    }
}

/// Base64 text holds nothing but the base64 alphabet and `=`.
pub proof fn lemma_base64_alphabet(x: Seq<u8>)
    ensures
        forall|i: int| 0 <= i < base64(x).len() ==> base64_text_char(#[trigger] base64(x)[i]),
    decreases x.len(),
{
    if x.len() > 0 {
        let b0 = x[0] as nat;
        let b1 = if x.len() > 1 { x[1] as nat } else { 0 };
        let b2 = if x.len() > 2 { x[2] as nat } else { 0 };
        let n = b0 * 65536 + b1 * 256 + b2;
        lemma_b64_char_text(n / 262144 % 64);
        lemma_b64_char_text(n / 4096 % 64);
        lemma_b64_char_text(n / 64 % 64);
        lemma_b64_char_text(n % 64);
        let s = base64(x);
        if x.len() > 3 {
            lemma_base64_alphabet(x.skip(3));
            assert forall|i: int| 0 <= i < s.len() implies base64_text_char(#[trigger] s[i]) by {
                if i >= 4 {
                    assert(s[i] == base64(x.skip(3))[i - 4]);
                }
            }
        }
    }
}

/// Base64 loses nothing: decoding the encoding of `x` gives back `x`.
pub proof fn lemma_base64_round_trip(x: Seq<u8>)
    ensures
        unbase64(base64(x)) == x,
    decreases x.len(),
{
    if x.len() > 0 {
        let b0 = x[0] as nat;
        let b1 = if x.len() > 1 { x[1] as nat } else { 0 };
        let b2 = if x.len() > 2 { x[2] as nat } else { 0 };
        let n = b0 * 65536 + b1 * 256 + b2;
        lemma_b64_arith(b0 as u32, b1 as u32, b2 as u32);
        lemma_b64_char(n / 262144 % 64);
        lemma_b64_char(n / 4096 % 64);
        lemma_b64_char(n / 64 % 64);
        lemma_b64_char(n % 64);
        let s = base64(x);
        let rest = if x.len() <= 3 { Seq::<u8>::empty() } else { x.skip(3) };
        if x.len() > 3 {
            lemma_base64_round_trip(x.skip(3));
            assert(s.skip(4) =~= base64(x.skip(3)));
        } else {
            assert(s.skip(4) =~= Seq::<char>::empty());
            assert(unbase64(s.skip(4)) =~= Seq::<u8>::empty());
        }
        assert(s[0] == b64_char(n / 262144 % 64));
        assert(s[1] == b64_char(n / 4096 % 64));
        if x.len() == 1 {
            assert(unbase64(s) =~= seq![x[0]]);
            assert(x =~= seq![x[0]]);
        } else if x.len() == 2 {
            assert(unbase64(s) =~= seq![x[0], x[1]]);
            assert(x =~= seq![x[0], x[1]]);
        } else {
            assert(unbase64(s) =~= seq![x[0], x[1], x[2]] + unbase64(s.skip(4)));
            assert(x =~= seq![x[0], x[1], x[2]] + rest);
        }
    }
}

/// Base64 output has the standard shape: four characters for every three input bytes or
/// part of three, ending in exactly `(3 - n % 3) % 3` padding characters `=`, with no `=`
/// before them.
pub proof fn lemma_base64_shape(x: Seq<u8>)
    ensures
        base64(x).len() == 4 * ((x.len() + 2) / 3),
        forall|i: int|
            0 <= i < base64(x).len() ==> (#[trigger] base64(x)[i] == '=' <==> i >= base64(x).len()
                - (3 - x.len() % 3) % 3),
    decreases x.len(),
{
    if x.len() > 0 {
        let b0 = x[0] as nat;
        let b1 = if x.len() > 1 { x[1] as nat } else { 0 };
        let b2 = if x.len() > 2 { x[2] as nat } else { 0 };
        let n = b0 * 65536 + b1 * 256 + b2;
        lemma_b64_char(n / 262144 % 64);
        lemma_b64_char(n / 4096 % 64);
        lemma_b64_char(n / 64 % 64);
        lemma_b64_char(n % 64);
        let s = base64(x);
        if x.len() > 3 {
            let r = x.skip(3);
            lemma_base64_shape(r);
            assert(r.len() == x.len() - 3);
            assert((x.len() + 2) / 3 == (r.len() + 2) / 3 + 1);
            assert(x.len() % 3 == r.len() % 3);
            assert forall|i: int| 0 <= i < s.len() implies (#[trigger] s[i] == '=' <==> i >= s.len()
                - (3 - x.len() % 3) % 3) by {
                if i >= 4 {
                    assert(s[i] == base64(r)[i - 4]);
                }
            }
        }
    }
}

/// The UTF-16 code units of one character.
pub open spec fn utf16_units(c: char) -> Seq<u16> {
    let u = c as u32;
    if u < 0x10000 {
        seq![u as u16]
    } else {
        seq![(0xd800 + (u - 0x10000) / 1024) as u16, (0xdc00 + (u - 0x10000) % 1024) as u16]
    }
}

/// The UTF-16 encoding of a string (`str::encode_utf16`).
pub open spec fn utf16(s: Seq<char>) -> Seq<u16>
    decreases s.len(),
{
    if s.len() == 0 {
        seq![]
    } else {
        utf16(s.drop_last()) + utf16_units(s.last())
    }
}

/// Code units laid out as little-endian bytes.
pub open spec fn le_bytes(units: Seq<u16>) -> Seq<u8>
    decreases units.len(),
{
    if units.len() == 0 {
        seq![]
    } else {
        le_bytes(units.drop_last()) + seq![
            (units.last() % 256) as u8,
            (units.last() / 256) as u8,
        ]
    }
}

/// What `powershell -EncodedCommand` takes for a script: UTF-16LE, then base64.
pub open spec fn encoded_command(script: Seq<char>) -> Seq<char> {
    base64(le_bytes(utf16(script)))
}

fn b64_digit(v: u32) -> (c: char)
    requires
        v < 64,
    ensures
        c == b64_char(v as nat),
{
    if v < 26 {
        ((0x41 + v) as u8) as char
    } else if v < 52 {
        ((0x61 + v - 26) as u8) as char
    } else if v < 62 {
        ((0x30 + v - 52) as u8) as char
    } else if v == 62 {
        '+'
    } else {
        '/'
    }
}

/// Standard base64 of `input`.
pub fn base64_encode(input: &[u8]) -> (res: Vec<char>)
    ensures
        res@ == base64(input@),
{
    let mut out: Vec<char> = Vec::new();
    let mut i: usize = 0;
    assert(input@.skip(0) == input@);
    while i < input.len()
        invariant
            i <= input.len(),
            out@ + base64(input@.skip(i as int)) == base64(input@),
        decreases input.len() - i,
    {
        let rest = input.len() - i;
        let b0 = input[i] as u32;
        let b1: u32 = if rest > 1 { input[i + 1] as u32 } else { 0 };
        let b2: u32 = if rest > 2 { input[i + 2] as u32 } else { 0 };
        let n = b0 * 65536 + b1 * 256 + b2;
        let c0 = b64_digit(n / 262144 % 64);
        let c1 = b64_digit(n / 4096 % 64);
        let c2 = if rest > 1 { b64_digit(n / 64 % 64) } else { '=' };
        let c3 = if rest > 2 { b64_digit(n % 64) } else { '=' };
        let ghost tail = input@.skip(i as int);
        let ghost group = seq![c0, c1, c2, c3];
        out.push(c0);
        out.push(c1);
        out.push(c2);
        out.push(c3);
        if rest <= 3 {
            assert(base64(tail) == group);
            assert(input@.skip(input.len() as int) =~= Seq::<u8>::empty());
            i = input.len();
        } else {
            assert(tail.skip(3) =~= input@.skip(i + 3));
            assert(base64(tail) == group + base64(input@.skip(i + 3)));
            i = i + 3;
        }
    }
    assert(input@.skip(input.len() as int) =~= Seq::<u8>::empty());
    out
}

/// UTF-16 of `s`, each unit as two little-endian bytes.
pub fn utf16_le_bytes(s: &Vec<char>) -> (res: Vec<u8>)
    ensures
        res@ == le_bytes(utf16(s@)),
{
    let mut out: Vec<u8> = Vec::new();
    let ghost mut units: Seq<u16> = seq![];
    let mut i: usize = 0;
    while i < s.len()
        invariant
            i <= s.len(),
            units == utf16(s@.take(i as int)),
            out@ == le_bytes(units),
        decreases s.len() - i,
    {
        let u = s[i] as u32;
        assert(s@.take(i + 1).drop_last() == s@.take(i as int));
        if u < 0x10000 {
            let w = u as u16;
            out.push((w % 256) as u8);
            out.push((w / 256) as u8);
            proof {
                let nu = units.push(w);
                assert(nu.drop_last() == units);
                assert(out@ =~= le_bytes(nu));
                assert(utf16_units(s@[i as int]) == seq![w]);
                assert(nu =~= units + seq![w]);
                units = nu;
            }
        } else {
            let hi = (0xd800 + (u - 0x10000) / 1024) as u16;
            let lo = (0xdc00 + (u - 0x10000) % 1024) as u16;
            out.push((hi % 256) as u8);
            out.push((hi / 256) as u8);
            out.push((lo % 256) as u8);
            out.push((lo / 256) as u8);
            proof {
                let n1 = units.push(hi);
                let n2 = n1.push(lo);
                assert(n1.drop_last() == units);
                assert(n2.drop_last() == n1);
                assert(le_bytes(n1) =~= le_bytes(units) + seq![(hi % 256) as u8, (hi / 256) as u8]);
                assert(out@ =~= le_bytes(n2));
                assert(utf16_units(s@[i as int]) == seq![hi, lo]);
                assert(n2 =~= units + seq![hi, lo]);
                units = n2;
            }
        }
        i = i + 1;
    }
    assert(s@.take(s.len() as int) == s@);
    out
}

/// The UTF-16 code units of `s` (`str::encode_utf16`).
pub fn encode_utf16(s: &Vec<char>) -> (res: Vec<u16>)
    ensures
        res@ == utf16(s@),
{
    let mut out: Vec<u16> = Vec::new();
    let mut i: usize = 0;
    while i < s.len()
        invariant
            i <= s.len(),
            out@ == utf16(s@.take(i as int)),
        decreases s.len() - i,
    {
        let u = s[i] as u32;
        assert(s@.take(i + 1).drop_last() == s@.take(i as int));
        if u < 0x10000 {
            out.push(u as u16);
            assert(utf16_units(s@[i as int]) == seq![u as u16]);
        } else {
            let hi = (0xd800 + (u - 0x10000) / 1024) as u16;
            let lo = (0xdc00 + (u - 0x10000) % 1024) as u16;
            out.push(hi);
            out.push(lo);
            assert(utf16_units(s@[i as int]) == seq![hi, lo]);
        }
        assert(out@ =~= utf16(s@.take(i + 1)));
        i = i + 1;
    }
    assert(s@.take(s.len() as int) == s@);
    out
}

/// Little-endian bytes read back as 16-bit code units, two bytes each (a last odd byte
/// is dropped).
pub open spec fn from_le_bytes(b: Seq<u8>) -> Seq<u16>
    decreases b.len(),
{
    if b.len() < 2 {
        seq![]
    } else {
        from_le_bytes(b.take(b.len() - 2)).push(
            (b[b.len() - 2] as nat + b[b.len() - 1] as nat * 256) as u16,
        )
    }
}

/// UTF-16 decoding: a high surrogate followed by a low one is one character, any other
/// surrogate stands for U+FFFD, every other unit for itself.
pub open spec fn from_utf16(u: Seq<u16>) -> Seq<char>
    decreases u.len(),
{
    if u.len() == 0 {
        seq![]
    } else {
        let lo = u.last();
        if u.len() >= 2 && 0xdc00 <= lo < 0xe000 && 0xd800 <= u[u.len() - 2] < 0xdc00 {
            let hi = u[u.len() - 2];
            from_utf16(u.take(u.len() - 2)).push(
                ((0x10000 + (hi - 0xd800) * 1024 + (lo - 0xdc00)) as u32) as char,
            )
        } else if 0xd800 <= lo < 0xe000 {
            from_utf16(u.drop_last()).push('\u{fffd}')
        } else {
            from_utf16(u.drop_last()).push((lo as u32) as char)
        }
    }
}

/// Little-endian layout loses nothing: the bytes read back as the units.
pub proof fn lemma_le_bytes_round_trip(units: Seq<u16>)
    ensures
        le_bytes(units).len() == 2 * units.len(),
        from_le_bytes(le_bytes(units)) == units,
    decreases units.len(),
{
    if units.len() > 0 {
        lemma_le_bytes_round_trip(units.drop_last());
        let b = le_bytes(units);
        let w = units.last();
        assert(b.take(b.len() - 2) =~= le_bytes(units.drop_last()));
        assert(b[b.len() - 2] == (w % 256) as u8);
        assert(b[b.len() - 1] == (w / 256) as u8);
        assert((w % 256) as nat + (w / 256) as nat * 256 == w as nat);
        assert(units.drop_last().push(w) =~= units);
    }
}

/// UTF-16 loses nothing: the code units of `s` decode back to `s`.
pub proof fn lemma_utf16_round_trip(s: Seq<char>)
    ensures
        from_utf16(utf16(s)) == s,
    decreases s.len(),
{
    if s.len() > 0 {
        lemma_utf16_round_trip(s.drop_last());
        let c = s.last();
        let u = c as u32;
        vstd::utf8::char_is_scalar(c);
        vstd::utf8::char_u32_cast(c, u);
        let pre = utf16(s.drop_last());
        let all = utf16(s);
        assert(s.drop_last().push(c) =~= s);
        if u < 0x10000 {
            let w = u as u16;
            assert(all =~= pre.push(w));
            assert(all.drop_last() =~= pre);
            assert(!(0xd800 <= w < 0xe000));
            assert((w as u32) as char == c);
        } else {
            let hi = (0xd800 + (u - 0x10000) / 1024) as u16;
            let lo = (0xdc00 + (u - 0x10000) % 1024) as u16;
            assert(u <= 0x10ffff);
            assert((u - 0x10000) / 1024 < 1024);
            assert(all =~= pre.push(hi).push(lo));
            assert(all.take(all.len() - 2) =~= pre);
            assert(all[all.len() - 2] == hi);
            assert(all.last() == lo);
            assert(0x10000 + (hi - 0xd800) * 1024 + (lo - 0xdc00) == u);
            assert(((0x10000 + (hi - 0xd800) * 1024 + (lo - 0xdc00)) as u32) as char == c);
        }
    }
}

/// The script reaches PowerShell byte for byte: decoding the `-EncodedCommand` argument
/// (base64, then UTF-16LE) gives back the script, and the argument holds nothing but
/// base64 characters, which neither command-line parser interprets.
pub proof fn lemma_encoded_command_round_trip(script: Seq<char>)
    ensures
        from_utf16(from_le_bytes(unbase64(encoded_command(script)))) == script,
        forall|i: int|
            0 <= i < encoded_command(script).len() ==> base64_text_char(
                #[trigger] encoded_command(script)[i],
            ),
{
    lemma_base64_alphabet(le_bytes(utf16(script)));
    lemma_base64_round_trip(le_bytes(utf16(script)));
    lemma_le_bytes_round_trip(utf16(script));
    lemma_utf16_round_trip(script);
}

/// Encodes a script the way `-EncodedCommand` expects: UTF-16LE, then base64.
pub fn encode_command(script: &str) -> (res: String)
    ensures
        res@ == encoded_command(script@),
{
    let cs = chars_of(script);
    let bytes = utf16_le_bytes(&cs);
    let out = base64_encode(bytes.as_slice());
    string_of(&out)
}


/// A path with the `\\?\` extended-length prefix removed (`\\?\UNC\srv` becomes `\\srv`);
/// anything else, `\\.\` device paths among them, unchanged.
pub open spec fn simplified(s: Seq<char>) -> Seq<char> {
    let unc = "\\\\?\\UNC\\"@;
    let verbatim = "\\\\?\\"@;
    if unc.is_prefix_of(s) {
        "\\\\"@ + s.skip(unc.len() as int)
    } else if verbatim.is_prefix_of(s) {
        s.skip(verbatim.len() as int)
    } else {
        s
    }
}

/// Device paths such as `\\.\PhysicalDrive1` use another prefix than the verbatim one and
/// come out of `simplify` untouched.
pub proof fn lemma_device_paths_survive(s: Seq<char>)
    requires
        "\\\\.\\"@.is_prefix_of(s),
    ensures
        simplified(s) == s,
{
    reveal_strlit("\\\\.\\");
    reveal_strlit("\\\\?\\UNC\\");
    reveal_strlit("\\\\?\\");
    let dev = "\\\\.\\"@;
    assert(dev[2] == '.');
    assert(s.subrange(0, dev.len() as int) == dev);
    assert(s[2] == s.subrange(0, dev.len() as int)[2]);
    assert(s[2] == '.');
    assert(!"\\\\?\\UNC\\"@.is_prefix_of(s)) by {
        if "\\\\?\\UNC\\"@.is_prefix_of(s) {
            assert(s[2] == "\\\\?\\UNC\\"@[2]);
        }
    }
    assert(!"\\\\?\\"@.is_prefix_of(s)) by {
        if "\\\\?\\"@.is_prefix_of(s) {
            assert(s[2] == "\\\\?\\"@[2]);
        }
    }
}

/// Strips the `\\?\` extended-length prefix from a path.
///
/// The path is taken as the string that `Path::to_string_lossy` gives for it.
pub fn simplify(path: &str) -> (res: String)
    ensures
        res@ == simplified(path@),
{
    let s = chars_of(path);
    let unc = chars_of("\\\\?\\UNC\\");
    let verbatim = chars_of("\\\\?\\");
    let mut out: Vec<char> = Vec::new();
    if crate::text::starts_with(&s, &unc) {
        extend_str(&mut out, "\\\\");
        let rest = crate::text::copy_range(&s, unc.len(), s.len());
        extend_chars(&mut out, &rest);
    } else if crate::text::starts_with(&s, &verbatim) {
        let rest = crate::text::copy_range(&s, verbatim.len(), s.len());
        extend_chars(&mut out, &rest);
    } else {
        extend_chars(&mut out, &s);
    }
    string_of(&out)
}

/// `s` with every `'` doubled.
pub open spec fn doubled_quotes(s: Seq<char>) -> Seq<char>
    decreases s.len(),
{
    if s.len() == 0 {
        seq![]
    } else {
        doubled_quotes(s.drop_last()) + if s.last() == '\'' {
            seq!['\'', '\'']
        } else {
            seq![s.last()]
        }
    }
}

/// `s` as a PowerShell single-quoted (literal) string.
pub open spec fn quoted(s: Seq<char>) -> Seq<char> {
    seq!['\''] + doubled_quotes(s) + seq!['\'']
}

/// A character PowerShell takes as a single quote: the ASCII one and the typographic
/// U+2018 to U+201B.
pub open spec fn ps_quote_char(c: char) -> bool {
    c == '\'' || c == '\u{2018}' || c == '\u{2019}' || c == '\u{201a}' || c == '\u{201b}'
}

/// How PowerShell reads the body of a single-quoted string, from just after its opening
/// quote: two quote characters in a row stand for one quote, a lone one closes the
/// string. The value and the text after the closing quote, or `None` when it never
/// closes.
pub open spec fn ps_quoted_body(t: Seq<char>) -> Option<(Seq<char>, Seq<char>)>
    decreases t.len(),
{
    if t.len() == 0 {
        None
    } else if ps_quote_char(t[0]) {
        if t.len() >= 2 && ps_quote_char(t[1]) {
            match ps_quoted_body(t.skip(2)) {
                Some((v, r)) => Some((seq![t[0]] + v, r)),
                None => None,
            }
        } else {
            Some((seq![], t.skip(1)))
        }
    } else {
        match ps_quoted_body(t.skip(1)) {
            Some((v, r)) => Some((seq![t[0]] + v, r)),
            None => None,
        }
    }
}

/// How PowerShell reads a single-quoted string at the start of `t`.
pub open spec fn ps_literal(t: Seq<char>) -> Option<(Seq<char>, Seq<char>)> {
    if t.len() > 0 && ps_quote_char(t[0]) {
        ps_quoted_body(t.skip(1))
    } else {
        None
    }
}

proof fn lemma_doubled_quotes_append(a: Seq<char>, b: Seq<char>)
    ensures
        doubled_quotes(a + b) == doubled_quotes(a) + doubled_quotes(b),
    decreases b.len(),
{
    if b.len() == 0 {
        assert(a + b =~= a);
        assert(doubled_quotes(a) + doubled_quotes(b) =~= doubled_quotes(a));
    } else {
        lemma_doubled_quotes_append(a, b.drop_last());
        assert((a + b).drop_last() =~= a + b.drop_last());
        assert((a + b).last() == b.last());
    }
}

proof fn lemma_quoted_body(s: Seq<char>, rest: Seq<char>)
    requires
        forall|i: int| 0 <= i < s.len() ==> s[i] == '\'' || !ps_quote_char(#[trigger] s[i]),
        rest.len() == 0 || !ps_quote_char(rest[0]),
    ensures
        ps_quoted_body(doubled_quotes(s) + seq!['\''] + rest) == Some((s, rest)),
    decreases s.len(),
{
    let t = doubled_quotes(s) + seq!['\''] + rest;
    if s.len() == 0 {
        assert(doubled_quotes(s) =~= Seq::<char>::empty());
        assert(t =~= seq!['\''] + rest);
        assert(t.skip(1) =~= rest);
        if t.len() >= 2 {
            assert(t[1] == rest[0]);
        }
    } else {
        let c = s[0];
        let tail = s.skip(1);
        assert(s =~= seq![c] + tail);
        lemma_doubled_quotes_append(seq![c], tail);
        assert(seq![c].drop_last() =~= Seq::<char>::empty());
        assert(seq![c].last() == c);
        assert(doubled_quotes(Seq::<char>::empty()) =~= Seq::<char>::empty());
        lemma_quoted_body(tail, rest);
        let inner = doubled_quotes(tail) + seq!['\''] + rest;
        if c == '\'' {
            assert(doubled_quotes(seq![c]) =~= seq!['\'', '\'']);
            assert(t =~= seq!['\'', '\''] + inner);
            assert(t.skip(2) =~= inner);
        } else {
            assert(doubled_quotes(seq![c]) =~= seq![c]);
            assert(t =~= seq![c] + inner);
            assert(t.skip(1) =~= inner);
            assert(!ps_quote_char(c));
        }
    }
}

/// A quoted value reads back as itself in PowerShell, and the string closes exactly where
/// `quote` closed it, so that nothing of the value leaks into the script around it. This
/// holds of any value without typographic single quotes (which PowerShell also takes as
/// quotes and `quote` leaves alone), followed by anything but a quote character.
pub proof fn lemma_quote_reads_back(s: Seq<char>, rest: Seq<char>)
    requires
        forall|i: int| 0 <= i < s.len() ==> s[i] == '\'' || !ps_quote_char(#[trigger] s[i]),
        rest.len() == 0 || !ps_quote_char(rest[0]),
    ensures
        ps_literal(quoted(s) + rest) == Some((s, rest)),
{
    lemma_quoted_body(s, rest);
    let t = quoted(s) + rest;
    assert(t.skip(1) =~= doubled_quotes(s) + seq!['\''] + rest);
}

/// How many `'` characters `s` holds.
pub open spec fn quote_count(s: Seq<char>) -> nat
    decreases s.len(),
{
    if s.len() == 0 {
        0
    } else {
        quote_count(s.drop_last()) + if s.last() == '\'' {
            1nat
        } else {
            0nat
        }
    }
}

/// `t` with every `''` read as `'`, left to right (`str::replace("''", "'")`).
pub open spec fn undoubled(t: Seq<char>) -> Seq<char>
    decreases t.len(),
{
    if t.len() == 0 {
        seq![]
    } else if t.len() >= 2 && t[0] == '\'' && t[1] == '\'' {
        seq!['\''] + undoubled(t.skip(2))
    } else {
        seq![t[0]] + undoubled(t.skip(1))
    }
}

proof fn lemma_doubled_quotes_len(s: Seq<char>)
    ensures
        doubled_quotes(s).len() == s.len() + quote_count(s),
    decreases s.len(),
{
    if s.len() > 0 {
        lemma_doubled_quotes_len(s.drop_last());
    }
}

proof fn lemma_undoubled(s: Seq<char>)
    ensures
        undoubled(doubled_quotes(s)) == s,
    decreases s.len(),
{
    if s.len() > 0 {
        let c = s[0];
        let tail = s.skip(1);
        assert(s =~= seq![c] + tail);
        lemma_doubled_quotes_append(seq![c], tail);
        assert(seq![c].drop_last() =~= Seq::<char>::empty());
        assert(seq![c].last() == c);
        assert(doubled_quotes(Seq::<char>::empty()) =~= Seq::<char>::empty());
        lemma_undoubled(tail);
        let t = doubled_quotes(s);
        if c == '\'' {
            assert(doubled_quotes(seq![c]) =~= seq!['\'', '\'']);
            assert(t =~= seq!['\'', '\''] + doubled_quotes(tail));
            assert(t.skip(2) =~= doubled_quotes(tail));
            assert(undoubled(t) =~= seq!['\''] + tail);
        } else {
            assert(doubled_quotes(seq![c]) =~= seq![c]);
            assert(t =~= seq![c] + doubled_quotes(tail));
            assert(t.skip(1) =~= doubled_quotes(tail));
            assert(undoubled(t) =~= seq![c] + tail);
        }
    } else {
        assert(doubled_quotes(s) =~= Seq::<char>::empty());
    }
}

/// The shape of a quoted value: it opens and closes with `'`, is as long as the value plus
/// the two quotes plus one more character per `'` in the value, and reading each `''` of
/// its inside as `'` gives the value back.
pub proof fn lemma_quoted_shape(s: Seq<char>)
    ensures
        quoted(s).len() == s.len() + 2 + quote_count(s),
        quoted(s)[0] == '\'',
        quoted(s)[quoted(s).len() - 1] == '\'',
        undoubled(quoted(s).subrange(1, quoted(s).len() - 1)) == s,
{
    lemma_doubled_quotes_len(s);
    lemma_undoubled(s);
    let q = quoted(s);
    assert(q.subrange(1, q.len() - 1) =~= doubled_quotes(s));
}

/// Wraps a value in a PowerShell single-quoted string, escaping quotes.
pub fn quote(s: &str) -> (res: String)
    ensures
        res@ == quoted(s@),
{
    let cs = chars_of(s);
    let mut out: Vec<char> = Vec::new();
    out.push('\'');
    let mut i: usize = 0;
    while i < cs.len()
        invariant
            i <= cs.len(),
            out@ == seq!['\''] + doubled_quotes(cs@.take(i as int)),
        decreases cs.len() - i,
    {
        assert(cs@.take(i + 1).drop_last() == cs@.take(i as int));
        let ghost before = out@;
        if cs[i] == '\'' {
            out.push('\'');
            out.push('\'');
        } else {
            out.push(cs[i]);
        }
        assert(out@ =~= seq!['\''] + doubled_quotes(cs@.take(i + 1)));
        i = i + 1;
    }
    out.push('\'');
    assert(cs@.take(cs.len() as int) == cs@);
    assert(out@ =~= quoted(s@));
    string_of(&out)
}

/// The non-blank lines among `ls`, each trimmed, in order.
pub open spec fn meaningful(ls: Seq<Seq<char>>) -> Seq<Seq<char>>
    decreases ls.len(),
{
    if ls.len() == 0 {
        seq![]
    } else if trim(ls.last()).len() > 0 {
        meaningful(ls.drop_last()).push(trim(ls.last()))
    } else {
        meaningful(ls.drop_last())
    }
}

/// The last `n` items of `s` (all of them when there are fewer).
pub open spec fn last_n<A>(s: Seq<A>, n: nat) -> Seq<A> {
    if s.len() <= n {
        s
    } else {
        s.skip(s.len() - n)
    }
}

/// The last `lines` non-blank lines of `output`, trimmed and joined by `" / "`.
pub open spec fn tail_of(output: Seq<char>, n: nat) -> Seq<char> {
    join(last_n(meaningful(lines(output)), n), " / "@)
}

/// The last `lines` non-blank lines of a captured output, joined for a single-line error
/// message.
pub fn output_tail(output: &str, lines: usize) -> (res: String)
    ensures
        res@ == tail_of(output@, lines as nat),
{
    let text = chars_of(output);
    let all = lines_of(&text);
    let mut kept: Vec<Vec<char>> = Vec::new();
    let mut i: usize = 0;
    while i < all.len()
        invariant
            i <= all.len(),
            views(kept@) == meaningful(views(all@).take(i as int)),
        decreases all.len() - i,
    {
        let t = trim_chars(&all[i]);
        let ghost pre = views(all@).take(i as int);
        let ghost now = views(all@).take(i + 1);
        assert(now.drop_last() =~= pre);
        assert(now.last() == all@[i as int]@);
        if t.len() > 0 {
            let ghost before = views(kept@);
            kept.push(t);
            assert(views(kept@) =~= before.push(t@));
        }
        i = i + 1;
    }
    assert(views(all@).take(all.len() as int) =~= views(all@));
    let start: usize = if kept.len() <= lines {
        0
    } else {
        kept.len() - lines
    };
    let mut last: Vec<Vec<char>> = Vec::new();
    let mut k = start;
    while k < kept.len()
        invariant
            start <= k <= kept.len(),
            views(last@) == views(kept@).subrange(start as int, k as int),
        decreases kept.len() - k,
    {
        let ghost before = views(last@);
        last.push(crate::text::copy_range(&kept[k], 0, kept[k].len()));
        assert(kept[k as int]@.subrange(0, kept[k as int]@.len() as int) == kept[k as int]@);
        assert(views(last@) =~= before.push(kept@[k as int]@));
        assert(views(kept@).subrange(start as int, k + 1) =~= views(kept@).subrange(
            start as int,
            k as int,
        ).push(kept@[k as int]@));
        k = k + 1;
    }
    assert(views(last@) =~= last_n(views(kept@), lines as nat));
    let sep = chars_of(" / ");
    let joined = join_chars(&last, &sep);
    string_of(&joined)
}


/// What [`json_array`] gives for a (non-blank, trimmed) text that `serde_json` read as
/// `reading`.
pub open spec fn json_items(reading: Result<Json, Seq<char>>, what: Seq<char>) -> Result<
    Seq<Json>,
    Seq<char>,
> {
    match reading {
        Err(e) => Err("failed to parse "@ + what + " JSON: "@ + e),
        Ok(Json::Null) => Ok(seq![]),
        Ok(Json::Array(items)) => Ok(items@),
        Ok(single) => Ok(seq![single]),
    }
}

/// The items of a parsed PowerShell JSON document: none for `null`, the elements of an
/// array, or the one bare object that Windows PowerShell 5.1 prints for a single result.
pub fn items_of(reading: Result<Json, String>, what: &str) -> (res: Result<Vec<Json>, String>)
    ensures
        match res {
            Ok(items) => json_items(
                match reading {
                    Ok(v) => Ok(v),
                    Err(e) => Err(e@),
                },
                what@,
            ) == Ok::<Seq<Json>, Seq<char>>(items@),
            Err(e) => json_items(
                match reading {
                    Ok(v) => Ok(v),
                    Err(e) => Err(e@),
                },
                what@,
            ) == Err::<Seq<Json>, Seq<char>>(e@),
        },
{
    match reading {
        Err(e) => {
            let mut msg: Vec<char> = Vec::new();
            extend_str(&mut msg, "failed to parse ");
            extend_str(&mut msg, what);
            extend_str(&mut msg, " JSON: ");
            extend_str(&mut msg, e.as_str());
            Err(string_of(&msg))
        },
        Ok(Json::Null) => Ok(Vec::new()),
        Ok(Json::Array(items)) => Ok(items),
        Ok(single) => {
            let mut v: Vec<Json> = Vec::new();
            v.push(single);
            Ok(v)
        },
    }
}

/// Parses PowerShell JSON output that is meant to be a list, accepting both the array and
/// the bare-object shape. A blank text is an empty list.
///
/// The items are handed back as [`Json`]; turning each into the caller's own type is a
/// `serde` parse and happens at the caller.
pub fn json_array(text: &str, what: &str) -> (res: Result<Vec<Json>, String>)
    ensures
        trim(text@).len() == 0 ==> (res matches Ok(items) && items@.len() == 0),
        trim(text@).len() > 0 ==> match res {
            Ok(items) => json_items(json_reading(trim(text@)), what@) == Ok::<
                Seq<Json>,
                Seq<char>,
            >(items@),
            Err(e) => json_items(json_reading(trim(text@)), what@) == Err::<Seq<Json>, Seq<char>>(
                e@,
            ),
        },
{
    let trimmed = string_of(&trim_chars(&chars_of(text)));
    if trimmed.as_str().is_empty() {
        return Ok(Vec::new());
    }
    let reading = parse_json(trimmed.as_str());
    items_of(reading, what)
}


/// What a finished child process left behind: its exit code (`None` when a signal ended it)
/// and the bytes it wrote to standard output and standard error.
pub struct ProcessOutput {
    pub code: Option<i32>,
    pub stdout: Vec<u8>,
    pub stderr: Vec<u8>,
}

/// What [`run`] returns for a PowerShell run, given how starting it went.
pub open spec fn run_result(what: Seq<char>, spawned: Result<ProcessOutput, String>) -> Result<
    Seq<char>,
    Seq<char>,
> {
    match spawned {
        Err(e) => Err("failed to run powershell for "@ + what + ": "@ + e@),
        Ok(out) => if out.code == Some(0i32) {
            Ok(crate::text::utf8_lossy(out.stdout@))
        } else {
            Err(what + " failed: "@ + trim(crate::text::utf8_lossy(out.stderr@)))
        },
    }
}

/// The standard output of a PowerShell run, or why it failed. `what` names the operation
/// in errors; `spawned` is how launching the process went, with the launch error's text.
pub fn run(what: &str, spawned: Result<ProcessOutput, String>) -> (res: Result<String, String>)
    ensures
        match res {
            Ok(out) => run_result(what@, spawned) == Ok::<Seq<char>, Seq<char>>(out@),
            Err(e) => run_result(what@, spawned) == Err::<Seq<char>, Seq<char>>(e@),
        },
{
    match spawned {
        Err(e) => {
            let mut msg: Vec<char> = Vec::new();
            extend_str(&mut msg, "failed to run powershell for ");
            extend_str(&mut msg, what);
            extend_str(&mut msg, ": ");
            extend_str(&mut msg, e.as_str());
            Err(string_of(&msg))
        },
        Ok(out) => {
            if out.code == Some(0i32) {
                Ok(string_of(&crate::text::from_utf8_lossy(out.stdout.as_slice())))
            } else {
                let mut msg: Vec<char> = Vec::new();
                extend_str(&mut msg, what);
                extend_str(&mut msg, " failed: ");
                let detail = trim_chars(&crate::text::from_utf8_lossy(out.stderr.as_slice()));
                extend_chars(&mut msg, &detail);
                Err(string_of(&msg))
            }
        },
    }
}

/// What the user is told when they decline the UAC prompt.
pub const DENIED: &'static str = "Authorization was denied - approve the Windows prompt to continue.";

/// The tail of the elevation shim, after the optional `Start-Process` parameters: report a
/// declined prompt as exit code 1223, any other launch failure as 1 with its message on
/// standard error, and otherwise the child's exit code on standard output.
pub const SHIM_TAIL: &'static str = " } catch { $w = $_.Exception; if ($w -isnot [System.ComponentModel.Win32Exception]) { $w = $w.InnerException }; if ($w -is [System.ComponentModel.Win32Exception] -and $w.NativeErrorCode -eq 1223) { exit 1223 }; [Console]::Error.Write($_.Exception.Message); exit 1 }; Write-Output ('EXIT=' + [string][int]$p.ExitCode); exit 0";

/// The PowerShell script that starts `exe` elevated and reports its exit code.
pub open spec fn shim_script(exe: Seq<char>, args: Seq<char>, working_dir: Option<Seq<char>>) -> Seq<
    char,
> {
    "$ErrorActionPreference='Stop'; try { $p = Start-Process -FilePath "@ + quoted(
        simplified(exe),
    ) + " -Verb RunAs -WindowStyle Hidden -Wait -PassThru"@ + (if args.len() > 0 {
        " -ArgumentList "@ + quoted(args)
    } else {
        seq![]
    }) + (match working_dir {
        Some(dir) => " -WorkingDirectory "@ + quoted(simplified(dir)),
        None => seq![],
    }) + SHIM_TAIL@
}

/// Builds the script that runs `exe` elevated (UAC prompt), waits for it and prints its
/// exit code as `EXIT=<code>`. `args` is passed to the child verbatim as its command line.
pub fn elevation_script(exe: &str, args: &str, working_dir: Option<&str>) -> (res: String)
    ensures
        res@ == shim_script(
            exe@,
            args@,
            match working_dir {
                Some(d) => Some(d@),
                None => None,
            },
        ),
{
    let mut out: Vec<char> = Vec::new();
    extend_str(&mut out, "$ErrorActionPreference='Stop'; try { $p = Start-Process -FilePath ");
    let exe_q = quote(simplify(exe).as_str());
    extend_str(&mut out, exe_q.as_str());
    extend_str(&mut out, " -Verb RunAs -WindowStyle Hidden -Wait -PassThru");
    let ghost head = out@;
    if !args.is_empty() {
        extend_str(&mut out, " -ArgumentList ");
        extend_str(&mut out, quote(args).as_str());
    }
    let ghost with_args = out@;
    match working_dir {
        Some(dir) => {
            extend_str(&mut out, " -WorkingDirectory ");
            extend_str(&mut out, quote(simplify(dir).as_str()).as_str());
        },
        None => {},
    }
    let ghost with_dir = out@;
    extend_str(&mut out, SHIM_TAIL);
    proof {
        let wd = match working_dir {
            Some(d) => Some(d@),
            None => None,
        };
        let a = if args@.len() > 0 {
            " -ArgumentList "@ + quoted(args@)
        } else {
            seq![]
        };
        let w = match wd {
            Some(dir) => " -WorkingDirectory "@ + quoted(simplified(dir)),
            None => seq![],
        };
        assert(with_args =~= head + a);
        assert(with_dir =~= head + a + w);
        assert(out@ =~= shim_script(exe@, args@, wd));
    }
    string_of(&out)
}

/// The exit code that a line of shim output reports, if it is an `EXIT=<code>` line.
pub open spec fn exit_marker(line: Seq<char>) -> Option<int> {
    let t = trim(line);
    if "EXIT="@.is_prefix_of(t) {
        parse_i32_spec(t.skip(5))
    } else {
        None
    }
}

/// The exit code reported by the last `EXIT=<code>` line among `ls`.
pub open spec fn last_exit_code(ls: Seq<Seq<char>>) -> Option<int>
    decreases ls.len(),
{
    if ls.len() == 0 {
        None
    } else {
        match exit_marker(ls.last()) {
            Some(c) => Some(c),
            None => last_exit_code(ls.drop_last()),
        }
    }
}

/// The shim binds the elevated child started by `Start-Process -Wait -PassThru` to `$p`,
/// and its last statement prints `EXIT=` followed by that child's `ExitCode`.
pub proof fn lemma_shim_reports_child_exit(
    exe: Seq<char>,
    args: Seq<char>,
    working_dir: Option<Seq<char>>,
)
    ensures
        ("$ErrorActionPreference='Stop'; try { $p = Start-Process -FilePath "@ + quoted(
            simplified(exe),
        ) + " -Verb RunAs -WindowStyle Hidden -Wait -PassThru"@).is_prefix_of(
            shim_script(exe, args, working_dir),
        ),
        "Write-Output ('EXIT=' + [string][int]$p.ExitCode); exit 0"@.is_suffix_of(
            shim_script(exe, args, working_dir),
        ),
{
    reveal_strlit(" } catch { $w = $_.Exception; if ($w -isnot [System.ComponentModel.Win32Exception]) { $w = $w.InnerException }; if ($w -is [System.ComponentModel.Win32Exception] -and $w.NativeErrorCode -eq 1223) { exit 1223 }; [Console]::Error.Write($_.Exception.Message); exit 1 }; Write-Output ('EXIT=' + [string][int]$p.ExitCode); exit 0");
    reveal_strlit("Write-Output ('EXIT=' + [string][int]$p.ExitCode); exit 0");
    let head = "$ErrorActionPreference='Stop'; try { $p = Start-Process -FilePath "@ + quoted(
        simplified(exe),
    ) + " -Verb RunAs -WindowStyle Hidden -Wait -PassThru"@;
    let a = if args.len() > 0 {
        " -ArgumentList "@ + quoted(args)
    } else {
        seq![]
    };
    let w = match working_dir {
        Some(dir) => " -WorkingDirectory "@ + quoted(simplified(dir)),
        None => seq![],
    };
    let tail = SHIM_TAIL@;
    let fin = "Write-Output ('EXIT=' + [string][int]$p.ExitCode); exit 0"@;
    let script = shim_script(exe, args, working_dir);
    assert(script == head + a + w + tail);
    assert(fin =~= tail.subrange(tail.len() - fin.len(), tail.len() as int));
    assert(script.subrange(0, head.len() as int) =~= head);
    assert(script.subrange(script.len() - fin.len(), script.len() as int) =~= fin);
}

/// An `EXIT=<code>` line, as the shim prints it for a child that returned `code`, reads back
/// as `code` when it is the last line.
pub proof fn lemma_exit_marker_reads_back(ls: Seq<Seq<char>>, code: i32)
    requires
        ls.len() > 0,
        ls.last() == "EXIT="@ + signed_decimal(code as int),
    ensures
        last_exit_code(ls) == Some(code as int),
{
    reveal_strlit("EXIT=");
    let line = ls.last();
    let digits = signed_decimal(code as int);
    let n: nat = if code < 0 {
        (-code) as nat
    } else {
        code as nat
    };
    lemma_decimal_digits(n);
    assert(decimal(n).len() >= 1);
    let last_digit = decimal(n)[decimal(n).len() - 1];
    assert(0x30 <= (last_digit as u32) <= 0x39);
    assert(line.last() == last_digit);
    assert(line[0] == 'E');
    assert(trim_start(line) == line);
    assert(trim_end(line) == line);
    assert(trim(line) == line);
    assert(line.skip(5) =~= digits);
    if code < 0 {
        assert(digits[0] == '-');
        assert(digits.drop_first() =~= decimal(n));
    } else {
        assert(0x30 <= (decimal(n)[0] as u32) <= 0x39);
        lemma_parse_decimal(n, 0x7fff_ffff);
    }
    assert(parse_i32_spec(digits) == Some(code as int));
    assert(exit_marker(line) == Some(code as int));
}

/// The shim's outcome is the elevated child's exit code: when the shim itself exits 0 and
/// the last line it printed is `EXIT=<code>`, [`run_elevated`] gives `Ok(code)`.
pub proof fn lemma_elevated_reports_child_exit(out: ProcessOutput, code: i32)
    requires
        out.code == Some(0i32),
        lines(crate::text::utf8_lossy(out.stdout@)).len() > 0,
        lines(crate::text::utf8_lossy(out.stdout@)).last() == "EXIT="@ + signed_decimal(code as int),
    ensures
        elevated_result(Ok(out)) == Ok::<int, Seq<char>>(code as int),
{
    lemma_exit_marker_reads_back(lines(crate::text::utf8_lossy(out.stdout@)), code);
}

/// What [`run_elevated`] returns for the outcome of running the shim.
pub open spec fn elevated_result(outcome: Result<ProcessOutput, String>) -> Result<int, Seq<char>> {
    match outcome {
        Err(e) => Err("failed to request administrator privileges: "@ + e@),
        Ok(out) => match out.code {
            Some(c) => if c == 0 {
                let stdout = crate::text::utf8_lossy(out.stdout@);
                match last_exit_code(lines(stdout)) {
                    Some(code) => Ok(code),
                    None => Err("the elevated helper did not report an exit code: "@ + trim(stdout)),
                }
            } else if c == 1223 {
                Err(DENIED@)
            } else {
                let detail = trim(crate::text::utf8_lossy(out.stderr@));
                if detail.len() == 0 {
                    Err("the elevated helper could not be started"@)
                } else {
                    Err("the elevated helper could not be started: "@ + detail)
                }
            },
            None => Err("the elevated helper was terminated"@),
        },
    }
}

/// The exit code reported by the last `EXIT=<code>` line of `stdout`.
fn reported_exit_code(stdout: &Vec<char>) -> (res: Option<i32>)
    ensures
        match res {
            Some(c) => last_exit_code(lines(stdout@)) == Some(c as int),
            None => last_exit_code(lines(stdout@)) is None,
        },
{
    let ls = lines_of(stdout);
    let marker = chars_of("EXIT=");
    proof {
        reveal_strlit("EXIT=");
    }
    let mut i = ls.len();
    assert(views(ls@).take(i as int) =~= views(ls@));
    while i > 0
        invariant
            i <= ls.len(),
            marker@ == "EXIT="@,
            marker@.len() == 5,
            views(ls@) == lines(stdout@),
            last_exit_code(views(ls@)) == last_exit_code(views(ls@).take(i as int)),
        decreases i,
    {
        let ghost pre = views(ls@).take(i as int);
        assert(pre.drop_last() =~= views(ls@).take(i - 1));
        assert(pre.last() == ls@[i - 1]@);
        let t = trim_chars(&ls[i - 1]);
        if crate::text::starts_with(&t, &marker) {
            let digits = crate::text::copy_range(&t, 5, t.len());
            assert(digits@ == t@.skip(5));
            match parse_i32(&digits) {
                Some(c) => {
                    assert(t@ == trim(pre.last()));
                    assert(exit_marker(pre.last()) == Some(c as int));
                    assert(last_exit_code(pre) == Some(c as int));
                    return Some(c);
                },
                None => {},
            }
        }
        i = i - 1;
    }
    None
}

/// Reads the elevation shim's outcome: `Ok(n)` means the elevated program ran and returned
/// `n`; `Err` means it never ran. `outcome` is how running the shim went, with the launch
/// error's text.
pub fn run_elevated(outcome: Result<ProcessOutput, String>) -> (res: Result<i32, String>)
    ensures
        match res {
            Ok(c) => elevated_result(outcome) == Ok::<int, Seq<char>>(c as int),
            Err(e) => elevated_result(outcome) == Err::<int, Seq<char>>(e@),
        },
{
    match outcome {
        Err(e) => {
            let mut msg: Vec<char> = Vec::new();
            extend_str(&mut msg, "failed to request administrator privileges: ");
            extend_str(&mut msg, e.as_str());
            Err(string_of(&msg))
        },
        Ok(out) => match out.code {
            Some(c) => {
                if c == 0 {
                    let stdout = crate::text::from_utf8_lossy(out.stdout.as_slice());
                    match reported_exit_code(&stdout) {
                        Some(code) => {
                            Ok(code)
                        },
                        None => {
                            let mut msg: Vec<char> = Vec::new();
                            extend_str(
                                &mut msg,
                                "the elevated helper did not report an exit code: ",
                            );
                            extend_chars(&mut msg, &trim_chars(&stdout));
                            Err(string_of(&msg))
                        },
                    }
                } else if c == 1223 {
                    Err(string_of(&chars_of(DENIED)))
                } else {
                    let detail = trim_chars(&crate::text::from_utf8_lossy(out.stderr.as_slice()));
                    let mut msg: Vec<char> = Vec::new();
                    if detail.len() > 0 {
                        extend_str(&mut msg, "the elevated helper could not be started: ");
                        extend_chars(&mut msg, &detail);
                    } else {
                        extend_str(&mut msg, "the elevated helper could not be started");
                    }
                    Err(string_of(&msg))
                }
            },
            None => Err(string_of(&chars_of("the elevated helper was terminated"))),
        },
    }
}


/// The `cmd.exe` command line that runs `exe` with `args` and sends everything it prints
/// into `out_file`.
pub open spec fn captured_command_line(exe: Seq<char>, args: Seq<char>, out_file: Seq<char>) -> Seq<
    char,
> {
    "/c \"\""@ + simplified(exe) + "\" "@ + args + " > \""@ + simplified(out_file) + "\" 2>&1\""@
}

/// Builds the `cmd.exe` command line that captures the output of an elevated child.
pub fn captured_command(exe: &str, args: &str, out_file: &str) -> (res: String)
    ensures
        res@ == captured_command_line(exe@, args@, out_file@),
{
    let mut out: Vec<char> = Vec::new();
    extend_str(&mut out, "/c \"\"");
    extend_str(&mut out, simplify(exe).as_str());
    extend_str(&mut out, "\" ");
    extend_str(&mut out, args);
    extend_str(&mut out, " > \"");
    extend_str(&mut out, simplify(out_file).as_str());
    extend_str(&mut out, "\" 2>&1\"");
    assert(out@ =~= captured_command_line(exe@, args@, out_file@));
    string_of(&out)
}

/// An ASCII letter or digit (`char::is_ascii_alphanumeric`).
pub open spec fn is_ascii_alnum(c: char) -> bool {
    let u = c as u32;
    (0x30 <= u <= 0x39) || (0x41 <= u <= 0x5a) || (0x61 <= u <= 0x7a)
}

/// `what` with every character other than an ASCII letter or digit replaced by `-`.
pub open spec fn file_stem(what: Seq<char>) -> Seq<char> {
    what.map_values(|c: char| if is_ascii_alnum(c) { c } else { '-' })
}

/// The part of a capture file's name that comes from the operation's name.
pub fn capture_stem(what: &str) -> (res: String)
    ensures
        res@ == file_stem(what@),
{
    let cs = chars_of(what);
    let mut out: Vec<char> = Vec::new();
    let mut i: usize = 0;
    while i < cs.len()
        invariant
            i <= cs.len(),
            out@ == file_stem(cs@.take(i as int)),
        decreases cs.len() - i,
    {
        let c = cs[i];
        let u = c as u32;
        let keep = (0x30 <= u && u <= 0x39) || (0x41 <= u && u <= 0x5a) || (0x61 <= u && u <= 0x7a);
        if keep {
            out.push(c);
        } else {
            out.push('-');
        }
        assert(out@ =~= file_stem(cs@.take(i + 1)));
        i = i + 1;
    }
    assert(cs@.take(cs.len() as int) == cs@);
    string_of(&out)
}

} // verus!
