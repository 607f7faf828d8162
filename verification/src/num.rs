//! Reading and writing integers as text, the way `str::parse`, `from_str_radix` and the
//! `{}` / `{:04x}` formats do.
use vstd::prelude::*;

verus! {

/// Value of `c` as a digit in `radix` (ASCII digits, then letters of either case).
pub open spec fn digit_value(c: char, radix: nat) -> Option<nat> {
    let u = c as u32;
    let v: nat = if 0x30 <= u <= 0x39 {
        (u - 0x30) as nat
    } else if 0x61 <= u <= 0x7a {
        (u - 0x61 + 10) as nat
    } else if 0x41 <= u <= 0x5a {
        (u - 0x41 + 10) as nat
    } else {
        99
    };
    if v < radix {
        Some(v)
    } else {
        None
    }
}

/// Every character of `s` is a digit in `radix`.
pub open spec fn all_digits(s: Seq<char>, radix: nat) -> bool {
    forall|i: int| 0 <= i < s.len() ==> (#[trigger] digit_value(s[i], radix)) is Some
}

/// The number that the digits `s` write in `radix`.
pub open spec fn digits_value(s: Seq<char>, radix: nat) -> nat
    decreases s.len(),
{
    if s.len() == 0 {
        0
    } else {
        digits_value(s.drop_last(), radix) * radix + digit_value(s.last(), radix).unwrap()
    }
}

/// `from_str_radix` for an unsigned type whose greatest value is `max`: an optional `+`,
/// then at least one digit, and the value in range.
pub open spec fn parse_unsigned(s: Seq<char>, radix: nat, max: nat) -> Option<nat> {
    let d = if s.len() > 0 && s[0] == '+' {
        s.drop_first()
    } else {
        s
    };
    if d.len() > 0 && all_digits(d, radix) && digits_value(d, radix) <= max {
        Some(digits_value(d, radix))
    } else {
        None
    }
}

/// `i32::from_str`: an optional sign, then at least one decimal digit, and the value in range.
pub open spec fn parse_i32_spec(s: Seq<char>) -> Option<int> {
    if s.len() > 0 && s[0] == '-' {
        let d = s.drop_first();
        if d.len() > 0 && all_digits(d, 10) && digits_value(d, 10) <= 0x8000_0000 {
            Some(-digits_value(d, 10))
        } else {
            None
        }
    } else {
        match parse_unsigned(s, 10, 0x7fff_ffff) {
            Some(v) => Some(v as int),
            None => None,
        }
    }
}

proof fn lemma_digits_value_grows(s: Seq<char>, k: int, radix: nat)
    requires
        0 <= k <= s.len(),
        radix >= 1,
        all_digits(s, radix),
    ensures
        digits_value(s.take(k), radix) <= digits_value(s, radix),
    decreases s.len() - k,
{
    if k < s.len() {
        lemma_digits_value_grows(s, k + 1, radix);
        let t = s.take(k + 1);
        assert(t.drop_last() == s.take(k));
        assert(digit_value(s[k], radix) is Some);
        let a = digits_value(s.take(k), radix);
        assert(a * radix >= a) by (nonlinear_arith)
            requires
                radix >= 1,
        ;
    } else {
        assert(s.take(k) == s);
    }
}

/// Digit value of `c` in `radix` (10 or 16).
fn digit_of(c: char, radix: u32) -> (res: Option<u32>)
    requires
        radix == 10 || radix == 16,
    ensures
        match res {
            Some(v) => digit_value(c, radix as nat) == Some(v as nat),
            None => digit_value(c, radix as nat) is None,
        },
{
    let u = c as u32;
    let v: u32 = if 0x30 <= u && u <= 0x39 {
        u - 0x30
    } else if 0x61 <= u && u <= 0x7a {
        u - 0x61 + 10
    } else if 0x41 <= u && u <= 0x5a {
        u - 0x41 + 10
    } else {
        99
    };
    if v < radix {
        Some(v)
    } else {
        None
    }
}

/// Reads the digits `s[from..]` in `radix`, failing on a non-digit, on no digit at all, or
/// on a value above `max`.
fn read_digits(s: &Vec<char>, from: usize, radix: u32, max: u64) -> (res: Option<u64>)
    requires
        radix == 10 || radix == 16,
        from <= s.len(),
    ensures
        ({
            let d = s@.skip(from as int);
            match res {
                Some(v) => d.len() > 0 && all_digits(d, radix as nat) && digits_value(
                    d,
                    radix as nat,
                ) <= max && v == digits_value(d, radix as nat),
                None => !(d.len() > 0 && all_digits(d, radix as nat) && digits_value(
                    d,
                    radix as nat,
                ) <= max),
            }
        }),
{
    let ghost d = s@.skip(from as int);
    if from == s.len() {
        return None;
    }
    let mut i = from;
    while i < s.len()
        invariant
            from <= i <= s.len(),
            radix == 10 || radix == 16,
            d == s@.skip(from as int),
            forall|j: int| 0 <= j < i - from ==> (#[trigger] digit_value(d[j], radix as nat)) is Some,
        decreases s.len() - i,
    {
        if digit_of(s[i], radix).is_none() {
            assert(digit_value(d[i - from], radix as nat) is None);
            return None;
        }
        i = i + 1;
    }
    assert(all_digits(d, radix as nat));
    let mut acc: u64 = 0;
    let mut k = from;
    assert(d.take(0) =~= Seq::<char>::empty());
    while k < s.len()
        invariant
            from <= k <= s.len(),
            radix == 10 || radix == 16,
            d == s@.skip(from as int),
            all_digits(d, radix as nat),
            acc as nat == digits_value(d.take(k - from), radix as nat),
            acc <= max,
        decreases s.len() - k,
    {
        assert(d[k - from] == s@[k as int]);
        assert(digit_value(d[k - from], radix as nat) is Some);
        let dig = digit_of(s[k], radix).unwrap();
        let next: u128 = acc as u128 * radix as u128 + dig as u128;
        proof {
            let t = d.take(k - from + 1);
            assert(t.drop_last() == d.take(k - from));
            assert(t.last() == d[k - from]);
            assert(digits_value(t, radix as nat) == next);
        }
        if next > max as u128 {
            proof {
                lemma_digits_value_grows(d, k - from + 1, radix as nat);
            }
            return None;
        }
        acc = next as u64;
        k = k + 1;
    }
    assert(d.take(s.len() - from) == d);
    Some(acc)
}

/// `from_str_radix` for an unsigned type whose greatest value is `max`.
pub fn parse_unsigned_chars(s: &Vec<char>, radix: u32, max: u64) -> (res: Option<u64>)
    requires
        radix == 10 || radix == 16,
    ensures
        match res {
            Some(v) => parse_unsigned(s@, radix as nat, max as nat) == Some(v as nat),
            None => parse_unsigned(s@, radix as nat, max as nat) is None,
        },
{
    let from: usize = if s.len() > 0 && s[0] == '+' {
        1
    } else {
        0
    };
    assert(s@.skip(0) == s@);
    assert(s@.skip(1) == s@.drop_first());
    read_digits(s, from, radix, max)
}

/// `u64::from_str`.
pub fn parse_u64(s: &Vec<char>) -> (res: Option<u64>)
    ensures
        match res {
            Some(v) => parse_unsigned(s@, 10, u64::MAX as nat) == Some(v as nat),
            None => parse_unsigned(s@, 10, u64::MAX as nat) is None,
        },
{
    parse_unsigned_chars(s, 10, u64::MAX)
}

/// `u32::from_str`.
pub fn parse_u32(s: &Vec<char>) -> (res: Option<u32>)
    ensures
        match res {
            Some(v) => parse_unsigned(s@, 10, u32::MAX as nat) == Some(v as nat),
            None => parse_unsigned(s@, 10, u32::MAX as nat) is None,
        },
{
    match parse_unsigned_chars(s, 10, u32::MAX as u64) {
        Some(v) => Some(v as u32),
        None => None,
    }
}

/// `u16::from_str_radix(s, 16)`.
pub fn parse_u16_hex(s: &Vec<char>) -> (res: Option<u16>)
    ensures
        match res {
            Some(v) => parse_unsigned(s@, 16, u16::MAX as nat) == Some(v as nat),
            None => parse_unsigned(s@, 16, u16::MAX as nat) is None,
        },
{
    match parse_unsigned_chars(s, 16, u16::MAX as u64) {
        Some(v) => Some(v as u16),
        None => None,
    }
}

/// `i32::from_str`.
pub fn parse_i32(s: &Vec<char>) -> (res: Option<i32>)
    ensures
        match res {
            Some(v) => parse_i32_spec(s@) == Some(v as int),
            None => parse_i32_spec(s@) is None,
        },
{
    if s.len() > 0 && s[0] == '-' {
        assert(s@.skip(1) == s@.drop_first());
        match read_digits(s, 1, 10, 0x8000_0000) {
            Some(m) => Some((0 - (m as i64)) as i32),
            None => None,
        }
    } else {
        match parse_unsigned_chars(s, 10, 0x7fff_ffff) {
            Some(v) => Some(v as i32),
            None => None,
        }
    }
}


/// The lower-case digit character for `d` (below 16).
pub open spec fn digit_char(d: nat) -> char {
    if d < 10 {
        ((0x30 + d) as u8) as char
    } else {
        ((0x61 + d - 10) as u8) as char
    }
}

/// `n` written in decimal with no leading zero (`{}` on an unsigned integer).
pub open spec fn decimal(n: nat) -> Seq<char>
    decreases n,
{
    if n < 10 {
        seq![digit_char(n)]
    } else {
        decimal(n / 10).push(digit_char(n % 10))
    }
}

/// `decimal(n)` is a non-empty run of ASCII digits whose value is `n`.
pub proof fn lemma_decimal_digits(n: nat)
    ensures
        decimal(n).len() >= 1,
        all_digits(decimal(n), 10),
        digits_value(decimal(n), 10) == n,
        forall|i: int| 0 <= i < decimal(n).len() ==> 0x30 <= #[trigger] (decimal(n)[i] as u32) <= 0x39,
    decreases n,
{
    if n < 10 {
        let c = digit_char(n);
        assert(c as u32 == 0x30 + n);
        assert(decimal(n) == seq![c]);
        assert(decimal(n).drop_last() =~= Seq::<char>::empty());
        assert(digit_value(c, 10) == Some(n));
        assert(digits_value(decimal(n), 10) == digits_value(Seq::<char>::empty(), 10) * 10 + n);
    } else {
        lemma_decimal_digits(n / 10);
        let c = digit_char(n % 10);
        assert(c as u32 == 0x30 + n % 10);
        let d = decimal(n);
        assert(d.drop_last() =~= decimal(n / 10));
        assert(d.last() == c);
        assert forall|i: int| 0 <= i < d.len() implies (#[trigger] digit_value(d[i], 10)) is Some
            && 0x30 <= (d[i] as u32) <= 0x39 by {
            if i < d.len() - 1 {
                assert(d[i] == decimal(n / 10)[i]);
            }
        }
        assert((n / 10) * 10 + n % 10 == n);
        assert(digit_value(c, 10) == Some((n % 10) as nat));
        assert(digits_value(d, 10) == digits_value(decimal(n / 10), 10) * 10 + n % 10);
    }
}

/// Decimal text reads back as the number it was written from: `parse_unsigned` of
/// `decimal(n)` is `n` whenever `n` fits.
pub proof fn lemma_parse_decimal(n: nat, max: nat)
    requires
        n <= max,
    ensures
        parse_unsigned(decimal(n), 10, max) == Some(n),
{
    lemma_decimal_digits(n);
    assert(0x30 <= (decimal(n)[0] as u32) <= 0x39);
}

/// `n` written in decimal, with a minus sign when negative (`{}` on a signed integer).
pub open spec fn signed_decimal(n: int) -> Seq<char> {
    if n < 0 {
        seq!['-'] + decimal((-n) as nat)
    } else {
        decimal(n as nat)
    }
}

/// `n` as four lower-case hexadecimal digits (`{:04x}` on a `u16`).
pub open spec fn hex4(n: u16) -> Seq<char> {
    seq![
        digit_char((n / 4096) as nat),
        digit_char((n / 256 % 16) as nat),
        digit_char((n / 16 % 16) as nat),
        digit_char((n % 16) as nat),
    ]
}

fn digit_to_char(d: u64) -> (c: char)
    requires
        d < 16,
    ensures
        c == digit_char(d as nat),
{
    if d < 10 {
        ((0x30 + d) as u8) as char
    } else {
        ((0x61 + d - 10) as u8) as char
    }
}

/// Appends `n` in decimal.
pub fn push_decimal(out: &mut Vec<char>, n: u64)
    ensures
        final(out)@ == old(out)@ + decimal(n as nat),
    decreases n,
{
    if n >= 10 {
        push_decimal(out, n / 10);
    }
    let c = digit_to_char(n % 10);
    out.push(c);
    proof {
        if n < 10 {
            assert(n % 10 == n);
        }
        assert(old(out)@ + decimal(n as nat) =~= final(out)@) by {
            if n >= 10 {
                assert(decimal(n as nat) == decimal((n / 10) as nat).push(digit_char((n % 10) as nat)));
            }
        }
    }
}

/// Appends `n` in decimal, signed.
pub fn push_signed_decimal(out: &mut Vec<char>, n: i32)
    ensures
        final(out)@ == old(out)@ + signed_decimal(n as int),
{
    if n < 0 {
        out.push('-');
        let m: u64 = (0 - (n as i64)) as u64;
        push_decimal(out, m);
        assert(final(out)@ =~= old(out)@ + signed_decimal(n as int));
    } else {
        push_decimal(out, n as u64);
    }
}

/// Appends `n` as four lower-case hexadecimal digits.
pub fn push_hex4(out: &mut Vec<char>, n: u16)
    ensures
        final(out)@ == old(out)@ + hex4(n),
{
    out.push(digit_to_char((n / 4096) as u64));
    out.push(digit_to_char((n / 256 % 16) as u64));
    out.push(digit_to_char((n / 16 % 16) as u64));
    out.push(digit_to_char((n % 16) as u64));
    assert(final(out)@ =~= old(out)@ + hex4(n));
}

} // verus!
