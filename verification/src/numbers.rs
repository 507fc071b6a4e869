//! Numbers as text: decimal rendering, and parsing in a radix with the three
//! ways in which it fails.
use vstd::prelude::*;

use crate::text;

verus! {

/// Why a text is no number of the wanted type.
#[derive(Clone, Copy, Debug, PartialEq, Eq, Structural)]
pub enum NumberError {
    Empty,
    InvalidDigit,
    Overflow,
}

impl NumberError {
    /// The error in words.
    pub open spec fn words(self) -> Seq<char> {
        match self {
            NumberError::Empty => "cannot parse integer from empty string"@,
            NumberError::InvalidDigit => "invalid digit found in string"@,
            NumberError::Overflow => "number too large to fit in target type"@,
        }
    }

    pub fn message(&self) -> (r: &'static str)
        ensures
            r@ == self.words(),
    {
        match self {
            NumberError::Empty => "cannot parse integer from empty string",
            NumberError::InvalidDigit => "invalid digit found in string",
            NumberError::Overflow => "number too large to fit in target type",
        }
    }
}

/// The decimal digit for `d < 10`.
pub open spec fn digit_char(d: nat) -> char {
    ('0' as u8 + d) as u8 as char
}

/// `n` in decimal.
pub open spec fn decimal(n: nat) -> Seq<char>
    decreases n,
{
    if n < 10 {
        seq![digit_char(n)]
    } else {
        decimal(n / 10).push(digit_char(n % 10))
    }
}

/// `n` in decimal, with `-` in front when negative.
pub open spec fn signed(n: int) -> Seq<char> {
    if n < 0 {
        seq!['-'] + decimal((-n) as nat)
    } else {
        decimal(n as nat)
    }
}

/// Value of a character as a digit in radix 10 or 16.
pub open spec fn digit_value(c: char, radix: nat) -> Option<nat> {
    if '0' <= c <= '9' {
        Some((c as u32 - '0' as u32) as nat)
    } else if radix == 16 && 'a' <= c <= 'f' {
        Some((c as u32 - 'a' as u32 + 10) as nat)
    } else if radix == 16 && 'A' <= c <= 'F' {
        Some((c as u32 - 'A' as u32 + 10) as nat)
    } else {
        None
    }
}

/// The digits of `s` read from the left after the value `acc`, up to the first
/// character that is no digit or that takes the value above `max`.
pub open spec fn scan(s: Seq<char>, radix: nat, max: nat, acc: nat) -> Result<nat, NumberError>
    decreases s.len(),
{
    if s.len() == 0 {
        Ok(acc)
    } else {
        match digit_value(s[0], radix) {
            None => Err(NumberError::InvalidDigit),
            Some(d) => if acc * radix + d > max {
                Err(NumberError::Overflow)
            } else {
                scan(s.skip(1), radix, max, acc * radix + d)
            },
        }
    }
}

/// The unsigned number that `s` writes: digits, or `+` and digits.
pub open spec fn unsigned_value(s: Seq<char>, radix: nat, max: nat) -> Result<nat, NumberError> {
    if s.len() == 0 {
        Err(NumberError::Empty)
    } else if s[0] == '+' && s.len() > 1 {
        scan(s.skip(1), radix, max, 0)
    } else {
        scan(s, radix, max, 0)
    }
}

/// The 64-bit signed decimal that `s` writes.
pub open spec fn signed_value(s: Seq<char>) -> Option<int> {
    if s.len() > 1 && s[0] == '-' {
        match scan(s.skip(1), 10, 0x8000_0000_0000_0000, 0) {
            Ok(n) => Some(-(n as int)),
            Err(_) => None,
        }
    } else {
        match unsigned_value(s, 10, i64::MAX as nat) {
            Ok(n) => Some(n as int),
            Err(_) => None,
        }
    }
}

fn digit_of(c: char, radix: u64) -> (r: Option<u64>)
    ensures
        match r {
            Some(d) => digit_value(c, radix as nat) == Some(d as nat) && d < 16,
            None => digit_value(c, radix as nat) is None,
        },
{
    if '0' <= c && c <= '9' {
        Some(c as u64 - '0' as u64)
    } else if radix == 16 && 'a' <= c && c <= 'f' {
        Some(c as u64 - 'a' as u64 + 10)
    } else if radix == 16 && 'A' <= c && c <= 'F' {
        Some(c as u64 - 'A' as u64 + 10)
    } else {
        None
    }
}

fn scan_from(v: &Vec<char>, from: usize, radix: u64, max: u64) -> (r: Result<u64, NumberError>)
    requires
        from <= v.len(),
        radix == 10 || radix == 16,
    ensures
        match r {
            Ok(n) => scan(v@.skip(from as int), radix as nat, max as nat, 0) == Ok::<
                nat,
                NumberError,
            >(n as nat),
            Err(e) => scan(v@.skip(from as int), radix as nat, max as nat, 0) == Err::<
                nat,
                NumberError,
            >(e),
        },
{
    let mut i: usize = from;
    let mut acc: u64 = 0;
    while i < v.len()
        invariant
            from <= i <= v.len(),
            radix == 10 || radix == 16,
            scan(v@.skip(from as int), radix as nat, max as nat, 0) == scan(
                v@.skip(i as int),
                radix as nat,
                max as nat,
                acc as nat,
            ),
        decreases v.len() - i,
    {
        let ghost rest = v@.skip(i as int);
        assert(rest[0] == v@[i as int]);
        assert(rest.skip(1) =~= v@.skip(i + 1));
        match digit_of(v[i], radix) {
            None => {
                return Err(NumberError::InvalidDigit);
            },
            Some(d) => {
                let wide: u128 = acc as u128 * radix as u128 + d as u128;
                if wide > max as u128 {
                    return Err(NumberError::Overflow);
                }
                acc = wide as u64;
            },
        }
        i += 1;
    }
    assert(v@.skip(i as int).len() == 0);
    Ok(acc)
}

/// Parses an unsigned number of at most `max`.
pub fn parse_unsigned(s: &str, radix: u64, max: u64) -> (r: Result<u64, NumberError>)
    requires
        radix == 10 || radix == 16,
    ensures
        match r {
            Ok(n) => unsigned_value(s@, radix as nat, max as nat) == Ok::<nat, NumberError>(
                n as nat,
            ) && n <= max,
            Err(e) => unsigned_value(s@, radix as nat, max as nat) == Err::<nat, NumberError>(e),
        },
{
    let v = text::chars_of(s);
    if v.len() == 0 {
        return Err(NumberError::Empty);
    }
    let from: usize = if v[0] == '+' && v.len() > 1 {
        1
    } else {
        0
    };
    proof {
        lemma_scan_bound(v@.skip(from as int), radix as nat, max as nat, 0);
        assert(v@.skip(0) =~= v@);
    }
    scan_from(&v, from, radix, max)
}

/// Parses an unsigned 64-bit decimal.
pub fn parse_u64(s: &str) -> (r: Option<u64>)
    ensures
        match r {
            Some(n) => unsigned_value(s@, 10, u64::MAX as nat) == Ok::<nat, NumberError>(n as nat),
            None => unsigned_value(s@, 10, u64::MAX as nat) is Err,
        },
{
    match parse_unsigned(s, 10, u64::MAX) {
        Ok(n) => Some(n),
        Err(_) => None,
    }
}

/// Parses a decimal that fits the machine's word.
pub fn parse_usize(s: &str) -> (r: Option<usize>)
    ensures
        match r {
            Some(n) => unsigned_value(s@, 10, usize::MAX as nat) == Ok::<nat, NumberError>(n as nat),
            None => unsigned_value(s@, 10, usize::MAX as nat) is Err,
        },
{
    match parse_unsigned(s, 10, usize::MAX as u64) {
        Ok(n) => Some(n as usize),
        Err(_) => None,
    }
}

/// Parses a signed 64-bit decimal.
pub fn parse_i64(s: &str) -> (r: Option<i64>)
    ensures
        match r {
            Some(n) => signed_value(s@) == Some(n as int),
            None => signed_value(s@) is None,
        },
{
    let v = text::chars_of(s);
    if v.len() > 1 && v[0] == '-' {
        proof {
            lemma_scan_bound(v@.skip(1), 10, 0x8000_0000_0000_0000, 0);
        }
        return match scan_from(&v, 1, 10, 0x8000_0000_0000_0000u64) {
            Ok(n) => Some((-(n as i128)) as i64),
            Err(_) => None,
        };
    }
    match parse_unsigned(s, 10, i64::MAX as u64) {
        Ok(n) => Some(n as i64),
        Err(_) => None,
    }
}

/// `n` in decimal.
pub fn decimal_of(n: u64) -> (r: String)
    ensures
        r@ == decimal(n as nat),
    decreases n,
{
    let mut out = if n < 10 {
        String::new()
    } else {
        decimal_of(n / 10)
    };
    let ghost before = out@;
    let d: u8 = (n % 10) as u8;
    out.push(('0' as u8 + d) as char);
    assert(out@ =~= decimal(n as nat));
    out
}

/// `n` in decimal.
pub fn usize_text(n: usize) -> (r: String)
    ensures
        r@ == decimal(n as nat),
{
    decimal_of(n as u64)
}

/// `n` in decimal, with `-` in front when negative.
pub fn signed_of(n: i64) -> (r: String)
    ensures
        r@ == signed(n as int),
{
    if n < 0 {
        let mut out = String::new();
        out.push('-');
        let d = decimal_of((-(n as i128)) as u64);
        out.append(d.as_str());
        assert(out@ =~= signed(n as int));
        out
    } else {
        decimal_of(n as u64)
    }
}

pub proof fn lemma_scan_bound(s: Seq<char>, radix: nat, max: nat, acc: nat)
    requires
        acc <= max,
    ensures
        match scan(s, radix, max, acc) {
            Ok(n) => n <= max,
            Err(_) => true,
        },
    decreases s.len(),
{
    if s.len() > 0 {
        match digit_value(s[0], radix) {
            None => {},
            Some(d) => {
                if acc * radix + d <= max {
                    lemma_scan_bound(s.skip(1), radix, max, acc * radix + d);
                }
            },
        }
    }
}

/// Reading two texts in a row is reading their concatenation.
pub proof fn lemma_scan_concat(s: Seq<char>, t: Seq<char>, radix: nat, max: nat, acc: nat)
    ensures
        scan(s + t, radix, max, acc) == (match scan(s, radix, max, acc) {
            Ok(n) => scan(t, radix, max, n),
            Err(e) => Err(e),
        }),
    decreases s.len(),
{
    if s.len() == 0 {
        assert(s + t =~= t);
    } else {
        assert((s + t).skip(1) =~= s.skip(1) + t);
        match digit_value(s[0], radix) {
            None => {},
            Some(d) => {
                lemma_scan_concat(s.skip(1), t, radix, max, acc * radix + d);
            },
        }
    }
}

pub proof fn lemma_digit(d: nat)
    requires
        d < 10,
    ensures
        digit_value(digit_char(d), 10) == Some(d),
        '0' <= digit_char(d) <= '9',
{
}

/// A decimal is not empty and holds digits only.
pub proof fn lemma_decimal_digits(n: nat)
    ensures
        decimal(n).len() > 0,
        forall|i: int| 0 <= i < decimal(n).len() ==> '0' <= #[trigger] decimal(n)[i] <= '9',
    decreases n,
{
    if n >= 10 {
        lemma_decimal_digits(n / 10);
        lemma_digit(n % 10);
    } else {
        lemma_digit(n);
    }
}

pub proof fn lemma_scan_decimal(n: nat, max: nat)
    requires
        n <= max,
    ensures
        scan(decimal(n), 10, max, 0) == Ok::<nat, NumberError>(n),
    decreases n,
{
    if n < 10 {
        lemma_digit(n);
        let s = decimal(n);
        assert(s.skip(1).len() == 0);
        assert(scan(s.skip(1), 10, max, n) == Ok::<nat, NumberError>(n));
    } else {
        lemma_digit(n % 10);
        lemma_scan_decimal(n / 10, max);
        let t = seq![digit_char(n % 10)];
        assert(decimal(n) =~= decimal(n / 10) + t);
        lemma_scan_concat(decimal(n / 10), t, 10, max, 0);
        assert(t.skip(1).len() == 0);
        assert(scan(t.skip(1), 10, max, n) == Ok::<nat, NumberError>(n));
        assert(t[0] == digit_char(n % 10));
        assert((n / 10) * 10 + n % 10 == n);
    }
}

/// Parsing gives back the number that was rendered.
pub proof fn law_decimal_round_trip(n: nat, max: nat)
    requires
        n <= max,
    ensures
        unsigned_value(decimal(n), 10, max) == Ok::<nat, NumberError>(n),
{
    lemma_decimal_digits(n);
    lemma_scan_decimal(n, max);
    assert(decimal(n)[0] != '+');
}

/// Parsing gives back the signed number that was rendered.
pub proof fn law_signed_round_trip(n: int)
    requires
        i64::MIN <= n <= i64::MAX,
    ensures
        signed_value(signed(n)) == Some(n),
{
    if n < 0 {
        lemma_decimal_digits((-n) as nat);
        lemma_scan_decimal((-n) as nat, 0x8000_0000_0000_0000);
        assert(signed(n).skip(1) =~= decimal((-n) as nat));
    } else {
        lemma_decimal_digits(n as nat);
        law_decimal_round_trip(n as nat, i64::MAX as nat);
        assert(signed(n)[0] != '-');
    }
}

/// A signed decimal is not empty and holds digits and a minus sign only.
pub proof fn lemma_signed_chars(n: int)
    ensures
        signed(n).len() > 0,
        forall|i: int|
            0 <= i < signed(n).len() ==> (#[trigger] signed(n)[i] == '-' || '0' <= signed(n)[i]
                <= '9'),
{
    if n < 0 {
        lemma_decimal_digits((-n) as nat);
        assert forall|i: int| 0 <= i < signed(n).len() implies (#[trigger] signed(n)[i] == '-'
            || '0' <= signed(n)[i] <= '9') by {
            if i > 0 {
                assert(signed(n)[i] == decimal((-n) as nat)[i - 1]);
            }
        }
    } else {
        lemma_decimal_digits(n as nat);
    }
}

}
