//! Reading and writing whole numbers as text.

use vstd::prelude::*;
use vstd::slice::slice_subrange;

use crate::text;
use crate::text::{copy_chars, digit, push_chars, string_of};

verus! {

// ---------------------------------------------------------------------------
// Reading
// ---------------------------------------------------------------------------

/// Whether every character is a decimal digit.
pub open spec fn all_digits(s: Seq<char>) -> bool {
    forall|i: int| 0 <= i < s.len() ==> text::is_digit(#[trigger] s[i])
}

/// The number that a run of decimal digits writes; 0 for none.
pub open spec fn dec_value(s: Seq<char>) -> nat
    decreases s.len(),
{
    if s.len() == 0 {
        0
    } else {
        (dec_value(s.drop_last()) * 10 + (s.last() as u32 - 0x30)) as nat
    }
}

/// The text without the plus sign that it may begin with.
pub open spec fn unsigned_part(s: Seq<char>) -> Seq<char> {
    if s.len() > 0 && s[0] == '+' {
        s.skip(1)
    } else {
        s
    }
}

/// The unsigned number that `s` writes in decimal, with an optional plus sign,
/// where it is at most `max`.
pub open spec fn parsed_nat(s: Seq<char>, max: nat) -> Option<nat> {
    let d = unsigned_part(s);
    if d.len() > 0 && all_digits(d) && dec_value(d) <= max {
        Some(dec_value(d))
    } else {
        None
    }
}

/// The signed number that `s` writes in decimal, with an optional sign, where it
/// lies between `min` and `max`.
pub open spec fn parsed_int(s: Seq<char>, min: int, max: int) -> Option<int> {
    let negative = s.len() > 0 && s[0] == '-';
    let d = if negative {
        s.skip(1)
    } else {
        unsigned_part(s)
    };
    let v = if negative {
        -(dec_value(d) as int)
    } else {
        dec_value(d) as int
    };
    if d.len() > 0 && all_digits(d) && min <= v <= max {
        Some(v)
    } else {
        None
    }
}

pub proof fn lemma_dec_value_monotone(s: Seq<char>, n: int)
    requires
        0 <= n <= s.len(),
        all_digits(s),
    ensures
        dec_value(s.take(n)) <= dec_value(s),
    decreases s.len() - n,
{
    if n < s.len() {
        assert(s.take(n + 1).drop_last() =~= s.take(n));
        lemma_dec_value_monotone(s, n + 1);
        assert(text::is_digit(s[n]));
    } else {
        assert(s.take(n) =~= s);
    }
}

/// The value of a non-empty run of digits, where it is at most `max`.
fn digits_value(d: &[char], max: u64) -> (r: Option<u64>)
    ensures
        match r {
            Some(v) => d@.len() > 0 && all_digits(d@) && v == dec_value(d@) && v <= max,
            None => d@.len() == 0 || !all_digits(d@) || dec_value(d@) > max,
        },
{
    if d.len() == 0 {
        return None;
    }
    let mut acc: u64 = 0;
    let mut over: bool = false;
    let mut i: usize = 0;
    while i < d.len()
        invariant
            i <= d.len(),
            forall|j: int| 0 <= j < i ==> text::is_digit(#[trigger] d@[j]),
            !over ==> acc == dec_value(d@.take(i as int)) && acc <= max,
            over ==> dec_value(d@.take(i as int)) > max,
        decreases d.len() - i,
    {
        if !digit(d[i]) {
            assert(!text::is_digit(d@[i as int]));
            return None;
        }
        assert(d@.take(i + 1).drop_last() =~= d@.take(i as int));
        let v: u64 = (d[i] as u32 - 0x30) as u64;
        if !over {
            if acc > (u64::MAX - v) / 10 || acc * 10 + v > max {
                over = true;
            } else {
                acc = acc * 10 + v;
            }
        }
        i += 1;
    }
    assert(d@.take(i as int) =~= d@);
    if over {
        None
    } else {
        Some(acc)
    }
}

/// Reads an unsigned number of at most `max`, as the `FromStr` impls of the
/// unsigned integer types do.
pub fn parse_upto(s: &[char], max: u64) -> (r: Option<u64>)
    ensures
        match r {
            Some(v) => parsed_nat(s@, max as nat) == Some(v as nat),
            None => parsed_nat(s@, max as nat) is None,
        },
{
    if s.len() > 0 && s[0] == '+' {
        let d = slice_subrange(s, 1, s.len());
        assert(d@ == s@.skip(1));
        digits_value(d, max)
    } else {
        digits_value(s, max)
    }
}

pub fn parse_u64(s: &[char]) -> (r: Option<u64>)
    ensures
        match r {
            Some(v) => parsed_nat(s@, u64::MAX as nat) == Some(v as nat),
            None => parsed_nat(s@, u64::MAX as nat) is None,
        },
{
    parse_upto(s, u64::MAX)
}

pub fn parse_u32(s: &[char]) -> (r: Option<u32>)
    ensures
        match r {
            Some(v) => parsed_nat(s@, u32::MAX as nat) == Some(v as nat),
            None => parsed_nat(s@, u32::MAX as nat) is None,
        },
{
    match parse_upto(s, u32::MAX as u64) {
        Some(v) => Some(v as u32),
        None => None,
    }
}

pub fn parse_i64(s: &[char]) -> (r: Option<i64>)
    ensures
        match r {
            Some(v) => parsed_int(s@, i64::MIN as int, i64::MAX as int) == Some(v as int),
            None => parsed_int(s@, i64::MIN as int, i64::MAX as int) is None,
        },
{
    if s.len() > 0 && s[0] == '-' {
        let d = slice_subrange(s, 1, s.len());
        assert(d@ == s@.skip(1));
        match digits_value(d, 0x8000_0000_0000_0000) {
            Some(v) => {
                if v == 0x8000_0000_0000_0000 {
                    Some(i64::MIN)
                } else {
                    Some(-(v as i64))
                }
            },
            None => None,
        }
    } else if s.len() > 0 && s[0] == '+' {
        let d = slice_subrange(s, 1, s.len());
        assert(d@ == s@.skip(1));
        match digits_value(d, i64::MAX as u64) {
            Some(v) => Some(v as i64),
            None => None,
        }
    } else {
        match digits_value(s, i64::MAX as u64) {
            Some(v) => Some(v as i64),
            None => None,
        }
    }
}

pub fn parse_i32(s: &[char]) -> (r: Option<i32>)
    ensures
        match r {
            Some(v) => parsed_int(s@, i32::MIN as int, i32::MAX as int) == Some(v as int),
            None => parsed_int(s@, i32::MIN as int, i32::MAX as int) is None,
        },
{
    match parse_i64(s) {
        Some(v) => {
            if (i32::MIN as i64) <= v && v <= (i32::MAX as i64) {
                Some(v as i32)
            } else {
                None
            }
        },
        None => None,
    }
}

/// The value of a hexadecimal digit of either case.
pub open spec fn hex_digit(c: char) -> Option<int> {
    let n = c as u32;
    if text::is_digit(c) {
        Some(n - 0x30)
    } else if 0x61 <= n <= 0x66 {
        Some(n - 0x61 + 10)
    } else if 0x41 <= n <= 0x46 {
        Some(n - 0x41 + 10)
    } else {
        None
    }
}

pub open spec fn all_hex(s: Seq<char>) -> bool {
    forall|i: int| 0 <= i < s.len() ==> hex_digit(#[trigger] s[i]) is Some
}

/// The number that a run of hexadecimal digits writes; 0 for none.
pub open spec fn hex_value(s: Seq<char>) -> nat
    decreases s.len(),
{
    if s.len() == 0 {
        0
    } else {
        (hex_value(s.drop_last()) * 16 + hex_digit(s.last())->0) as nat
    }
}

/// The unsigned number that `s` writes in hexadecimal, with an optional plus
/// sign, where it is at most `max`.
pub open spec fn parsed_hex(s: Seq<char>, max: nat) -> Option<nat> {
    let d = unsigned_part(s);
    if d.len() > 0 && all_hex(d) && hex_value(d) <= max {
        Some(hex_value(d))
    } else {
        None
    }
}

pub fn hex_digit_of(c: char) -> (r: Option<u64>)
    ensures
        match r {
            Some(v) => hex_digit(c) == Some(v as int) && v < 16,
            None => hex_digit(c) is None,
        },
{
    let n: u32 = c as u32;
    if digit(c) {
        Some((n - 0x30) as u64)
    } else if 0x61 <= n && n <= 0x66 {
        Some((n - 0x61 + 10) as u64)
    } else if 0x41 <= n && n <= 0x46 {
        Some((n - 0x41 + 10) as u64)
    } else {
        None
    }
}

/// Reads a hexadecimal number of at most `max`, as `from_str_radix` does.
pub fn parse_hex_upto(s: &[char], max: u32) -> (r: Option<u32>)
    ensures
        match r {
            Some(v) => parsed_hex(s@, max as nat) == Some(v as nat),
            None => parsed_hex(s@, max as nat) is None,
        },
{
    let plus: bool = s.len() > 0 && s[0] == '+';
    let d = if plus {
        slice_subrange(s, 1, s.len())
    } else {
        s
    };
    assert(d@ =~= unsigned_part(s@));
    if d.len() == 0 {
        return None;
    }
    let mut acc: u64 = 0;
    let mut over: bool = false;
    let mut i: usize = 0;
    while i < d.len()
        invariant
            i <= d.len(),
            d@ == unsigned_part(s@),
            forall|j: int| 0 <= j < i ==> hex_digit(#[trigger] d@[j]) is Some,
            !over ==> acc == hex_value(d@.take(i as int)) && acc <= max,
            over ==> hex_value(d@.take(i as int)) > max,
        decreases d.len() - i,
    {
        assert(d@.take(i + 1).drop_last() =~= d@.take(i as int));
        match hex_digit_of(d[i]) {
            Some(v) => {
                if !over {
                    if acc * 16 + v > max as u64 {
                        over = true;
                    } else {
                        acc = acc * 16 + v;
                    }
                }
            },
            None => {
                assert(hex_digit(d@[i as int]) is None);
                return None;
            },
        }
        i += 1;
    }
    assert(d@.take(i as int) =~= d@);
    if over {
        None
    } else {
        Some(acc as u32)
    }
}

// ---------------------------------------------------------------------------
// Writing
// ---------------------------------------------------------------------------

/// The digit character of a number below sixteen, letters in lower case.
pub open spec fn digit_char(n: int) -> char {
    if n < 10 {
        ((n + 0x30) as u32) as char
    } else {
        ((n - 10 + 0x61) as u32) as char
    }
}

/// `n` written in base `radix` (2 to 16), without leading zeros.
pub open spec fn written(n: nat, radix: nat) -> Seq<char>
    decreases n,
{
    if radix < 2 || n < radix {
        seq![digit_char(n as int)]
    } else {
        proof {
            assert(n / radix < n) by (nonlinear_arith)
                requires
                    n >= radix,
                    radix >= 2,
            ;
        }
        written(n / radix, radix).push(digit_char((n % radix) as int))
    }
}

/// `n` written in decimal.
pub open spec fn dec(n: nat) -> Seq<char> {
    written(n, 10)
}

/// A signed number written in decimal.
pub open spec fn dec_int(n: int) -> Seq<char> {
    if n < 0 {
        seq!['-'] + dec((-n) as nat)
    } else {
        dec(n as nat)
    }
}

/// `s` with zeros in front until it has `width` characters.
pub open spec fn zero_padded(s: Seq<char>, width: nat) -> Seq<char> {
    if s.len() >= width {
        s
    } else {
        Seq::new((width - s.len()) as nat, |i: int| '0') + s
    }
}

fn digit_char_of(n: u64) -> (r: char)
    requires
        n < 16,
    ensures
        r == digit_char(n as int),
{
    if n < 10 {
        ((n as u8) + 0x30u8) as char
    } else {
        ((n as u8) - 10u8 + 0x61u8) as char
    }
}

/// `n` written in base `radix`.
pub fn write_radix(n: u64, radix: u64) -> (r: Vec<char>)
    requires
        2 <= radix <= 16,
    ensures
        r@ == written(n as nat, radix as nat),
        r.len() >= 1,
    decreases n,
{
    if n < radix {
        let mut out: Vec<char> = Vec::new();
        out.push(digit_char_of(n));
        assert(out@ =~= written(n as nat, radix as nat));
        out
    } else {
        proof {
            assert(n / radix < n) by (nonlinear_arith)
                requires
                    n >= radix,
                    radix >= 2,
            ;
        }
        let mut out = write_radix(n / radix, radix);
        out.push(digit_char_of(n % radix));
        out
    }
}

/// `n` in decimal.
pub fn dec_u64(n: u64) -> (r: Vec<char>)
    ensures
        r@ == dec(n as nat),
{
    write_radix(n, 10)
}

/// `n` in decimal, as a string.
pub fn dec_string(n: u64) -> (r: String)
    ensures
        r@ == dec(n as nat),
{
    let v = dec_u64(n);
    string_of(v.as_slice())
}

/// `n` in decimal.
pub fn dec_i64(n: i64) -> (r: Vec<char>)
    ensures
        r@ == dec_int(n as int),
{
    if n < 0 {
        let m: u64 = if n == i64::MIN {
            0x8000_0000_0000_0000
        } else {
            (-n) as u64
        };
        let d = dec_u64(m);
        let mut out: Vec<char> = Vec::new();
        out.push('-');
        push_chars(&mut out, d.as_slice());
        assert(out@ =~= dec_int(n as int));
        out
    } else {
        dec_u64(n as u64)
    }
}

/// `s` with zeros in front until it has `width` characters.
pub fn pad_zeros(s: &[char], width: usize) -> (r: Vec<char>)
    ensures
        r@ == zero_padded(s@, width as nat),
{
    if s.len() >= width {
        return copy_chars(s);
    }
    let mut out: Vec<char> = Vec::new();
    let n: usize = width - s.len();
    let mut i: usize = 0;
    while i < n
        invariant
            i <= n,
            out@ == Seq::new(i as nat, |j: int| '0'),
        decreases n - i,
    {
        out.push('0');
        i += 1;
        assert(out@ =~= Seq::new(i as nat, |j: int| '0'));
    }
    push_chars(&mut out, s);
    out
}

/// `n` in decimal.
pub fn dec_u128(n: u128) -> (r: Vec<char>)
    ensures
        r@ == dec(n as nat),
    decreases n,
{
    if n < 10 {
        dec_u64(n as u64)
    } else {
        let mut out = dec_u128(n / 10);
        out.push(digit_char_of((n % 10) as u64));
        out
    }
}

// ---------------------------------------------------------------------------
// Reading gives back what writing wrote
// ---------------------------------------------------------------------------

pub proof fn lemma_dec_digits(n: nat)
    ensures
        dec(n).len() >= 1,
        all_digits(dec(n)),
        dec_value(dec(n)) == n,
        dec(n)[0] != '+',
        dec(n)[0] != '-',
    decreases n,
{
    if n >= 10 {
        lemma_dec_digits(n / 10);
        let d = dec(n);
        assert(d.drop_last() =~= dec(n / 10));
        assert(d.last() == digit_char((n % 10) as int));
        assert forall|i: int| 0 <= i < d.len() implies text::is_digit(#[trigger] d[i]) by {
            if i < d.len() - 1 {
                assert(d[i] == d.drop_last()[i]);
            }
        }
        assert(d[0] == d.drop_last()[0]);
    } else {
        let d = dec(n);
        assert(d =~= seq![digit_char(n as int)]);
        assert(d.drop_last() =~= Seq::<char>::empty());
        assert(d.last() == digit_char(n as int));
        assert(dec_value(d.drop_last()) == 0);
    }
}

/// Writing a number in decimal and reading it back gives the number.
pub proof fn written_number_reads_back(n: nat, max: nat)
    requires
        n <= max,
    ensures
        parsed_nat(dec(n), max) == Some(n),
{
    lemma_dec_digits(n);
}

/// Writing a signed number in decimal and reading it back gives the number.
pub proof fn written_integer_reads_back(n: int, min: int, max: int)
    requires
        min <= n <= max,
    ensures
        parsed_int(dec_int(n), min, max) == Some(n),
{
    if n < 0 {
        lemma_dec_digits((-n) as nat);
        assert(dec_int(n).skip(1) =~= dec((-n) as nat));
    } else {
        lemma_dec_digits(n as nat);
    }
}

/// Different numbers are written differently.
pub proof fn decimal_is_injective(a: nat, b: nat)
    requires
        dec(a) == dec(b),
    ensures
        a == b,
{
    lemma_dec_digits(a);
    lemma_dec_digits(b);
}

proof fn lemma_leading_zeros(zeros: Seq<char>, s: Seq<char>)
    requires
        forall|i: int| 0 <= i < zeros.len() ==> #[trigger] zeros[i] == '0',
    ensures
        dec_value(zeros + s) == dec_value(s),
    decreases zeros.len() + s.len(),
{
    let t = zeros + s;
    if s.len() > 0 {
        assert(t.drop_last() =~= zeros + s.drop_last());
        assert(t.last() == s.last());
        lemma_leading_zeros(zeros, s.drop_last());
    } else if zeros.len() > 0 {
        assert(t.drop_last() =~= zeros.drop_last() + s);
        assert(t.last() == '0') by {
            assert(zeros[zeros.len() - 1] == '0');
        }
        lemma_leading_zeros(zeros.drop_last(), s);
    } else {
        assert(t =~= s);
    }
}

/// Zeros in front do not change a number.
pub proof fn padding_keeps_the_value(s: Seq<char>, width: nat)
    ensures
        dec_value(zero_padded(s, width)) == dec_value(s),
{
    if s.len() < width {
        let zeros = Seq::new((width - s.len()) as nat, |i: int| '0');
        lemma_leading_zeros(zeros, s);
    }
}

} // verus!
