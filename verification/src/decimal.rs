//! Decimal fractions as text, scaled to whole numbers by exact arithmetic.

use vstd::prelude::*;
use vstd::arithmetic::div_mod::{lemma_div_denominator, lemma_hoist_over_denominator};
use vstd::slice::slice_subrange;

use crate::number;
use crate::text;
use crate::text::{copy_chars, digit, is, push_chars, to_lower};

verus! {

/// A number as text gives it: the digits before and after the point, and by how
/// many places the point stands to the left of their end. Or one of the special
/// values.
pub enum Decimal {
    Number { negative: bool, digits: Vec<char>, scale: i128 },
    Infinite { negative: bool },
    NotANumber,
}

#[verifier::ext_equal]
pub enum DecimalView {
    Number { negative: bool, digits: Seq<char>, scale: int },
    Infinite { negative: bool },
    NotANumber,
}

impl View for Decimal {
    type V = DecimalView;

    open spec fn view(&self) -> DecimalView {
        match self {
            Decimal::Number { negative, digits, scale } => DecimalView::Number {
                negative: *negative,
                digits: digits@,
                scale: *scale as int,
            },
            Decimal::Infinite { negative } => DecimalView::Infinite { negative: *negative },
            Decimal::NotANumber => DecimalView::NotANumber,
        }
    }
}

/// 10 to the power `k`.
pub open spec fn pow10(k: nat) -> nat
    decreases k,
{
    if k == 0 {
        1
    } else {
        10 * pow10((k - 1) as nat)
    }
}

/// Exponents beyond this count as this.
pub const EXPONENT_CAP: u64 = 1_000_000;

/// The first position at or after `from` that does not hold a digit.
pub open spec fn digits_end(s: Seq<char>, from: int) -> int
    decreases s.len() - from,
{
    if 0 <= from < s.len() && text::is_digit(s[from]) {
        digits_end(s, from + 1)
    } else {
        from
    }
}

/// An optional sign and digits, the value held to the cap.
pub open spec fn exponent(s: Seq<char>) -> Option<int> {
    let signed = s.len() > 0 && (s[0] == '+' || s[0] == '-');
    let d = if signed {
        s.skip(1)
    } else {
        s
    };
    if d.len() > 0 && number::all_digits(d) {
        let v = if number::dec_value(d) > EXPONENT_CAP {
            EXPONENT_CAP as int
        } else {
            number::dec_value(d) as int
        };
        Some(
            if signed && s[0] == '-' {
                -v
            } else {
                v
            },
        )
    } else {
        None
    }
}

/// A number without sign: digits with a point among or beside them, and an
/// exponent.
pub open spec fn unsigned_number(s: Seq<char>, negative: bool) -> Option<DecimalView> {
    let a = digits_end(s, 0);
    let pointed = a < s.len() && s[a] == '.';
    let b = if pointed {
        digits_end(s, a + 1)
    } else {
        a
    };
    let fraction = if pointed {
        s.subrange(a + 1, b)
    } else {
        Seq::empty()
    };
    let digits = s.take(a) + fraction;
    let exp = if b == s.len() {
        Some(0int)
    } else if s[b] == 'e' || s[b] == 'E' {
        exponent(s.skip(b + 1))
    } else {
        None
    };
    match exp {
        Some(e) if digits.len() > 0 => Some(
            DecimalView::Number { negative, digits, scale: fraction.len() - e },
        ),
        _ => None,
    }
}

/// The number that a text writes: an optional sign, then `inf`, `infinity`, `nan`
/// in either case, or a decimal number with an optional exponent.
pub open spec fn parsed_decimal(s: Seq<char>) -> Option<DecimalView> {
    let negative = s.len() > 0 && s[0] == '-';
    let rest = if s.len() > 0 && (s[0] == '-' || s[0] == '+') {
        s.skip(1)
    } else {
        s
    };
    let word = text::lower(rest);
    if word == "inf"@ || word == "infinity"@ {
        Some(DecimalView::Infinite { negative })
    } else if word == "nan"@ {
        Some(DecimalView::NotANumber)
    } else {
        unsigned_number(rest, negative)
    }
}

/// `digits` moved by `scale` places and multiplied by `m`, rounded down.
pub open spec fn magnitude(digits: Seq<char>, scale: int, m: nat) -> nat {
    let n = number::dec_value(digits) * m;
    if scale > 0 {
        n / pow10(scale as nat)
    } else {
        n * pow10((-scale) as nat)
    }
}

/// The value times `m`, rounded toward zero and held to the range of `i64`; 0
/// where it is not a number.
pub open spec fn scaled(v: DecimalView, m: nat) -> int {
    match v {
        DecimalView::NotANumber => 0,
        DecimalView::Infinite { negative } => if negative {
            i64::MIN as int
        } else {
            i64::MAX as int
        },
        DecimalView::Number { negative, digits, scale } => {
            let x = magnitude(digits, scale, m) as int;
            if negative {
                if -x < i64::MIN {
                    i64::MIN as int
                } else {
                    -x
                }
            } else if x > i64::MAX {
                i64::MAX as int
            } else {
                x
            }
        },
    }
}

// ---------------------------------------------------------------------------
// Reading
// ---------------------------------------------------------------------------

pub proof fn lemma_digits_end(s: Seq<char>, from: int)
    requires
        0 <= from <= s.len(),
    ensures
        from <= digits_end(s, from) <= s.len(),
        forall|i: int| from <= i < digits_end(s, from) ==> text::is_digit(#[trigger] s[i]),
    decreases s.len() - from,
{
    if from < s.len() && text::is_digit(s[from]) {
        lemma_digits_end(s, from + 1);
    }
}

pub fn digits_end_from(s: &[char], from: usize) -> (r: usize)
    requires
        from <= s.len(),
    ensures
        r == digits_end(s@, from as int),
        from <= r <= s.len(),
{
    let mut i: usize = from;
    while i < s.len() && digit(s[i])
        invariant
            from <= i <= s.len(),
            digits_end(s@, from as int) == digits_end(s@, i as int),
        decreases s.len() - i,
    {
        i += 1;
    }
    i
}

/// The value of a run of digits held to `cap`, where every character is a digit.
pub fn capped_value(d: &[char], cap: u64) -> (r: Option<u64>)
    ensures
        r is Some <==> number::all_digits(d@),
        r matches Some(v) ==> v == (if number::dec_value(d@) > cap {
            cap as int
        } else {
            number::dec_value(d@) as int
        }),
{
    let mut acc: u64 = 0;
    let mut i: usize = 0;
    while i < d.len()
        invariant
            i <= d.len(),
            acc <= cap,
            forall|j: int| 0 <= j < i ==> text::is_digit(#[trigger] d@[j]),
            acc == (if number::dec_value(d@.take(i as int)) > cap {
                cap as int
            } else {
                number::dec_value(d@.take(i as int)) as int
            }),
        decreases d.len() - i,
    {
        if !digit(d[i]) {
            assert(!text::is_digit(d@[i as int]));
            return None;
        }
        assert(d@.take(i + 1).drop_last() =~= d@.take(i as int));
        let v: u128 = acc as u128 * 10 + (d[i] as u32 - 0x30) as u128;
        acc = if v > cap as u128 {
            cap
        } else {
            v as u64
        };
        i += 1;
    }
    assert(d@.take(i as int) =~= d@);
    Some(acc)
}

fn parse_exponent(s: &[char]) -> (r: Option<i64>)
    ensures
        match r {
            Some(e) => exponent(s@) == Some(e as int) && -1_000_000 <= e <= 1_000_000,
            None => exponent(s@) is None,
        },
{
    let signed: bool = s.len() > 0 && (s[0] == '+' || s[0] == '-');
    let d = if signed {
        slice_subrange(s, 1, s.len())
    } else {
        s
    };
    assert(signed ==> d@ =~= s@.skip(1));
    if d.len() == 0 {
        return None;
    }
    match capped_value(d, EXPONENT_CAP) {
        None => None,
        Some(v) => Some(
            if signed && s[0] == '-' {
                -(v as i64)
            } else {
                v as i64
            },
        ),
    }
}

fn parse_unsigned(s: &[char], negative: bool) -> (r: Option<Decimal>)
    ensures
        match r {
            Some(d) => unsigned_number(s@, negative) == Some(d@),
            None => unsigned_number(s@, negative) is None,
        },
{
    let a: usize = digits_end_from(s, 0);
    let pointed: bool = a < s.len() && s[a] == '.';
    let b: usize = if pointed {
        digits_end_from(s, a + 1)
    } else {
        a
    };
    let mut digits = copy_chars(slice_subrange(s, 0, a));
    assert(digits@ =~= s@.take(a as int));
    let mut places: usize = 0;
    if pointed {
        push_chars(&mut digits, slice_subrange(s, a + 1, b));
        places = b - (a + 1);
    }
    let ghost fraction = if pointed {
        s@.subrange(a + 1, b as int)
    } else {
        Seq::<char>::empty()
    };
    assert(digits@ =~= s@.take(a as int) + fraction);
    assert(fraction.len() == places);
    let exp: Option<i64> = if b == s.len() {
        Some(0)
    } else if s[b] == 'e' || s[b] == 'E' {
        let tail = slice_subrange(s, b + 1, s.len());
        assert(tail@ =~= s@.skip(b + 1));
        parse_exponent(tail)
    } else {
        None
    };
    match exp {
        Some(e) => {
            if digits.len() > 0 {
                Some(Decimal::Number { negative, digits, scale: places as i128 - e as i128 })
            } else {
                None
            }
        },
        None => None,
    }
}

/// Reads a decimal number.
pub fn parse_decimal(s: &[char]) -> (r: Option<Decimal>)
    ensures
        match r {
            Some(d) => parsed_decimal(s@) == Some(d@),
            None => parsed_decimal(s@) is None,
        },
{
    let negative: bool = s.len() > 0 && s[0] == '-';
    let rest = if s.len() > 0 && (s[0] == '-' || s[0] == '+') {
        let t = slice_subrange(s, 1, s.len());
        assert(t@ =~= s@.skip(1));
        t
    } else {
        s
    };
    let word = to_lower(rest);
    if is(word.as_slice(), "inf") || is(word.as_slice(), "infinity") {
        Some(Decimal::Infinite { negative })
    } else if is(word.as_slice(), "nan") {
        Some(Decimal::NotANumber)
    } else {
        parse_unsigned(rest, negative)
    }
}

// ---------------------------------------------------------------------------
// Scaling
// ---------------------------------------------------------------------------

pub proof fn lemma_pow10_positive(k: nat)
    ensures
        pow10(k) >= 1,
    decreases k,
{
    if k > 0 {
        lemma_pow10_positive((k - 1) as nat);
    }
}

proof fn lemma_pow10_sum(a: nat, b: nat)
    ensures
        pow10(a + b) == pow10(a) * pow10(b),
    decreases a,
{
    if a == 0 {
        assert(pow10(0) * pow10(b) == pow10(b)) by (nonlinear_arith)
            requires
                pow10(0) == 1,
        ;
    } else {
        lemma_pow10_sum((a - 1) as nat, b);
        assert(10 * (pow10((a - 1) as nat) * pow10(b)) == (10 * pow10((a - 1) as nat)) * pow10(b))
            by (nonlinear_arith);
    }
}

/// The value of two runs of digits one after the other.
pub proof fn lemma_dec_value_concat(a: Seq<char>, b: Seq<char>)
    requires
        number::all_digits(b),
    ensures
        number::dec_value(a + b) == number::dec_value(a) * pow10(b.len()) + number::dec_value(b),
    decreases b.len(),
{
    if b.len() == 0 {
        assert(a + b =~= a);
        assert(number::dec_value(a) * pow10(0) == number::dec_value(a)) by (nonlinear_arith)
            requires
                pow10(0) == 1,
        ;
    } else {
        let c = b.drop_last();
        assert(number::all_digits(c)) by {
            assert forall|i: int| 0 <= i < c.len() implies text::is_digit(#[trigger] c[i]) by {
                assert(text::is_digit(b[i]));
            }
        }
        lemma_dec_value_concat(a, c);
        assert((a + b).drop_last() =~= a + c);
        assert((a + b).last() == b.last());
        assert(text::is_digit(b[b.len() - 1]));
        let x = number::dec_value(a);
        let p = pow10(c.len());
        assert((x * p) * 10 == x * (10 * p)) by (nonlinear_arith);
    }
}

/// One more digit in front of a fraction: the carry out of it follows from the
/// carry out of the rest.
proof fn lemma_carry(d: nat, v: nat, m: nat, f: nat)
    ensures
        ((d * pow10(f) + v) * m) / pow10(f + 1) == (m * d + (v * m) / pow10(f)) / 10,
{
    let p = pow10(f);
    lemma_pow10_positive(f);
    let n = (d * p + v) * m;
    assert(pow10(f + 1) == p * 10);
    lemma_div_denominator(n as int, p as int, 10);
    assert(n == (m * d) * p + v * m) by (nonlinear_arith)
        requires
            n == (d * p + v) * m,
    ;
    lemma_hoist_over_denominator((v * m) as int, (m * d) as int, p);
    assert(((v * m) as int) / (p as int) + (m * d) as int == ((v * m) as int + (m * d) as int * (
    p as int)) / (p as int));
}

/// `min(x, cap)`.
pub open spec fn held(x: nat, cap: nat) -> nat {
    if x > cap {
        cap
    } else {
        x
    }
}

/// The magnitude held to `cap`.
fn magnitude_held(digits: &Vec<char>, scale: i128, m: u64, cap: u64) -> (r: u64)
    requires
        number::all_digits(digits@),
        0 < m,
        0 < cap,
    ensures
        r == held(magnitude(digits@, scale as int, m as nat), cap as nat),
{
    let d = digits.as_slice();
    let n: usize = d.len();
    if scale > 0 {
        let places: u128 = scale as u128;
        let cut: usize = if places < n as u128 {
            n - places as usize
        } else {
            0
        };
        let mut carry: u64 = 0;
        let mut j: usize = n;
        assert(d@.subrange(n as int, n as int) =~= Seq::empty());
        assert(0nat * (m as nat) / pow10(0) == 0) by (nonlinear_arith)
            requires
                pow10(0) == 1,
        ;
        while j > cut
            invariant
                cut <= j <= n,
                n == d.len(),
                number::all_digits(d@),
                0 < m,
                carry <= m,
                carry == (number::dec_value(d@.subrange(j as int, n as int)) * m) / (pow10(
                    (n - j) as nat,
                ) as int),
            decreases j,
        {
            j -= 1;
            assert(text::is_digit(d@[j as int]));
            let v: u64 = (d[j] as u32 - 0x30) as u64;
            proof {
                let low = d@.subrange(j + 1, n as int);
                let one = seq![d@[j as int]];
                assert(d@.subrange(j as int, n as int) =~= one + low);
                assert forall|i: int| 0 <= i < low.len() implies text::is_digit(
                    #[trigger] low[i],
                ) by {
                    assert(text::is_digit(d@[j + 1 + i]));
                }
                lemma_dec_value_concat(one, low);
                assert(one.drop_last() =~= Seq::empty());
                assert(number::dec_value(one.drop_last()) == 0);
                assert(one.last() == d@[j as int]);
                assert(number::dec_value(one) == v as nat);
                lemma_carry(v as nat, number::dec_value(low), m as nat, (n - j - 1) as nat);
                assert(m * v <= m * 9) by (nonlinear_arith)
                    requires
                        v <= 9,
                        m > 0,
                ;
            }
            carry = ((m as u128 * v as u128 + carry as u128) / 10) as u64;
        }
        let ghost low = d@.subrange(cut as int, n as int);
        let ghost high = d@.take(cut as int);
        proof {
            assert forall|i: int| 0 <= i < low.len() implies text::is_digit(#[trigger] low[i]) by {
                assert(text::is_digit(d@[cut + i]));
            }
            assert forall|i: int| 0 <= i < high.len() implies text::is_digit(
                #[trigger] high[i],
            ) by {
                assert(text::is_digit(d@[i]));
            }
            assert(d@ =~= high + low);
            lemma_dec_value_concat(high, low);
        }
        if places < n as u128 {
            let head = slice_subrange(d, 0, cut);
            assert(head@ =~= high);
            proof {
                let p = pow10(places as nat);
                let hi = number::dec_value(high);
                let lo = number::dec_value(low);
                lemma_pow10_positive(places as nat);
                assert((hi * p + lo) * m == (hi * m) * p + lo * m) by (nonlinear_arith);
                lemma_hoist_over_denominator((lo * m) as int, (hi * m) as int, p);
                assert(magnitude(digits@, scale as int, m as nat) == hi * m + carry);
            }
            match capped_value(head, cap) {
                Some(v) => {
                    proof {
                        let hi = number::dec_value(high);
                        if hi > cap {
                            assert(hi * m >= cap * m && cap * m >= cap) by (nonlinear_arith)
                                requires
                                    hi > cap,
                                    m > 0,
                                    cap > 0,
                            ;
                        }
                        assert(v as int * m as int <= 0xffff_ffff_ffff_ffff * 0xffff_ffff_ffff_ffff)
                            by (nonlinear_arith)
                            requires
                                v <= 0xffff_ffff_ffff_ffffu64,
                                0 < m <= 0xffff_ffff_ffff_ffffu64,
                        ;
                    }
                    let total: u128 = v as u128 * m as u128 + carry as u128;
                    if total > cap as u128 {
                        cap
                    } else {
                        total as u64
                    }
                },
                None => cap,
            }
        } else {
            let mut left: u128 = places - n as u128;
            proof {
                assert(high =~= Seq::empty());
                assert(low =~= d@);
                lemma_pow10_positive(n as nat);
                lemma_pow10_positive(left as nat);
                lemma_pow10_sum(n as nat, left as nat);
                lemma_div_denominator(
                    (number::dec_value(d@) * m) as int,
                    pow10(n as nat) as int,
                    pow10(left as nat) as int,
                );
                assert(magnitude(digits@, scale as int, m as nat) == carry as nat / pow10(
                    left as nat,
                ));
            }
            while left > 0 && carry > 0
                invariant
                    magnitude(digits@, scale as int, m as nat) == carry as nat / pow10(
                        left as nat,
                    ),
                decreases left,
            {
                proof {
                    lemma_pow10_positive((left - 1) as nat);
                    lemma_div_denominator(carry as int, 10, pow10((left - 1) as nat) as int);
                }
                carry = carry / 10;
                left -= 1;
            }
            proof {
                lemma_pow10_positive(left as nat);
                if left == 0 {
                    assert(carry as nat / pow10(0) == carry) by (nonlinear_arith)
                        requires
                            pow10(0) == 1,
                    ;
                } else {
                    assert(0nat / pow10(left as nat) == 0) by (nonlinear_arith)
                        requires
                            pow10(left as nat) >= 1,
                    ;
                }
            }
            if carry > cap {
                cap
            } else {
                carry
            }
        }
    } else {
        let mut left: u128 = if scale == i128::MIN {
            0x8000_0000_0000_0000_0000_0000_0000_0000
        } else {
            (-scale) as u128
        };
        let mut acc: u64 = match capped_value(d, cap) {
            Some(v) => {
                proof {
                    let x = number::dec_value(d@);
                    if x > cap {
                        assert(x * m >= cap * m && cap * m >= cap) by (nonlinear_arith)
                            requires
                                x > cap,
                                m > 0,
                                cap > 0,
                        ;
                    }
                    assert(v as int * m as int <= 0xffff_ffff_ffff_ffff * 0xffff_ffff_ffff_ffff)
                        by (nonlinear_arith)
                        requires
                            v <= 0xffff_ffff_ffff_ffffu64,
                            0 < m <= 0xffff_ffff_ffff_ffffu64,
                    ;
                }
                let total: u128 = v as u128 * m as u128;
                if total > cap as u128 {
                    cap
                } else {
                    total as u64
                }
            },
            None => cap,
        };
        let ghost whole = number::dec_value(d@) * (m as nat);
        let ghost mut done: nat = 0;
        proof {
            assert(whole * pow10(0) == whole) by (nonlinear_arith)
                requires
                    pow10(0) == 1,
            ;
        }
        while left > 0 && acc > 0 && acc < cap
            invariant
                0 < cap,
                done + left == -scale,
                acc == held(whole * pow10(done), cap as nat),
            decreases left,
        {
            proof {
                assert(whole * pow10(done + 1) == (whole * pow10(done)) * 10) by (nonlinear_arith)
                    requires
                        pow10(done + 1) == 10 * pow10(done),
                ;
                done = done + 1;
            }
            let next: u128 = acc as u128 * 10;
            acc = if next > cap as u128 {
                cap
            } else {
                next as u64
            };
            left -= 1;
        }
        proof {
            lemma_pow10_sum(done, left as nat);
            lemma_pow10_positive(left as nat);
            let x = whole * pow10(done);
            assert(whole * (pow10(done) * pow10(left as nat)) == x * pow10(left as nat))
                by (nonlinear_arith)
                requires
                    x == whole * pow10(done),
            ;
            assert(x * pow10(left as nat) >= x) by (nonlinear_arith)
                requires
                    pow10(left as nat) >= 1,
            ;
            if left == 0 {
                assert(x * pow10(0) == x) by (nonlinear_arith)
                    requires
                        pow10(0) == 1,
                ;
            }
            if x == 0 {
                assert(x * pow10(left as nat) == 0) by (nonlinear_arith)
                    requires
                        x == 0,
                ;
            }
        }
        acc
    }
}

impl Decimal {
    /// Whether the digits are digits.
    pub open spec fn valid(&self) -> bool {
        self@ matches DecimalView::Number { digits, .. } ==> number::all_digits(digits)
    }

    /// The value times `m`, rounded toward zero and held to the range of `i64`.
    pub fn scaled(&self, m: u64) -> (r: i64)
        requires
            self.valid(),
            0 < m,
        ensures
            r == scaled(self@, m as nat),
    {
        match self {
            Decimal::NotANumber => 0,
            Decimal::Infinite { negative } => if *negative {
                i64::MIN
            } else {
                i64::MAX
            },
            Decimal::Number { negative, digits, scale } => {
                if *negative {
                    let x: u64 = magnitude_held(digits, *scale, m, 0x8000_0000_0000_0000);
                    if x == 0x8000_0000_0000_0000 {
                        i64::MIN
                    } else {
                        -(x as i64)
                    }
                } else {
                    magnitude_held(digits, *scale, m, 0x7fff_ffff_ffff_ffff) as i64
                }
            },
        }
    }
}

/// The value times `m` and divided by 10 to the power `shift`, rounded toward zero
/// and held to the range of `u64`; 0 where it is not a number.
pub open spec fn scaled_nat(v: DecimalView, m: nat, shift: nat) -> nat {
    match v {
        DecimalView::NotANumber => 0,
        DecimalView::Infinite { negative } => if negative || m == 0 {
            0
        } else {
            u64::MAX as nat
        },
        DecimalView::Number { negative, digits, scale } => if negative || m == 0 {
            0
        } else {
            held(magnitude(digits, scale + shift, m), u64::MAX as nat)
        },
    }
}

impl Decimal {
    /// The value times `m` and divided by 10 to the power `shift`, rounded toward
    /// zero and held to the range of `u64`.
    pub fn scaled_u64(&self, m: u64, shift: u8) -> (r: u64)
        requires
            self.valid(),
            self@ matches DecimalView::Number { scale, .. } ==> scale + shift <= i128::MAX,
        ensures
            r == scaled_nat(self@, m as nat, shift as nat),
    {
        if m == 0 {
            return 0;
        }
        match self {
            Decimal::NotANumber => 0,
            Decimal::Infinite { negative } => if *negative {
                0
            } else {
                u64::MAX
            },
            Decimal::Number { negative, digits, scale } => {
                if *negative {
                    0
                } else {
                    magnitude_held(digits, *scale + shift as i128, m, u64::MAX)
                }
            },
        }
    }
}

/// The digits of a number that was read are digits.
pub proof fn lemma_parsed_valid(s: Seq<char>)
    ensures
        parsed_decimal(s) matches Some(DecimalView::Number { digits, scale, .. })
            ==> number::all_digits(digits) && scale <= s.len() + EXPONENT_CAP,
{
    let rest = if s.len() > 0 && (s[0] == '-' || s[0] == '+') {
        s.skip(1)
    } else {
        s
    };
    lemma_digits_end(rest, 0);
    let a = digits_end(rest, 0);
    if a < rest.len() && rest[a] == '.' {
        lemma_digits_end(rest, a + 1);
    }
}

/// The number that a text writes times `m`, where it writes one.
pub open spec fn scaled_text(s: Seq<char>, m: nat) -> Option<int> {
    match parsed_decimal(s) {
        Some(v) => Some(scaled(v, m)),
        None => None,
    }
}

/// Reads a decimal number and multiplies it by `m`, rounding toward zero.
pub fn parse_scaled(s: &[char], m: u64) -> (r: Option<i64>)
    requires
        0 < m,
    ensures
        match r {
            Some(v) => scaled_text(s@, m as nat) == Some(v as int),
            None => scaled_text(s@, m as nat) is None,
        },
{
    proof {
        lemma_parsed_valid(s@);
    }
    match parse_decimal(s) {
        Some(d) => Some(d.scaled(m)),
        None => None,
    }
}

/// The number that a text writes times `m` and divided by 10 to the power `shift`,
/// where it writes one.
pub open spec fn scaled_nat_text(s: Seq<char>, m: nat, shift: nat) -> Option<nat> {
    match parsed_decimal(s) {
        Some(v) => Some(scaled_nat(v, m, shift)),
        None => None,
    }
}

/// Reads a decimal number, multiplies it by `m` and divides it by 10 to the power
/// `shift`, rounding toward zero.
pub fn parse_scaled_u64(s: &[char], m: u64, shift: u8) -> (r: Option<u64>)
    ensures
        match r {
            Some(v) => scaled_nat_text(s@, m as nat, shift as nat) == Some(v as nat),
            None => scaled_nat_text(s@, m as nat, shift as nat) is None,
        },
{
    let length: usize = s.len();
    assert(length as int == s@.len());
    proof {
        lemma_parsed_valid(s@);
    }
    match parse_decimal(s) {
        Some(d) => Some(d.scaled_u64(m, shift)),
        None => None,
    }
}

// ---------------------------------------------------------------------------
// Rounding
// ---------------------------------------------------------------------------

/// Whether some digit is not zero.
pub open spec fn not_zero(s: Seq<char>) -> bool {
    exists|i: int| 0 <= i < s.len() && #[trigger] s[i] != '0'
}

/// Digits with the point `scale` places to the left of their end, rounded to a
/// whole number, a half to the even one, and held to the range of `u64`.
pub open spec fn rounded(digits: Seq<char>, scale: int) -> nat {
    let max = u64::MAX as nat;
    if scale <= 0 {
        held(magnitude(digits, scale, 1), max)
    } else if scale > digits.len() {
        0
    } else {
        let whole = number::dec_value(digits.take(digits.len() - scale));
        let fraction = digits.skip(digits.len() - scale);
        let up = fraction[0] > '5' || (fraction[0] == '5' && (not_zero(fraction.skip(1)) || whole % 2
            == 1));
        held(
            if up {
                whole + 1
            } else {
                whole
            },
            max,
        )
    }
}

/// A number rounded to a whole one, as text.
pub open spec fn rounded_text(v: DecimalView) -> Seq<char> {
    match v {
        DecimalView::NotANumber => "NaN"@,
        DecimalView::Infinite { negative } => if negative {
            "-inf"@
        } else {
            "inf"@
        },
        DecimalView::Number { negative, digits, scale } => (if negative {
            "-"@
        } else {
            Seq::empty()
        }) + number::dec(rounded(digits, scale)),
    }
}

fn any_not_zero(s: &[char]) -> (r: bool)
    ensures
        r == not_zero(s@),
{
    let mut i: usize = 0;
    while i < s.len()
        invariant
            i <= s.len(),
            forall|j: int| 0 <= j < i ==> #[trigger] s@[j] == '0',
        decreases s.len() - i,
    {
        if s[i] != '0' {
            return true;
        }
        i += 1;
    }
    false
}

fn round(digits: &Vec<char>, scale: i128) -> (r: u64)
    requires
        number::all_digits(digits@),
    ensures
        r == rounded(digits@, scale as int),
{
    if scale <= 0 {
        return magnitude_held(digits, scale, 1, u64::MAX);
    }
    let d = digits.as_slice();
    let n: usize = d.len();
    if scale > n as i128 {
        return 0;
    }
    let cut: usize = n - scale as usize;
    let whole = slice_subrange(d, 0, cut);
    let fraction = slice_subrange(d, cut, n);
    assert(whole@ =~= digits@.take(digits@.len() - scale));
    assert(fraction@ =~= digits@.skip(digits@.len() - scale));
    proof {
        assert forall|i: int| 0 <= i < whole@.len() implies text::is_digit(#[trigger] whole@[i]) by {
            assert(text::is_digit(digits@[i]));
        }
        assert(number::all_digits(whole@));
    }
    let tail = slice_subrange(fraction, 1, fraction.len());
    assert(tail@ =~= fraction@.skip(1));
    match capped_value(whole, u64::MAX) {
        Some(w) => {
            let up = fraction[0] > '5' || (fraction[0] == '5' && (any_not_zero(tail) || w % 2 == 1));
            if up && w < u64::MAX {
                w + 1
            } else {
                w
            }
        },
        None => u64::MAX,
    }
}

impl Decimal {
    /// Writes the number rounded to a whole one.
    pub fn rounded_string(&self) -> (r: String)
        requires
            self.valid(),
        ensures
            r@ == rounded_text(self@),
    {
        match self {
            Decimal::NotANumber => "NaN".to_string(),
            Decimal::Infinite { negative } => if *negative {
                "-inf".to_string()
            } else {
                "inf".to_string()
            },
            Decimal::Number { negative, digits, scale } => {
                let written = number::dec_string(round(digits, *scale));
                if *negative {
                    text::cat2("-", written.as_str())
                } else {
                    assert(written@ =~= Seq::<char>::empty() + written@);
                    written
                }
            },
        }
    }
}

} // verus!
