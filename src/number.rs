//! Numbers of the language: decimals with six fractional digits, the two
//! infinities, and not-a-number.
//!
//! A finite `Number` holds its value multiplied by one million in an `i64`, so
//! every literal with up to six fractional digits is represented exactly.
//! Addition, subtraction and comparison are exact; multiplication and division
//! truncate toward zero at the sixth fractional digit. A result beyond the
//! range becomes the infinity of its sign, and the infinities and not-a-number
//! behave as in floating point: dividing by zero gives an infinity, or
//! not-a-number for zero by zero, and nothing compares with not-a-number.
use vstd::prelude::*;
use crate::text::{
    decimal_digits, digit_value, is_digit, padded_digits, push_char, push_decimal, push_padded,
};

verus! {

/// How many units make one.
pub open spec fn scale() -> int {
    1_000_000
}

/// Whether `v` can be held as a number's units.
pub open spec fn fits(v: int) -> bool {
    i64::MIN <= v <= i64::MAX
}

pub open spec fn abs(a: int) -> int {
    if a < 0 {
        -a
    } else {
        a
    }
}

/// Integer division rounding toward zero.
pub open spec fn trunc_div(a: int, b: int) -> int {
    if (a >= 0) == (b > 0) || a == 0 {
        abs(a) / abs(b)
    } else {
        -(abs(a) / abs(b))
    }
}

/// Units of the product of two numbers given by their units.
pub open spec fn mul_units(a: int, b: int) -> int {
    trunc_div(a * b, scale())
}

/// Units of the quotient of two numbers given by their units.
pub open spec fn div_units(a: int, b: int) -> int {
    trunc_div(a * scale(), b)
}

/// The fractional digits of `f` units out of a width `w`, with trailing zeros removed.
pub open spec fn fraction_digits(f: nat, w: nat) -> Seq<char>
    decreases w,
{
    if w > 0 && f % 10 == 0 {
        fraction_digits(f / 10, (w - 1) as nat)
    } else {
        padded_digits(f, w)
    }
}

/// How a number with `u` units is written: an optional minus sign, the integer
/// part, and, when there is one, a point and the fraction without trailing zeros.
pub open spec fn number_text(u: int) -> Seq<char> {
    let a = abs(u);
    let sign = if u < 0 {
        seq!['-']
    } else {
        Seq::<char>::empty()
    };
    let frac = if a % scale() == 0 {
        Seq::<char>::empty()
    } else {
        seq!['.'] + fraction_digits((a % scale()) as nat, 6)
    };
    sign + decimal_digits((a / scale()) as nat) + frac
}

/// The value of a run of decimal digits.
pub open spec fn digits_value(s: Seq<char>) -> int
    decreases s.len(),
{
    if s.len() == 0 {
        0
    } else {
        digits_value(s.drop_last()) * 10 + digit_value(s.last())
    }
}

/// The first `w` fractional digits of `s` as units of `10^-w`, padded with zeros.
pub open spec fn fraction_value(s: Seq<char>, w: nat) -> int
    decreases w,
{
    if w == 0 {
        0
    } else {
        fraction_value(s, (w - 1) as nat) * 10 + if w - 1 < s.len() {
            digit_value(s[w - 1])
        } else {
            0
        }
    }
}

/// The length of the run of digits at the start of `s`.
pub open spec fn digit_run(s: Seq<char>) -> nat
    decreases s.len(),
{
    if s.len() > 0 && is_digit(s[0]) {
        1 + digit_run(s.drop_first())
    } else {
        0
    }
}

/// Whether `s` is a number literal: digits, then optionally a point and more digits.
pub open spec fn is_number_literal(s: Seq<char>) -> bool {
    let k = digit_run(s) as int;
    k > 0 && (k == s.len() || (s[k] == '.' && forall|i: int| k < i < s.len() ==> is_digit(s[i])))
}

pub open spec fn pow10(w: nat) -> nat
    decreases w,
{
    if w == 0 {
        1
    } else {
        10 * pow10((w - 1) as nat)
    }
}

/// The units of the number that the literal `s` denotes: fractional digits past
/// the sixth are dropped.
pub open spec fn literal_units(s: Seq<char>) -> int {
    let k = digit_run(s) as int;
    let frac = if k < s.len() {
        s.skip(k + 1)
    } else {
        Seq::<char>::empty()
    };
    digits_value(s.take(k)) * scale() + fraction_value(frac, 6)
}

/// A number of the language: a finite decimal, an infinity, or not a number.
#[derive(Clone, Copy, Debug, PartialEq, Eq, Structural)]
pub enum Number {
    /// The value times one million.
    Finite { units: i64 },
    Infinite { negative: bool },
    NaN,
}

impl View for Number {
    type V = Number;

    open spec fn view(&self) -> Number {
        *self
    }
}

pub open spec fn finite(units: int) -> Number {
    Number::Finite { units: units as i64 }
}

pub open spec fn infinity(negative: bool) -> Number {
    Number::Infinite { negative }
}

/// The number of `v` units, or the infinity of its sign when it is out of range.
pub open spec fn from_exact(v: int) -> Number {
    if fits(v) {
        finite(v)
    } else {
        infinity(v < 0)
    }
}

/// The number that a literal denotes; one too large for the range is infinite.
pub open spec fn literal_number(s: Seq<char>) -> Number {
    from_exact(literal_units(s))
}

pub open spec fn num_add(a: Number, b: Number) -> Number {
    match (a, b) {
        (Number::Finite { units: x }, Number::Finite { units: y }) => from_exact(x + y),
        (Number::NaN, _) => Number::NaN,
        (_, Number::NaN) => Number::NaN,
        (Number::Infinite { negative: n }, Number::Infinite { negative: m }) => if n == m {
            a
        } else {
            Number::NaN
        },
        (Number::Infinite { .. }, _) => a,
        (_, _) => b,
    }
}

pub open spec fn num_sub(a: Number, b: Number) -> Number {
    match (a, b) {
        (Number::Finite { units: x }, Number::Finite { units: y }) => from_exact(x - y),
        (Number::NaN, _) => Number::NaN,
        (_, Number::NaN) => Number::NaN,
        (Number::Infinite { negative: n }, Number::Infinite { negative: m }) => if n != m {
            a
        } else {
            Number::NaN
        },
        (Number::Infinite { .. }, _) => a,
        (_, Number::Infinite { negative: m }) => infinity(!m),
    }
}

pub open spec fn num_mul(a: Number, b: Number) -> Number {
    match (a, b) {
        (Number::Finite { units: x }, Number::Finite { units: y }) => from_exact(mul_units(x as int, y as int)),
        (Number::NaN, _) => Number::NaN,
        (_, Number::NaN) => Number::NaN,
        (Number::Infinite { negative: n }, Number::Infinite { negative: m }) => infinity(n != m),
        (Number::Infinite { negative: n }, Number::Finite { units: y }) => if y == 0 {
            Number::NaN
        } else {
            infinity(n != (y < 0))
        },
        (Number::Finite { units: x }, Number::Infinite { negative: m }) => if x == 0 {
            Number::NaN
        } else {
            infinity((x < 0) != m)
        },
    }
}

/// Division: a zero divisor gives an infinity of the dividend's sign, or not a
/// number when the dividend is zero too.
pub open spec fn num_div(a: Number, b: Number) -> Number {
    match (a, b) {
        (Number::Finite { units: x }, Number::Finite { units: y }) => if y == 0 {
            if x == 0 {
                Number::NaN
            } else {
                infinity(x < 0)
            }
        } else {
            from_exact(div_units(x as int, y as int))
        },
        (Number::NaN, _) => Number::NaN,
        (_, Number::NaN) => Number::NaN,
        (Number::Infinite { .. }, Number::Infinite { .. }) => Number::NaN,
        (Number::Infinite { negative: n }, Number::Finite { units: y }) => infinity(
            if y == 0 {
                n
            } else {
                n != (y < 0)
            },
        ),
        (Number::Finite { .. }, Number::Infinite { .. }) => finite(0),
    }
}

/// Where a number stands among the others: minus infinity, the finite
/// numbers, plus infinity.
pub open spec fn rank(a: Number) -> int {
    match a {
        Number::Infinite { negative: true } => 0,
        Number::Infinite { negative: false } => 2,
        _ => 1,
    }
}

/// `a < b`; nothing compares with not a number.
pub open spec fn num_lt(a: Number, b: Number) -> bool {
    !(a is NaN) && !(b is NaN) && (rank(a) < rank(b) || (a matches Number::Finite { units: x }
        && b matches Number::Finite { units: y } && x < y))
}

/// `a <= b`; nothing compares with not a number.
pub open spec fn num_le(a: Number, b: Number) -> bool {
    !(a is NaN) && !(b is NaN) && (rank(a) < rank(b) || (rank(a) == rank(b) && !(a is Finite))
        || (a matches Number::Finite { units: x } && b matches Number::Finite { units: y } && x
        <= y))
}

/// Whether a number is other than zero; not a number is.
pub open spec fn num_nonzero(a: Number) -> bool {
    !(a matches Number::Finite { units: x } && x == 0)
}

/// How a number is written: decimals as `number_text`, and `inf`, `-inf`, `NaN`.
pub open spec fn num_text(a: Number) -> Seq<char> {
    match a {
        Number::Finite { units } => number_text(units as int),
        Number::Infinite { negative: false } => "inf"@,
        Number::Infinite { negative: true } => "-inf"@,
        Number::NaN => "NaN"@,
    }
}

/// The integer that a number gives as an index: truncated toward zero, with
/// the infinities at the ends of the `i64` range and not a number at zero.
pub open spec fn num_index(a: Number) -> int {
    match a {
        Number::Finite { units } => trunc_div(units as int, scale()),
        Number::Infinite { negative: false } => i64::MAX as int,
        Number::Infinite { negative: true } => i64::MIN as int,
        Number::NaN => 0,
    }
}

pub proof fn lemma_digit_run_bound(s: Seq<char>)
    ensures
        digit_run(s) <= s.len(),
        forall|i: int| 0 <= i < digit_run(s) ==> is_digit(s[i]),
        digit_run(s) < s.len() ==> !is_digit(s[digit_run(s) as int]),
    decreases s.len(),
{
    if s.len() > 0 && is_digit(s[0]) {
        lemma_digit_run_bound(s.drop_first());
        assert forall|i: int| 0 <= i < digit_run(s) implies is_digit(s[i]) by {
            if i > 0 {
                assert(s[i] == s.drop_first()[i - 1]);
            }
        }
    }
}

pub proof fn lemma_digit_run_of(s: Seq<char>, k: int)
    requires
        0 <= k <= s.len(),
        forall|i: int| 0 <= i < k ==> is_digit(s[i]),
        k == s.len() || !is_digit(s[k]),
    ensures
        digit_run(s) == k,
    decreases s.len(),
{
    if k > 0 {
        lemma_digit_run_of(s.drop_first(), k - 1);
    }
}

/// `p` divided by `d`, rounded toward zero.
fn trunc_i128(p: i128, d: u128) -> (r: i128)
    requires
        d > 0,
        -0x4000_0000_0000_0000_0000_0000_0000_0000 <= p <= 0x4000_0000_0000_0000_0000_0000_0000_0000,
    ensures
        r == trunc_div(p as int, d as int),
{
    if p < 0 {
        let m: u128 = (0 - p) as u128;
        let q: u128 = m / d;
        0 - (q as i128)
    } else {
        let m: u128 = p as u128;
        (m / d) as i128
    }
}

/// The number of `v` units, or an infinity when `v` is out of range.
fn from_i128(v: i128) -> (r: Number)
    ensures
        r == from_exact(v as int),
{
    if v > 0x7fff_ffff_ffff_ffff {
        Number::Infinite { negative: false }
    } else if v < -0x8000_0000_0000_0000 {
        Number::Infinite { negative: true }
    } else {
        Number::Finite { units: v as i64 }
    }
}

/// The decimal of `units` millionths.
fn finite_text(units: i64) -> (r: String)
ensures
    r@ == number_text(units as int),
{
    let mut s = String::new();
    let a: u64 = if units < 0 {
        (0 - (units as i128)) as u64
    } else {
        units as u64
    };
    assert(a as int == abs(units as int));
    if units < 0 {
        push_char(&mut s, '-');
    }
    push_decimal(&mut s, a / 1_000_000);
    let fp = a % 1_000_000;
    if fp != 0 {
        push_char(&mut s, '.');
        let mut f: u64 = fp;
        let mut w: u64 = 6;
        while w > 0 && f % 10 == 0
            invariant
                w <= 6,
                fraction_digits(fp as nat, 6) == fraction_digits(f as nat, w as nat),
            decreases w,
        {
            f = f / 10;
            w = w - 1;
        }
        push_padded(&mut s, f, w);
    }
    assert(s@ =~= number_text(units as int));
    s
}


impl Number {
    /// The number `n`.
    pub fn from_integer(n: i32) -> (r: Number)
        ensures
            r == finite(n as int * scale()),
    {
        Number::Finite { units: n as i64 * 1_000_000 }
    }

    /// The number `n`; infinite beyond the range.
    pub fn from_count(n: usize) -> (r: Number)
        ensures
            r == from_exact(n as int * scale()),
    {
        from_i128(n as i128 * 1_000_000)
    }

    /// Whether the number differs from zero.
    pub fn is_nonzero(&self) -> (r: bool)
        ensures
            r == num_nonzero(*self),
    {
        match self {
            Number::Finite { units } => *units != 0,
            _ => true,
        }
    }

    pub fn plus(&self, o: &Number) -> (r: Number)
        ensures
            r == num_add(*self, *o),
    {
        match (self, o) {
            (Number::Finite { units: x }, Number::Finite { units: y }) => from_i128(*x as i128 + *y as i128),
            (Number::NaN, _) => Number::NaN,
            (_, Number::NaN) => Number::NaN,
            (Number::Infinite { negative: n }, Number::Infinite { negative: m }) => if *n == *m {
                *self
            } else {
                Number::NaN
            },
            (Number::Infinite { .. }, _) => *self,
            (_, _) => *o,
        }
    }

    pub fn minus(&self, o: &Number) -> (r: Number)
        ensures
            r == num_sub(*self, *o),
    {
        match (self, o) {
            (Number::Finite { units: x }, Number::Finite { units: y }) => from_i128(*x as i128 - *y as i128),
            (Number::NaN, _) => Number::NaN,
            (_, Number::NaN) => Number::NaN,
            (Number::Infinite { negative: n }, Number::Infinite { negative: m }) => if *n != *m {
                *self
            } else {
                Number::NaN
            },
            (Number::Infinite { .. }, _) => *self,
            (_, Number::Infinite { negative: m }) => Number::Infinite { negative: !*m },
        }
    }

    pub fn times(&self, o: &Number) -> (r: Number)
        ensures
            r == num_mul(*self, *o),
    {
        match (self, o) {
            (Number::Finite { units: x }, Number::Finite { units: y }) => {
                let a = *x as i128;
                let b = *y as i128;
                assert(-0x4000_0000_0000_0000_0000_0000_0000_0000 <= a * b
                    <= 0x4000_0000_0000_0000_0000_0000_0000_0000) by (nonlinear_arith)
                    requires
                        -0x8000_0000_0000_0000 <= a <= 0x7fff_ffff_ffff_ffff,
                        -0x8000_0000_0000_0000 <= b <= 0x7fff_ffff_ffff_ffff,
                ;
                from_i128(trunc_i128(a * b, 1_000_000))
            },
            (Number::NaN, _) => Number::NaN,
            (_, Number::NaN) => Number::NaN,
            (Number::Infinite { negative: n }, Number::Infinite { negative: m }) => Number::Infinite {
                negative: *n != *m,
            },
            (Number::Infinite { negative: n }, Number::Finite { units: y }) => if *y == 0 {
                Number::NaN
            } else {
                Number::Infinite { negative: *n != (*y < 0) }
            },
            (Number::Finite { units: x }, Number::Infinite { negative: m }) => if *x == 0 {
                Number::NaN
            } else {
                Number::Infinite { negative: (*x < 0) != *m }
            },
        }
    }

    pub fn divided_by(&self, o: &Number) -> (r: Number)
        ensures
            r == num_div(*self, *o),
    {
        match (self, o) {
            (Number::Finite { units: x }, Number::Finite { units: y }) => {
                if *y == 0 {
                    if *x == 0 {
                        Number::NaN
                    } else {
                        Number::Infinite { negative: *x < 0 }
                    }
                } else {
                    let a = *x as i128 * 1_000_000;
                    let b = *y as i128;
                    if b < 0 {
                        let q = trunc_i128(0 - a, (0 - b) as u128);
                        assert(trunc_div(-a, -b) == trunc_div(a as int, b as int));
                        from_i128(q)
                    } else {
                        from_i128(trunc_i128(a, b as u128))
                    }
                }
            },
            (Number::NaN, _) => Number::NaN,
            (_, Number::NaN) => Number::NaN,
            (Number::Infinite { .. }, Number::Infinite { .. }) => Number::NaN,
            (Number::Infinite { negative: n }, Number::Finite { units: y }) => Number::Infinite {
                negative: if *y == 0 {
                    *n
                } else {
                    *n != (*y < 0)
                },
            },
            (Number::Finite { .. }, Number::Infinite { .. }) => Number::Finite { units: 0 },
        }
    }

    pub fn rank(&self) -> (r: u8)
        ensures
            r as int == rank(*self),
    {
        match self {
            Number::Infinite { negative: true } => 0,
            Number::Infinite { negative: false } => 2,
            _ => 1,
        }
    }

    pub fn lt(&self, o: &Number) -> (r: bool)
        ensures
            r == num_lt(*self, *o),
    {
        match (self, o) {
            (Number::NaN, _) => false,
            (_, Number::NaN) => false,
            (Number::Finite { units: x }, Number::Finite { units: y }) => *x < *y,
            _ => self.rank() < o.rank(),
        }
    }

    pub fn le(&self, o: &Number) -> (r: bool)
        ensures
            r == num_le(*self, *o),
    {
        match (self, o) {
            (Number::NaN, _) => false,
            (_, Number::NaN) => false,
            (Number::Finite { units: x }, Number::Finite { units: y }) => *x <= *y,
            _ => self.rank() <= o.rank(),
        }
    }

    /// The integer that the number gives as an index.
    pub fn truncated(&self) -> (r: i64)
        ensures
            r == num_index(*self),
    {
        match self {
            Number::Finite { units } => trunc_i128(*units as i128, 1_000_000) as i64,
            Number::Infinite { negative: false } => 0x7fff_ffff_ffff_ffff,
            Number::Infinite { negative: true } => -0x8000_0000_0000_0000,
            Number::NaN => 0,
        }
    }

    /// How the number is written.
    pub fn to_text(&self) -> (r: String)
        ensures
            r@ == num_text(*self),
    {
        match self {
            Number::Finite { units } => finite_text(*units),
            Number::Infinite { negative: false } => String::from_str("inf"),
            Number::Infinite { negative: true } => String::from_str("-inf"),
            Number::NaN => String::from_str("NaN"),
        }
    }

    /// The number that a literal denotes; one beyond the range is infinite.
    pub fn from_literal(text: &str) -> (r: Number)
        requires
            is_number_literal(text@),
        ensures
            r == literal_number(text@),
    {
        let n = text.unicode_len();
        let ghost s = text@;
        let ghost k0 = digit_run(s) as int;
        proof {
            lemma_digit_run_bound(s);
        }
        let mut i: usize = 0;
        let mut whole: u64 = 0;
        while i < n && text.get_char(i) != '.'
            invariant
                n == s.len(),
                text@ == s,
                i <= k0,
                k0 <= s.len(),
                is_number_literal(s),
                digit_run(s) == k0,
                forall|j: int| 0 <= j < k0 ==> is_digit(s[j]),
                k0 == s.len() || s[k0] == '.',
                whole as int == digits_value(s.take(i as int)),
                whole <= 9_223_372_036_854,
            decreases n - i,
        {
            let c = text.get_char(i);
            assert(i < k0) by {
                if i == k0 && k0 < s.len() {
                    assert(s[k0] == '.');
                }
            }
            let d: u64 = (c as u32 - '0' as u32) as u64;
            assert(s.take(i + 1).drop_last() =~= s.take(i as int));
            if whole > 922_337_203_685 || whole * 10 + d > 9_223_372_036_854 {
                proof {
                    lemma_digits_monotone(s, i as int + 1, k0);
                    if k0 < s.len() {
                        let fr = s.skip(k0 + 1);
                        assert forall|j: int| 0 <= j < fr.len() implies is_digit(
                            #[trigger] fr[j],
                        ) by {
                            assert(s.skip(k0 + 1)[j] == s[k0 + 1 + j]);
                        }
                        lemma_fraction_nonneg(s.skip(k0 + 1), 6);
                    } else {
                        lemma_fraction_nonneg(Seq::<char>::empty(), 6);
                    }
                    let v = digits_value(s.take(k0));
                    assert(v >= 9_223_372_036_855);
                    assert(v * 1_000_000 >= 9_223_372_036_855 * 1_000_000) by (nonlinear_arith)
                        requires
                            v >= 9_223_372_036_855,
                    ;
                }
                return Number::Infinite { negative: false };
            }
            whole = whole * 10 + d;
            i = i + 1;
        }
        let ghost frac = if k0 < s.len() {
            s.skip(k0 + 1)
        } else {
            Seq::<char>::empty()
        };
        let mut f: u64 = 0;
        let mut w: usize = 0;
        while w < 6
            invariant
                w <= 6,
                i == k0,
                n == s.len(),
                text@ == s,
                f as int == fraction_value(frac, w as nat),
                f < pow10(w as nat),
                k0 <= s.len(),
                k0 < s.len() ==> frac.len() == s.len() - k0 - 1,
                k0 < s.len() ==> forall|j: int| 0 <= j < frac.len() ==> frac[j] == s[k0 + 1 + j],
                k0 < s.len() ==> forall|j: int| 0 <= j < frac.len() ==> is_digit(frac[j]),
                k0 == s.len() ==> frac.len() == 0,
            decreases 6 - w,
        {
            let d: u64 = if w + 1 < n - i {
                let c = text.get_char(i + 1 + w);
                assert(c == frac[w as int]);
                (c as u32 - '0' as u32) as u64
            } else {
                0
            };
            assert(pow10((w + 1) as nat) == pow10(w as nat) * 10);
            assert(pow10((w + 1) as nat) <= 1_000_000) by {
                reveal_with_fuel(pow10, 7);
                if w == 0 {
                } else if w == 1 {
                } else if w == 2 {
                } else if w == 3 {
                } else if w == 4 {
                } else {
                }
            }
            f = f * 10 + d;
            w = w + 1;
        }
        assert(s.take(k0) =~= s.take(i as int));
        assert(pow10(6) == 1_000_000) by {
            reveal_with_fuel(pow10, 7);
        }
        let units: u64 = whole * 1_000_000 + f;
        if units > 0x7fff_ffff_ffff_ffff {
            Number::Infinite { negative: false }
        } else {
            Number::Finite { units: units as i64 }
        }
    }
}

proof fn lemma_digits_monotone(s: Seq<char>, i: int, k: int)
    requires
        0 <= i <= k <= s.len(),
        forall|j: int| 0 <= j < k ==> is_digit(s[j]),
    ensures
        digits_value(s.take(i)) <= digits_value(s.take(k)),
        digits_value(s.take(i)) >= 0,
    decreases k - i,
{
    lemma_digits_nonneg(s.take(i), s.take(i).len() as int);
    if i < k {
        lemma_digits_monotone(s, i + 1, k);
        assert(s.take(i + 1).drop_last() =~= s.take(i));
    }
}

proof fn lemma_fraction_nonneg(s: Seq<char>, w: nat)
    requires
        forall|j: int| 0 <= j < s.len() ==> is_digit(s[j]),
    ensures
        fraction_value(s, w) >= 0,
    decreases w,
{
    if w > 0 {
        lemma_fraction_nonneg(s, (w - 1) as nat);
    }
}

proof fn lemma_digits_nonneg(s: Seq<char>, n: int)
    requires
        n == s.len(),
        forall|j: int| 0 <= j < s.len() ==> is_digit(s[j]),
    ensures
        digits_value(s) >= 0,
    decreases n,
{
    if n > 0 {
        lemma_digits_nonneg(s.drop_last(), n - 1);
    }
}

} // verus!
