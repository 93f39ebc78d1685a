//! Exact decimal money values.
//!
//! An [`Amount`] stores a monetary value as an integer count of
//! 10^-12 currency units, so that additions, subtractions and
//! comparisons are exact integer arithmetic.  Values are kept inside
//! a symmetric range so that sums of two balances never leave `i128`.

use vstd::prelude::*;
use vstd::string::StringExecFns;

verus! {

/// Every amount is stored with this many fractional decimal digits.
pub const FRACTION_DIGITS: u32 = 12;

/// Largest mantissa magnitude an `Amount` may carry: 10^37.
/// Twice this bound still fits comfortably in `i128`.
pub const MANTISSA_LIMIT: i128 = 10_000_000_000_000_000_000_000_000_000_000_000_000;

/// 10^n.
pub open spec fn pow10(n: nat) -> int
    decreases n,
{
    if n == 0 {
        1
    } else {
        10 * pow10((n - 1) as nat)
    }
}

/// The mantissa range every `Amount` (and every account balance) stays in.
pub open spec fn in_amount_range(v: int) -> bool {
    -MANTISSA_LIMIT <= v && v <= MANTISSA_LIMIT
}

/// An exact decimal amount; its view counts units of 10^-12.
#[derive(Clone, Copy, Debug)]
pub struct Amount {
    mantissa: i128,
}

impl View for Amount {
    type V = int;

    closed spec fn view(&self) -> int {
        self.mantissa as int
    }
}

impl Amount {
    /// Invariant: the mantissa never leaves the symmetric range.
    #[verifier::type_invariant]
    closed spec fn wf(self) -> bool {
        in_amount_range(self.mantissa as int)
    }

    /// The zero amount.
    pub fn zero() -> (r: Amount)
        ensures
            r@ == 0,
    {
        Amount { mantissa: 0 }
    }

    /// Builds the amount `mantissa * 10^-scale`, exactly.  Returns
    /// `None` when the scale is finer than `FRACTION_DIGITS` or the
    /// value leaves the representable range.
    pub fn new(mantissa: i128, scale: u32) -> (r: Option<Amount>)
        ensures
            r is Some <==> (scale <= FRACTION_DIGITS && in_amount_range(
                mantissa * pow10((FRACTION_DIGITS - scale) as nat),
            )),
            r is Some ==> (r->0)@ == mantissa * pow10((FRACTION_DIGITS - scale) as nat),
    {
        if scale > FRACTION_DIGITS {
            return None;
        }
        let p = pow10_i128(FRACTION_DIGITS - scale);
        match mantissa.checked_mul(p) {
            Some(m) => {
                if -MANTISSA_LIMIT <= m && m <= MANTISSA_LIMIT {
                    Some(Amount { mantissa: m })
                } else {
                    None
                }
            },
            None => {
                proof {
                    assert(!in_amount_range(mantissa * p));
                }
                None
            },
        }
    }

    /// Exact sum, or `None` when it leaves the representable range.
    pub fn checked_add(self, other: Amount) -> (r: Option<Amount>)
        ensures
            r is Some <==> in_amount_range(self@ + other@),
            r is Some ==> (r->0)@ == self@ + other@,
    {
        proof {
            use_type_invariant(self);
            use_type_invariant(other);
        }
        let s = self.mantissa + other.mantissa;
        if -MANTISSA_LIMIT <= s && s <= MANTISSA_LIMIT {
            Some(Amount { mantissa: s })
        } else {
            None
        }
    }

    /// Exact difference, or `None` when it leaves the representable range.
    pub fn checked_sub(self, other: Amount) -> (r: Option<Amount>)
        ensures
            r is Some <==> in_amount_range(self@ - other@),
            r is Some ==> (r->0)@ == self@ - other@,
    {
        proof {
            use_type_invariant(self);
            use_type_invariant(other);
        }
        let d = self.mantissa - other.mantissa;
        if -MANTISSA_LIMIT <= d && d <= MANTISSA_LIMIT {
            Some(Amount { mantissa: d })
        } else {
            None
        }
    }

    /// Exact comparison.
    pub fn ge(&self, other: &Amount) -> (r: bool)
        ensures
            r == (self@ >= other@),
    {
        self.mantissa >= other.mantissa
    }

    /// This amount written with four fractional digits.
    pub fn render(&self) -> (r: String)
        ensures
            r@ == render_spec(self@),
    {
        proof {
            use_type_invariant(*self);
        }
        render_value(self.mantissa)
    }

    /// The sum of two amounts written with four fractional digits;
    /// total even when the sum itself leaves the amount range.
    pub fn render_sum(&self, other: &Amount) -> (r: String)
        ensures
            r@ == render_spec(self@ + other@),
    {
        proof {
            use_type_invariant(*self);
            use_type_invariant(*other);
        }
        render_value(self.mantissa + other.mantissa)
    }
}

/// Divisor that takes a scale-12 mantissa to four fractional digits: 10^8.
pub const RENDER_DIVISOR: u128 = 100_000_000;

/// The decimal digit `d` as a character (meaningful for d < 10).
pub open spec fn digit_char(d: nat) -> char {
    if d == 0 {
        '0'
    } else if d == 1 {
        '1'
    } else if d == 2 {
        '2'
    } else if d == 3 {
        '3'
    } else if d == 4 {
        '4'
    } else if d == 5 {
        '5'
    } else if d == 6 {
        '6'
    } else if d == 7 {
        '7'
    } else if d == 8 {
        '8'
    } else {
        '9'
    }
}

/// The decimal digits of `n`, most significant first, without leading zeros.
pub open spec fn dec_digits(n: nat) -> Seq<char>
    decreases n,
{
    if n < 10 {
        seq![digit_char(n)]
    } else {
        dec_digits(n / 10).push(digit_char(n % 10))
    }
}

/// `n / d` rounded to the nearest integer, ties to the even neighbour
/// (meaningful for d >= 1).
pub open spec fn half_even_quotient(n: nat, d: nat) -> nat {
    let q = n / d;
    if 2 * (n % d) > d {
        q + 1
    } else if 2 * (n % d) < d {
        q
    } else if q % 2 == 0 {
        q
    } else {
        q + 1
    }
}

/// Four zero-padded decimal digits of `f` (meaningful for f < 10000).
pub open spec fn frac4(f: nat) -> Seq<char> {
    seq![
        digit_char(f / 1000 % 10),
        digit_char(f / 100 % 10),
        digit_char(f / 10 % 10),
        digit_char(f % 10),
    ]
}

/// How a mantissa `v` (in units of 10^-12) is written in a snapshot:
/// a '-' for negative values, the whole part without leading zeros,
/// then exactly four fractional digits, ties rounded to even.
pub open spec fn render_spec(v: int) -> Seq<char> {
    let m = (if v >= 0 {
        v
    } else {
        -v
    }) as nat;
    let q = half_even_quotient(m, RENDER_DIVISOR as nat);
    let sign: Seq<char> = if v < 0 {
        seq!['-']
    } else {
        Seq::empty()
    };
    sign + dec_digits(q / 10000) + seq!['.'] + frac4(q % 10000)
}

/// The range of values the renderer accepts: any sum of two amounts.
spec fn in_render_range(v: int) -> bool {
    -2 * MANTISSA_LIMIT <= v && v <= 2 * MANTISSA_LIMIT
}

/// One decimal digit as a string slice.
fn digit_str(d: u128) -> (r: &'static str)
    requires
        d < 10,
    ensures
        r@ == seq![digit_char(d as nat)],
{
    proof {
        reveal_strlit("0");
        reveal_strlit("1");
        reveal_strlit("2");
        reveal_strlit("3");
        reveal_strlit("4");
        reveal_strlit("5");
        reveal_strlit("6");
        reveal_strlit("7");
        reveal_strlit("8");
        reveal_strlit("9");
    }
    let r = match d {
        0 => "0",
        1 => "1",
        2 => "2",
        3 => "3",
        4 => "4",
        5 => "5",
        6 => "6",
        7 => "7",
        8 => "8",
        _ => "9",
    };
    proof {
        assert(r@ =~= seq![digit_char(d as nat)]);
    }
    r
}

/// The decimal digits of `n`, most significant first.
fn u128_digits(n: u128) -> (r: String)
    ensures
        r@ == dec_digits(n as nat),
    decreases n,
{
    if n < 10 {
        String::from_str(digit_str(n))
    } else {
        let mut s = u128_digits(n / 10);
        s.append(digit_str(n % 10));
        proof {
            assert(s@ =~= dec_digits(n as nat));
        }
        s
    }
}

/// Writes `v` (a mantissa in units of 10^-12) with four fractional digits.
fn render_value(v: i128) -> (r: String)
    requires
        in_render_range(v as int),
    ensures
        r@ == render_spec(v as int),
{
    let neg = v < 0;
    let m: u128 = if neg {
        (-v) as u128
    } else {
        v as u128
    };
    let q0 = m / RENDER_DIVISOR;
    let rem = m % RENDER_DIVISOR;
    let q = if 2 * rem > RENDER_DIVISOR {
        q0 + 1
    } else if 2 * rem < RENDER_DIVISOR {
        q0
    } else if q0 % 2 == 0 {
        q0
    } else {
        q0 + 1
    };
    proof {
        assert(q == half_even_quotient(m as nat, RENDER_DIVISOR as nat));
    }
    let units = q / 10_000;
    let frac = q % 10_000;
    let mut s = String::new();
    if neg {
        proof {
            reveal_strlit("-");
        }
        s.append("-");
    }
    let units_str = u128_digits(units);
    s.append(units_str.as_str());
    proof {
        reveal_strlit(".");
    }
    s.append(".");
    s.append(digit_str(frac / 1000));
    s.append(digit_str(frac / 100 % 10));
    s.append(digit_str(frac / 10 % 10));
    s.append(digit_str(frac % 10));
    proof {
        assert(s@ =~= render_spec(v as int));
    }
    s
}

/// 10^e for e up to `FRACTION_DIGITS`.
fn pow10_i128(e: u32) -> (r: i128)
    requires
        e <= FRACTION_DIGITS,
    ensures
        r == pow10(e as nat),
        1 <= r <= 1_000_000_000_000i128,
{
    proof {
        reveal_with_fuel(pow10, 13);
    }
    match e {
        0 => 1,
        1 => 10,
        2 => 100,
        3 => 1_000,
        4 => 10_000,
        5 => 100_000,
        6 => 1_000_000,
        7 => 10_000_000,
        8 => 100_000_000,
        9 => 1_000_000_000,
        10 => 10_000_000_000,
        11 => 100_000_000_000,
        _ => 1_000_000_000_000,
    }
}

} // verus!
