//! Exact integer arithmetic on positive binary64 numbers: what the hardware's double-precision
//! operations give, rounded to nearest with ties to even.

use vstd::arithmetic::power2::{lemma_pow2_pos, lemma_pow2_strictly_increases, lemma_pow2_unfold, pow2};
use vstd::prelude::*;

verus! {

/// The smallest mantissa of a normal number.
pub const UNIT: u64 = 0x10_0000_0000_0000;

/// The positive number `mantissa` times two to the power of `exponent`.
#[derive(Clone, Copy, Debug, PartialEq, Eq, Structural)]
pub struct Binary64 {
    pub mantissa: u64,
    pub exponent: i32,
}

/// The integer nearest to a fraction, the even one of two that are equally near.
pub open spec fn half_even(numerator: int, denominator: int) -> int {
    let whole = numerator / denominator;
    let rest = numerator % denominator;
    if 2 * rest > denominator || (2 * rest == denominator && whole % 2 == 1) {
        whole + 1
    } else {
        whole
    }
}

/// The number nearest to a fraction times two to the power of `exponent`, where the fraction lies
/// between the smallest mantissa and twice as much.
pub open spec fn nearest(numerator: int, denominator: int, exponent: int) -> Binary64 {
    let mantissa = half_even(numerator, denominator);
    if mantissa == 2 * UNIT {
        Binary64 { mantissa: UNIT, exponent: (exponent + 1) as i32 }
    } else {
        Binary64 { mantissa: mantissa as u64, exponent: exponent as i32 }
    }
}

/// The power of two that a number reaches.
pub open spec fn floor_log(value: int) -> int
    decreases value,
{
    if value < 2 {
        0
    } else {
        1 + floor_log(value / 2)
    }
}

/// The number nearest to a positive integer.
pub open spec fn integer(value: int) -> Binary64 {
    nearest(value * UNIT, pow2(floor_log(value) as nat) as int, floor_log(value) - 52)
}

/// The quotient of two numbers.
pub open spec fn quotient(a: Binary64, b: Binary64) -> Binary64 {
    if a.mantissa >= b.mantissa {
        nearest(a.mantissa * UNIT, b.mantissa as int, a.exponent - b.exponent - 52)
    } else {
        nearest(2 * a.mantissa * UNIT, b.mantissa as int, a.exponent - b.exponent - 53)
    }
}

/// The product of two numbers.
pub open spec fn product(a: Binary64, b: Binary64) -> Binary64 {
    if a.mantissa * b.mantissa < 2 * UNIT * UNIT {
        nearest(a.mantissa * b.mantissa, UNIT as int, a.exponent + b.exponent + 52)
    } else {
        nearest(a.mantissa * b.mantissa, 2 * UNIT, a.exponent + b.exponent + 53)
    }
}

/// The smaller of two numbers.
pub open spec fn smaller(a: Binary64, b: Binary64) -> Binary64 {
    if b.exponent < a.exponent || (b.exponent == a.exponent && b.mantissa < a.mantissa) {
        b
    } else {
        a
    }
}

impl Binary64 {
    /// Whether the mantissa is that of a normal number.
    pub open spec fn normal(self) -> bool {
        UNIT <= self.mantissa < 2 * UNIT
    }

    /// The denominator of a number without a positive exponent, as a fraction of its mantissa.
    pub open spec fn denominator(self) -> int {
        pow2((-self.exponent) as nat) as int
    }

    /// The integer nearest to the number, the larger one of two that are equally near.
    pub open spec fn rounded(self) -> int {
        if self.exponent > 0 {
            self.mantissa * pow2(self.exponent as nat)
        } else {
            (2 * self.mantissa + self.denominator()) / (2 * self.denominator())
        }
    }

    /// The smallest integer that the number does not exceed.
    pub open spec fn ceiling(self) -> int {
        (self.mantissa + self.denominator() - 1) / self.denominator()
    }

    /// The number in thousandths, rounded with ties to even.
    pub open spec fn thousandths(self) -> int {
        half_even(1000 * self.mantissa, self.denominator())
    }
}

proof fn lemma_floor_log(value: int, power: nat)
    requires
        pow2(power) <= value < pow2(power + 1),
    ensures
        floor_log(value) == power,
    decreases power,
{
    lemma_pow2_unfold(power + 1);
    if power == 0 {
        vstd::arithmetic::power2::lemma2_to64();
    } else {
        lemma_pow2_unfold(power);
        lemma_pow2_pos((power - 1) as nat);
        lemma_floor_log(value / 2, (power - 1) as nat);
    }
}

/// A fraction rounds to a mantissa, or to twice the smallest one.
proof fn lemma_half_even(numerator: int, denominator: int)
    requires
        denominator > 0,
        UNIT * denominator <= numerator < 2 * UNIT * denominator,
    ensures
        UNIT <= numerator / denominator < 2 * UNIT,
        UNIT <= half_even(numerator, denominator) <= 2 * UNIT,
        nearest(numerator, denominator, 0).normal(),
{
    assert(UNIT <= numerator / denominator < 2 * UNIT) by (nonlinear_arith)
        requires
            denominator > 0,
            UNIT * denominator <= numerator < 2 * UNIT * denominator,
    ;
}

/// A small integer needs no rounding.
proof fn lemma_small_integers_are_exact(value: int, log: nat)
    requires
        log <= 52,
        pow2(log) <= value < pow2(log + 1),
    ensures
        half_even(value * UNIT, pow2(log) as int) < 2 * UNIT,
{
    let power = pow2(log) as int;
    let rest = pow2((52 - log) as nat) as int;
    vstd::arithmetic::power2::lemma_pow2_adds(log, (52 - log) as nat);
    vstd::arithmetic::power2::lemma2_to64_rest();
    lemma_pow2_pos(log);
    lemma_pow2_pos((52 - log) as nat);
    lemma_pow2_unfold(log + 1);
    assert(value * UNIT == (value * rest) * power) by (nonlinear_arith)
        requires
            UNIT == power * rest,
    ;
    assert((value * rest) * power % power == 0 && (value * rest) * power / power == value * rest)
        by (nonlinear_arith)
        requires
            power > 0,
    ;
    assert(value * rest < 2 * UNIT) by (nonlinear_arith)
        requires
            value < 2 * power,
            UNIT == power * rest,
            rest > 0,
    ;
}

/// The integer nearest to a fraction.
fn round_half_even(numerator: u128, denominator: u128) -> (result: u128)
    requires
        0 < denominator <= 0x4000_0000_0000_0000_0000_0000_0000_0000,
        numerator <= 0x4000_0000_0000_0000_0000_0000_0000_0000,
    ensures
        result == half_even(numerator as int, denominator as int),
{
    let whole: u128 = numerator / denominator;
    let rest: u128 = numerator % denominator;
    assert(whole <= numerator) by (nonlinear_arith)
        requires
            denominator >= 1,
            whole == numerator / denominator,
    ;
    if 2 * rest > denominator || (2 * rest == denominator && whole % 2 == 1) {
        whole + 1
    } else {
        whole
    }
}

fn round_nearest(numerator: u128, denominator: u128, exponent: i32) -> (result: Binary64)
    requires
        0 < denominator <= 0x4000_0000_0000_0000_0000_0000_0000_0000,
        numerator <= 0x4000_0000_0000_0000_0000_0000_0000_0000,
        UNIT * denominator <= numerator < 2 * UNIT * denominator,
        -10_000 <= exponent <= 10_000,
    ensures
        result == nearest(numerator as int, denominator as int, exponent as int),
        result.normal(),
        exponent <= result.exponent <= exponent + 1,
{
    proof {
        lemma_half_even(numerator as int, denominator as int);
    }
    let mantissa: u128 = round_half_even(numerator, denominator);
    if mantissa == 2 * UNIT as u128 {
        Binary64 { mantissa: UNIT, exponent: exponent + 1 }
    } else {
        Binary64 { mantissa: mantissa as u64, exponent }
    }
}

impl Binary64 {
    /// The number nearest to a positive integer.
    pub fn from_integer(value: u64) -> (result: Self)
        requires
            value > 0,
        ensures
            result == integer(value as int),
            result.normal(),
            -52 <= result.exponent <= 12,
            value <= u32::MAX ==> result.exponent <= -20,
            value <= i32::MAX ==> result.exponent <= -22,
            value >= 0x1_0000 ==> result.exponent >= -36,
    {
        let mut power: u128 = 1;
        let mut log: i32 = 0;
        proof {
            vstd::arithmetic::power2::lemma2_to64();
        }
        while 2 * power <= value as u128
            invariant
                0 <= log <= 63,
                power == pow2(log as nat),
                1 <= power <= value,
                power < 0x1_0000_0000_0000_0000,
                log >= 32 ==> value > u32::MAX,
                log >= 31 ==> value > i32::MAX,
            decreases value - power,
        {
            proof {
                lemma_pow2_unfold((log + 1) as nat);
                if log >= 63 {
                    vstd::arithmetic::power2::lemma2_to64();
                    vstd::arithmetic::power2::lemma2_to64_rest();
                }
                if log == 31 || log == 30 {
                    vstd::arithmetic::power2::lemma2_to64();
                }
            }
            power = 2 * power;
            log = log + 1;
        }
        proof {
            lemma_pow2_unfold((log + 1) as nat);
            lemma_floor_log(value as int, log as nat);
            if log < 16 {
                vstd::arithmetic::power2::lemma2_to64();
                if log < 15 {
                    lemma_pow2_strictly_increases(log as nat, 15);
                }
            }
            assert(UNIT * power <= value * UNIT < 2 * UNIT * power) by (nonlinear_arith)
                requires
                    power <= value < 2 * power,
            ;
            assert(value * UNIT <= 0xffff_ffff_ffff_ffff * 0x10_0000_0000_0000);
            if log <= 52 {
                lemma_small_integers_are_exact(value as int, log as nat);
            }
        }
        round_nearest(value as u128 * UNIT as u128, power, log - 52)
    }

    /// The quotient of two numbers.
    pub fn divided_by(self, other: Self) -> (result: Self)
        requires
            self.normal(),
            other.normal(),
            -1000 <= self.exponent <= 1000,
            -1000 <= other.exponent <= 1000,
        ensures
            result == quotient(self, other),
            result.normal(),
            self.exponent - other.exponent - 53 <= result.exponent <= self.exponent - other.exponent
                - 51,
    {
        let a: u128 = self.mantissa as u128;
        let b: u128 = other.mantissa as u128;
        if self.mantissa >= other.mantissa {
            assert(UNIT * b <= a * UNIT < 2 * UNIT * b) by (nonlinear_arith)
                requires
                    b <= a < 2 * UNIT <= 2 * b,
            ;
            round_nearest(a * UNIT as u128, b, self.exponent - other.exponent - 52)
        } else {
            assert(UNIT * b <= 2 * a * UNIT < 2 * UNIT * b) by (nonlinear_arith)
                requires
                    a < b <= 2 * UNIT <= 2 * a,
            ;
            round_nearest(2 * a * UNIT as u128, b, self.exponent - other.exponent - 53)
        }
    }

    /// The product of two numbers.
    pub fn times(self, other: Self) -> (result: Self)
        requires
            self.normal(),
            other.normal(),
            -1000 <= self.exponent <= 1000,
            -1000 <= other.exponent <= 1000,
        ensures
            result == product(self, other),
            result.normal(),
            self.exponent + other.exponent + 52 <= result.exponent <= self.exponent + other.exponent
                + 54,
    {
        let a: u128 = self.mantissa as u128;
        let b: u128 = other.mantissa as u128;
        assert(UNIT * UNIT <= a * b < 4 * UNIT * UNIT) by (nonlinear_arith)
            requires
                UNIT <= a < 2 * UNIT,
                UNIT <= b < 2 * UNIT,
        ;
        let full: u128 = a * b;
        if full < 2 * UNIT as u128 * UNIT as u128 {
            round_nearest(full, UNIT as u128, self.exponent + other.exponent + 52)
        } else {
            round_nearest(full, 2 * UNIT as u128, self.exponent + other.exponent + 53)
        }
    }

    /// The smaller of two numbers.
    pub fn min_with(self, other: Self) -> (result: Self)
        ensures
            result == smaller(self, other),
    {
        if other.exponent < self.exponent || (other.exponent == self.exponent && other.mantissa
            < self.mantissa) {
            other
        } else {
            self
        }
    }

    /// The denominator of the number, where it is small enough to matter.
    fn small_denominator(self) -> (result: Option<u128>)
        requires
            -1000 <= self.exponent <= 0,
        ensures
            match result {
                Some(denominator) => denominator == self.denominator() && 1 <= denominator
                    <= 0x1_0000_0000_0000_0000,
                None => self.denominator() > 0x1_0000_0000_0000_0000,
            },
    {
        proof {
            vstd::arithmetic::power2::lemma2_to64();
            vstd::arithmetic::power2::lemma2_to64_rest();
        }
        if self.exponent < -64 {
            proof {
                lemma_pow2_strictly_increases(64, (-self.exponent) as nat);
            }
            return None;
        }
        let mut power: u128 = 1;
        let mut index: i32 = 0;
        while index < -self.exponent
            invariant
                0 <= index <= -self.exponent <= 64,
                power == pow2(index as nat),
                1 <= power <= 0x1_0000_0000_0000_0000,
                pow2(64) == 0x1_0000_0000_0000_0000,
            decreases -self.exponent - index,
        {
            proof {
                lemma_pow2_unfold((index + 1) as nat);
                if index < 63 {
                    lemma_pow2_strictly_increases((index + 1) as nat, 64);
                }
            }
            power = 2 * power;
            index = index + 1;
        }
        Some(power)
    }

    /// The integer nearest to the number, the larger one of two that are equally near.
    pub fn round(self) -> (result: u64)
        requires
            self.normal(),
            -1000 <= self.exponent <= 11,
        ensures
            result == self.rounded(),
            self.exponent <= 0 ==> result <= 2 * UNIT,
            self.exponent <= 10 ==> result < i64::MAX,
    {
        if self.exponent > 0 {
            let mut result: u64 = self.mantissa;
            let mut index: i32 = 0;
            proof {
                vstd::arithmetic::power2::lemma2_to64();
                assert(pow2(0) == 1);
                assert(self.mantissa * 1 == self.mantissa);
            }
            while index < self.exponent
                invariant
                    self.normal(),
                    0 <= index <= self.exponent <= 11,
                    result == self.mantissa * pow2(index as nat),
                    pow2(index as nat) <= 2048,
                decreases self.exponent - index,
            {
                proof {
                    lemma_pow2_unfold((index + 1) as nat);
                    vstd::arithmetic::power2::lemma2_to64();
                    if index + 1 < 11 {
                        lemma_pow2_strictly_increases((index + 1) as nat, 11);
                    }
                    let power = pow2(index as nat) as int;
                    assert(2 * (self.mantissa * power) == self.mantissa * (2 * power))
                        by (nonlinear_arith);
                    assert(self.mantissa * (2 * power) < 0x20_0000_0000_0000 * 2048)
                        by (nonlinear_arith)
                        requires
                            0 <= self.mantissa < 0x20_0000_0000_0000,
                            0 < 2 * power <= 2048,
                    ;
                }
                result = 2 * result;
                index = index + 1;
            }
            proof {
                if self.exponent <= 10 {
                    vstd::arithmetic::power2::lemma2_to64();
                    if self.exponent < 10 {
                        lemma_pow2_strictly_increases(self.exponent as nat, 10);
                    }
                    assert(self.mantissa * pow2(index as nat) < i64::MAX) by (nonlinear_arith)
                        requires
                            0 <= self.mantissa < 0x20_0000_0000_0000,
                            0 <= pow2(index as nat) <= 1024,
                    ;
                }
            }
            return result;
        }
        match self.small_denominator() {
            Some(denominator) => {
                let sum: u128 = 2 * self.mantissa as u128 + denominator;
                let double: u128 = 2 * denominator;
                assert(sum < (2 * UNIT + 1) * double) by (nonlinear_arith)
                    requires
                        denominator >= 1,
                        double == 2 * denominator,
                        sum < 4 * UNIT + denominator,
                ;
                assert(0 <= sum / double <= 2 * UNIT) by (nonlinear_arith)
                    requires
                        double >= 1,
                        0 <= sum < (2 * UNIT + 1) * double,
                ;
                (sum / double) as u64
            },
            None => {
                assert((2 * self.mantissa + self.denominator()) / (2 * self.denominator()) == 0)
                    by (nonlinear_arith)
                    requires
                        0 <= 2 * self.mantissa < self.denominator(),
                ;
                0
            },
        }
    }

    /// The smallest integer that the number does not exceed.
    pub fn ceil(self) -> (result: u64)
        requires
            self.normal(),
            -1000 <= self.exponent <= 0,
        ensures
            result == self.ceiling(),
    {
        match self.small_denominator() {
            Some(denominator) => {
                let sum: u128 = self.mantissa as u128 + (denominator - 1);
                assert(0 <= sum / denominator <= 2 * UNIT) by (nonlinear_arith)
                    requires
                        denominator >= 1,
                        sum < 2 * UNIT + denominator,
                ;
                (sum / denominator) as u64
            },
            None => {
                assert((self.mantissa + self.denominator() - 1) / self.denominator() == 1)
                    by (nonlinear_arith)
                    requires
                        1 <= self.mantissa < self.denominator(),
                ;
                1
            },
        }
    }

    /// The number in thousandths, rounded with ties to even.
    pub fn to_thousandths(self) -> (result: u64)
        requires
            self.normal(),
            -1000 <= self.exponent <= 0,
        ensures
            result == self.thousandths(),
    {
        match self.small_denominator() {
            Some(denominator) => {
                let scaled: u128 = 1000 * self.mantissa as u128;
                assert(scaled / denominator <= scaled) by (nonlinear_arith)
                    requires
                        denominator >= 1,
                ;
                round_half_even(scaled, denominator) as u64
            },
            None => {
                let ghost denominator = self.denominator();
                let ghost scaled = 1000 * self.mantissa;
                assert(scaled / denominator == 0 && scaled % denominator == scaled)
                    by (nonlinear_arith)
                    requires
                        0 <= scaled < denominator,
                ;
                0
            },
        }
    }
}

/// How far numbers are scaled to become integers.
pub open spec fn scale() -> int {
    pow2(300) as int
}

impl Binary64 {
    /// Whether scaling the number makes it an integer.
    pub open spec fn scalable(self) -> bool {
        self.normal() && -300 <= self.exponent <= 300
    }

    /// The number times two to a large power: an integer.
    pub open spec fn scaled(self) -> int {
        self.mantissa * pow2((300 + self.exponent) as nat)
    }
}

proof fn lemma_power_sum(a: int, b: int)
    requires
        a >= 0,
        b >= 0,
    ensures
        pow2((a + b) as nat) == pow2(a as nat) * pow2(b as nat),
{
    vstd::arithmetic::power2::lemma_pow2_adds(a as nat, b as nat);
}

proof fn lemma_unit()
    ensures
        UNIT == pow2(52),
{
    vstd::arithmetic::power2::lemma2_to64_rest();
}

/// Rounding to a mantissa carries over without changing the number.
proof fn lemma_nearest_scaled(numerator: int, denominator: int, exponent: int)
    requires
        denominator > 0,
        UNIT * denominator <= numerator < 2 * UNIT * denominator,
        -300 <= exponent < 300,
    ensures
        nearest(numerator, denominator, exponent).scalable(),
        nearest(numerator, denominator, exponent).scaled() == half_even(numerator, denominator)
            * pow2((300 + exponent) as nat),
        2 * half_even(numerator, denominator) * denominator <= 2 * numerator + denominator,
        2 * half_even(numerator, denominator) * denominator >= 2 * numerator - denominator,
{
    lemma_half_even(numerator, denominator);
    let whole = numerator / denominator;
    let rest = numerator % denominator;
    let rounded = half_even(numerator, denominator);
    assert(numerator == whole * denominator + rest && 0 <= rest < denominator) by (nonlinear_arith)
        requires
            denominator > 0,
            whole == numerator / denominator,
            rest == numerator % denominator,
    ;
    assert(2 * rounded * denominator <= 2 * numerator + denominator) by (nonlinear_arith)
        requires
            numerator == whole * denominator + rest,
            0 <= rest < denominator,
            rounded == whole || (rounded == whole + 1 && 2 * rest >= denominator),
    ;
    assert(2 * rounded * denominator >= 2 * numerator - denominator) by (nonlinear_arith)
        requires
            numerator == whole * denominator + rest,
            0 <= rest < denominator,
            (rounded == whole && 2 * rest <= denominator) || rounded == whole + 1,
    ;
    lemma_pow2_unfold((300 + exponent + 1) as nat);
    let power = pow2((300 + exponent) as nat) as int;
    assert(UNIT * (2 * power) == (2 * UNIT) * power) by (nonlinear_arith);
}

/// Integers that fit a mantissa are exact.
pub proof fn lemma_integers_are_exact(value: int)
    requires
        1 <= value < 0x20_0000_0000_0000,
    ensures
        integer(value).scalable(),
        -52 <= integer(value).exponent <= 0,
        integer(value).scaled() == value * scale(),
{
    let log = lemma_log_exists(value);
    lemma_floor_log(value, log);
    let power = pow2(log) as int;
    lemma_pow2_pos(log);
    lemma_pow2_unfold(log + 1);
    lemma_unit();
    lemma_power_sum(log as int, 52 - log);
    let rest = pow2((52 - log) as nat) as int;
    lemma_pow2_pos((52 - log) as nat);
    assert(value * UNIT == (value * rest) * power) by (nonlinear_arith)
        requires
            UNIT == power * rest,
    ;
    assert((value * rest) * power % power == 0 && (value * rest) * power / power == value * rest)
        by (nonlinear_arith)
        requires
            power > 0,
    ;
    assert(UNIT * power <= value * UNIT < 2 * UNIT * power) by (nonlinear_arith)
        requires
            power <= value < 2 * power,
    ;
    lemma_nearest_scaled(value * UNIT, power, log - 52);
    lemma_small_integers_are_exact(value, log);
    lemma_power_sum(52 - log, 248 + log as int);
    let high = pow2((248 + log) as nat) as int;
    assert((value * rest) * high == value * (rest * high)) by (nonlinear_arith);
}

proof fn lemma_log_exists(value: int) -> (log: nat)
    requires
        1 <= value < 0x20_0000_0000_0000,
    ensures
        log <= 52,
        pow2(log) <= value < pow2(log + 1),
{
    vstd::arithmetic::power2::lemma2_to64();
    lemma_log_from(value, 0)
}

proof fn lemma_log_from(value: int, start: nat) -> (log: nat)
    requires
        start <= 52,
        pow2(start) <= value < 0x20_0000_0000_0000,
    ensures
        log <= 52,
        pow2(log) <= value < pow2(log + 1),
    decreases 53 - start,
{
    vstd::arithmetic::power2::lemma2_to64_rest();
    if value < pow2(start + 1) {
        start
    } else {
        lemma_log_from(value, start + 1)
    }
}

/// A rounding error of half a unit stays one when both sides are scaled.
proof fn lemma_scaled_error(h: int, d: int, n: int, common: int)
    requires
        2 * h * d <= 2 * n + d,
        2 * h * d >= 2 * n - d,
        UNIT * d <= n,
        common > 0,
    ensures
        h * d * common * (2 * UNIT) <= n * common * (2 * UNIT + 1),
        h * d * common * (2 * UNIT) >= n * common * (2 * UNIT - 1),
{
    assert(h * d * (2 * UNIT) <= n * (2 * UNIT + 1)) by (nonlinear_arith)
        requires
            2 * h * d <= 2 * n + d,
            UNIT * d <= n,
            UNIT > 0,
    ;
    assert(h * d * (2 * UNIT) >= n * (2 * UNIT - 1)) by (nonlinear_arith)
        requires
            2 * h * d >= 2 * n - d,
            UNIT * d <= n,
            UNIT > 0,
    ;
    assert(h * d * (2 * UNIT) * common <= n * (2 * UNIT + 1) * common) by (nonlinear_arith)
        requires
            h * d * (2 * UNIT) <= n * (2 * UNIT + 1),
            common > 0,
    ;
    assert(h * d * (2 * UNIT) * common >= n * (2 * UNIT - 1) * common) by (nonlinear_arith)
        requires
            h * d * (2 * UNIT) >= n * (2 * UNIT - 1),
            common > 0,
    ;
    assert(h * d * common * (2 * UNIT) == h * d * (2 * UNIT) * common) by (nonlinear_arith);
    assert(n * common * (2 * UNIT + 1) == n * (2 * UNIT + 1) * common) by (nonlinear_arith);
    assert(n * common * (2 * UNIT - 1) == n * (2 * UNIT - 1) * common) by (nonlinear_arith);
}

/// A quotient is at most half a unit of its last place too large, or too small.
pub proof fn lemma_quotients_are_near(a: Binary64, b: Binary64)
    requires
        a.normal(),
        b.normal(),
        -60 <= a.exponent <= 60,
        -60 <= b.exponent <= 60,
    ensures
        quotient(a, b).scalable(),
        quotient(a, b).scaled() * b.scaled() * (2 * UNIT) <= a.scaled() * scale() * (2 * UNIT + 1),
        quotient(a, b).scaled() * b.scaled() * (2 * UNIT) >= a.scaled() * scale() * (2 * UNIT - 1),
{
    let d = b.mantissa as int;
    let (n, e) = if a.mantissa >= b.mantissa {
        (a.mantissa * UNIT, a.exponent - b.exponent - 52)
    } else {
        (2 * a.mantissa * UNIT, a.exponent - b.exponent - 53)
    };
    assert(UNIT * d <= n < 2 * UNIT * d) by (nonlinear_arith)
        requires
            UNIT <= a.mantissa < 2 * UNIT,
            UNIT <= d < 2 * UNIT,
            d == b.mantissa,
            n == if a.mantissa >= b.mantissa {
                a.mantissa * UNIT
            } else {
                2 * a.mantissa * UNIT
            },
    ;
    lemma_nearest_scaled(n, d, e);
    let h = half_even(n, d);
    let common = pow2((600 + e + b.exponent) as nat) as int;
    lemma_pow2_pos((600 + e + b.exponent) as nat);
    lemma_power_sum(300 + e, 300 + b.exponent);
    let one = pow2((300 + e) as nat) as int;
    let two = pow2((300 + b.exponent) as nat) as int;
    assert((h * one) * (d * two) == (h * d) * common) by (nonlinear_arith)
        requires
            common == one * two,
    ;
    lemma_unit();
    lemma_power_sum(300 + a.exponent as int, 300);
    let three = pow2((300 + a.exponent) as nat) as int;
    let four = pow2((600 + a.exponent) as nat) as int;
    assert((a.mantissa * three) * scale() == a.mantissa * four) by (nonlinear_arith)
        requires
            four == three * scale(),
    ;
    lemma_pow2_unfold(53);
    if a.mantissa >= b.mantissa {
        lemma_power_sum(600 + e + b.exponent, 52);
        assert(a.mantissa * four == n * common) by (nonlinear_arith)
            requires
                four == common * UNIT,
                n == a.mantissa * UNIT,
        ;
    } else {
        lemma_power_sum(600 + e + b.exponent, 53);
        assert(a.mantissa * four == n * common) by (nonlinear_arith)
            requires
                four == common * (2 * UNIT),
                n == 2 * a.mantissa * UNIT,
        ;
    }
    lemma_scaled_error(h, d, n, common);
}

/// A product is at most half a unit of its last place too large, or too small.
pub proof fn lemma_products_are_near(a: Binary64, b: Binary64)
    requires
        a.normal(),
        b.normal(),
        -60 <= a.exponent <= 60,
        -200 <= b.exponent <= 100,
    ensures
        product(a, b).scalable(),
        product(a, b).scaled() * scale() * (2 * UNIT) <= a.scaled() * b.scaled() * (2 * UNIT + 1),
        product(a, b).scaled() * scale() * (2 * UNIT) >= a.scaled() * b.scaled() * (2 * UNIT - 1),
{
    let n = a.mantissa * b.mantissa;
    let (d, e) = if n < 2 * UNIT * UNIT {
        (UNIT as int, a.exponent + b.exponent + 52)
    } else {
        (2 * UNIT, a.exponent + b.exponent + 53)
    };
    assert(UNIT * d <= n < 2 * UNIT * d) by (nonlinear_arith)
        requires
            UNIT <= a.mantissa < 2 * UNIT,
            UNIT <= b.mantissa < 2 * UNIT,
            n == a.mantissa * b.mantissa,
            d == if n < 2 * UNIT * UNIT {
                UNIT as int
            } else {
                2 * UNIT
            },
    ;
    lemma_nearest_scaled(n, d, e);
    let h = half_even(n, d);
    let common = pow2((600 + a.exponent + b.exponent) as nat) as int;
    lemma_pow2_pos((600 + a.exponent + b.exponent) as nat);
    lemma_power_sum(300 + a.exponent as int, 300 + b.exponent as int);
    let one = pow2((300 + a.exponent) as nat) as int;
    let two = pow2((300 + b.exponent) as nat) as int;
    assert((a.mantissa * one) * (b.mantissa * two) == n * common) by (nonlinear_arith)
        requires
            common == one * two,
            n == a.mantissa * b.mantissa,
    ;
    lemma_unit();
    lemma_pow2_unfold(53);
    lemma_power_sum(300 + e, 300);
    let three = pow2((300 + e) as nat) as int;
    if n < 2 * UNIT * UNIT {
        lemma_power_sum(600 + a.exponent + b.exponent, 52);
    } else {
        lemma_power_sum(600 + a.exponent + b.exponent, 53);
    }
    assert((h * three) * scale() == h * d * common) by (nonlinear_arith)
        requires
            three * scale() == common * d,
    ;
    lemma_scaled_error(h, d, n, common);
}

/// Whether a number comes before another in their order.
pub open spec fn below(a: Binary64, b: Binary64) -> bool {
    a.exponent < b.exponent || (a.exponent == b.exponent && a.mantissa < b.mantissa)
}

/// The order of exponents and mantissas is that of the numbers.
pub proof fn lemma_order_of_numbers(a: Binary64, b: Binary64)
    requires
        a.scalable(),
        b.scalable(),
    ensures
        below(a, b) <==> a.scaled() < b.scaled(),
{
    if below(a, b) {
        lemma_below(a, b);
    } else if below(b, a) {
        lemma_below(b, a);
    }
}

proof fn lemma_below(a: Binary64, b: Binary64)
    requires
        a.scalable(),
        b.scalable(),
        below(a, b),
    ensures
        a.scaled() < b.scaled(),
{
    let low = pow2((300 + a.exponent) as nat) as int;
    lemma_pow2_pos((300 + a.exponent) as nat);
    if a.exponent < b.exponent {
        lemma_power_sum(300 + a.exponent as int, b.exponent - a.exponent);
        lemma_pow2_pos((b.exponent - a.exponent - 1) as nat);
        lemma_pow2_unfold((b.exponent - a.exponent) as nat);
        let step = pow2((b.exponent - a.exponent) as nat) as int;
        assert(a.mantissa * low < b.mantissa * (low * step)) by (nonlinear_arith)
            requires
                a.mantissa < 2 * UNIT,
                UNIT <= b.mantissa,
                step >= 2,
                low > 0,
        ;
    } else {
        assert(a.mantissa * low < b.mantissa * low) by (nonlinear_arith)
            requires
                a.mantissa < b.mantissa,
                low > 0,
        ;
    }
}

/// A number that is less than half above an integer is rounded to at most that integer.
pub proof fn lemma_rounds_to_at_most(number: Binary64, limit: int)
    requires
        number.scalable(),
        limit >= 0,
        2 * number.scaled() < (2 * limit + 1) * scale(),
    ensures
        number.rounded() <= limit,
{
    let m = number.mantissa as int;
    if number.exponent > 0 {
        lemma_power_sum(number.exponent as int, 300);
        let power = pow2(number.exponent as nat) as int;
        lemma_pow2_pos(300);
        assert(m * power <= limit) by (nonlinear_arith)
            requires
                2 * (m * (power * scale())) < (2 * limit + 1) * scale(),
                scale() > 0,
        {
            assert(m * (power * scale()) == (m * power) * scale()) by (nonlinear_arith);
            if m * power > limit {
                assert((m * power) * scale() >= (limit + 1) * scale()) by (nonlinear_arith)
                    requires
                        m * power >= limit + 1,
                        scale() > 0,
                ;
            }
        }
    } else {
        let high = pow2((300 + number.exponent) as nat) as int;
        let d = number.denominator();
        lemma_pow2_pos((300 + number.exponent) as nat);
        lemma_pow2_pos((-number.exponent) as nat);
        lemma_power_sum(300 + number.exponent as int, -number.exponent as int);
        assert(2 * m < (2 * limit + 1) * d) by (nonlinear_arith)
            requires
                2 * (m * high) < (2 * limit + 1) * (high * d),
                high > 0,
        {
            assert((2 * limit + 1) * (high * d) == ((2 * limit + 1) * d) * high)
                by (nonlinear_arith);
            assert(2 * (m * high) == (2 * m) * high) by (nonlinear_arith);
            if 2 * m >= (2 * limit + 1) * d {
                assert((2 * m) * high >= ((2 * limit + 1) * d) * high) by (nonlinear_arith)
                    requires
                        2 * m >= (2 * limit + 1) * d,
                        high > 0,
                ;
            }
        }
        assert((2 * m + d) / (2 * d) <= limit) by (nonlinear_arith)
            requires
                2 * m < (2 * limit + 1) * d,
                d > 0,
                m >= 0,
        {
            assert(2 * m + d < (limit + 1) * (2 * d)) by (nonlinear_arith)
                requires
                    2 * m < (2 * limit + 1) * d,
            ;
            assert((2 * m + d) / (2 * d) < limit + 1) by (nonlinear_arith)
                requires
                    2 * m + d < (limit + 1) * (2 * d),
                    d > 0,
            ;
        }
    }
}

/// A number that is at most half below an integer is rounded to at least that integer.
pub proof fn lemma_rounds_to_at_least(number: Binary64, limit: int)
    requires
        number.scalable(),
        2 * number.scaled() >= (2 * limit - 1) * scale(),
    ensures
        number.rounded() >= limit,
{
    let m = number.mantissa as int;
    if number.exponent > 0 {
        lemma_power_sum(number.exponent as int, 300);
        let power = pow2(number.exponent as nat) as int;
        lemma_pow2_pos(300);
        assert(m * (power * scale()) == (m * power) * scale()) by (nonlinear_arith);
        if m * power < limit {
            assert(2 * ((m * power) * scale()) < (2 * limit - 1) * scale()) by (nonlinear_arith)
                requires
                    m * power <= limit - 1,
                    scale() > 0,
            ;
        }
    } else {
        let high = pow2((300 + number.exponent) as nat) as int;
        let d = number.denominator();
        lemma_pow2_pos((300 + number.exponent) as nat);
        lemma_pow2_pos((-number.exponent) as nat);
        lemma_power_sum(300 + number.exponent as int, -number.exponent as int);
        assert((2 * limit - 1) * (high * d) == ((2 * limit - 1) * d) * high) by (nonlinear_arith);
        assert(2 * (m * high) == (2 * m) * high) by (nonlinear_arith);
        if 2 * m < (2 * limit - 1) * d {
            assert((2 * m) * high < ((2 * limit - 1) * d) * high) by (nonlinear_arith)
                requires
                    2 * m < (2 * limit - 1) * d,
                    high > 0,
            ;
        }
        assert((2 * m + d) / (2 * d) >= limit) by (nonlinear_arith)
            requires
                2 * m >= (2 * limit - 1) * d,
                d > 0,
        {
            assert(2 * m + d >= limit * (2 * d)) by (nonlinear_arith)
                requires
                    2 * m >= (2 * limit - 1) * d,
            ;
            assert((2 * m + d) / (2 * d) >= limit) by (nonlinear_arith)
                requires
                    2 * m + d >= limit * (2 * d),
                    d > 0,
            ;
        }
    }
}

/// The smaller of two numbers is one of them, and neither lies below it.
pub proof fn lemma_the_smaller_is_not_above(a: Binary64, b: Binary64)
    requires
        a.scalable(),
        b.scalable(),
    ensures
        smaller(a, b) == a || smaller(a, b) == b,
        smaller(a, b).scaled() <= a.scaled(),
        smaller(a, b).scaled() <= b.scaled(),
{
    lemma_order_of_numbers(a, b);
    lemma_order_of_numbers(b, a);
}

} // verus!
