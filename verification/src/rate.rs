//! Frame rates as exact numbers.
//!
//! A rate is a positive dyadic rational, `mantissa * 2^exponent` events per
//! second: every positive finite double is one, so a configured rate is
//! taken over without rounding. Deadlines are computed from it in integer
//! arithmetic, each one from its tick number alone.

use vstd::prelude::*;
use vstd::arithmetic::div_mod::lemma_div_denominator;
use vstd::arithmetic::power2::{lemma2_to64, lemma_pow2_adds, lemma_pow2_pos, lemma_pow2_strictly_increases, pow2};
use vstd::bits::{lemma_u64_pow2_no_overflow, lemma_u64_shl_is_mul};
use crate::error::ConfigurationError;

verus! {

pub const NANOS_PER_SECOND: u64 = 1_000_000_000;

/// Events per second as an exact fraction.
pub struct Frequency {
    pub numer: nat,
    pub denom: nat,
}

/// The least `q` with `a <= q * b`.
pub open spec fn ceil_div(a: int, b: int) -> int {
    if a <= 0 {
        0
    } else {
        (a - 1) / b + 1
    }
}

impl Frequency {
    pub open spec fn wf(self) -> bool {
        self.numer > 0 && self.denom > 0
    }

    /// Whether tick number `tick` (counting from zero) is due once
    /// `elapsed` nanoseconds have run: `tick <= rate * elapsed`, with
    /// `elapsed` taken in seconds.
    pub open spec fn due(self, tick: nat, elapsed: nat) -> bool {
        tick * NANOS_PER_SECOND * self.denom <= self.numer * elapsed
    }

    /// The first nanosecond at which tick number `tick` is due: `tick / rate`
    /// seconds, rounded up to a whole nanosecond.
    pub open spec fn offset(self, tick: nat) -> int {
        ceil_div(tick * NANOS_PER_SECOND * self.denom, self.numer as int)
    }
}

/// The number `mantissa * 2^exponent` as a fraction.
pub open spec fn dyadic(mantissa: nat, exponent: int) -> Frequency {
    if exponent >= 0 {
        Frequency { numer: mantissa * pow2(exponent as nat), denom: 1 }
    } else {
        Frequency { numer: mantissa, denom: pow2((-exponent) as nat) }
    }
}

/// The sign bit of a double given by its bit pattern.
pub open spec fn f64_sign(bits: u64) -> nat {
    (bits / 0x8000_0000_0000_0000) as nat
}

/// The eleven exponent bits of a double.
pub open spec fn f64_biased_exponent(bits: u64) -> nat {
    ((bits / 0x10_0000_0000_0000) % 2048) as nat
}

/// The fifty-two fraction bits of a double.
pub open spec fn f64_fraction(bits: u64) -> nat {
    (bits % 0x10_0000_0000_0000) as nat
}

/// Whether the bit pattern is a double greater than zero and not infinite
/// or NaN.
pub open spec fn f64_is_positive_finite(bits: u64) -> bool {
    &&& f64_sign(bits) == 0
    &&& f64_biased_exponent(bits) != 2047
    &&& !(f64_biased_exponent(bits) == 0 && f64_fraction(bits) == 0)
}

/// The exact value of a positive finite double: subnormals have no implicit
/// leading bit and the smallest exponent.
pub open spec fn f64_frequency(bits: u64) -> Frequency {
    if f64_biased_exponent(bits) == 0 {
        dyadic(f64_fraction(bits), -1074)
    } else {
        dyadic(0x10_0000_0000_0000 + f64_fraction(bits), f64_biased_exponent(bits) - 1075)
    }
}

/// An offset is a time after the start.
pub proof fn lemma_offset_nonneg(rate: Frequency, tick: nat)
    requires
        rate.wf(),
    ensures
        rate.offset(tick) >= 0,
{
    let x = tick * NANOS_PER_SECOND * rate.denom;
    if x > 0 {
        lemma_div_lt(x - 1, rate.numer as int, 0);
    }
}

/// A tick is due from its offset on, and not before.
pub proof fn lemma_due_from_offset(rate: Frequency, tick: nat, elapsed: nat)
    requires
        rate.wf(),
    ensures
        rate.due(tick, elapsed) <==> rate.offset(tick) <= elapsed,
{
    let x = tick * NANOS_PER_SECOND * rate.denom;
    let n = rate.numer;
    if x > 0 {
        lemma_div_lt(x - 1, n as int, elapsed as int);
    } else {
        assert(n * elapsed >= 0) by (nonlinear_arith)
            requires
                n >= 0,
                elapsed >= 0,
        ;
    }
}

/// Once due, a tick stays due.
pub proof fn lemma_due_is_monotone(rate: Frequency, tick: nat, earlier: nat, later: nat)
    requires
        rate.wf(),
        earlier <= later,
        rate.due(tick, earlier),
    ensures
        rate.due(tick, later),
{
    lemma_due_from_offset(rate, tick, earlier);
    lemma_due_from_offset(rate, tick, later);
}

/// Offsets never run backwards: a later tick is never due before an earlier one.
pub proof fn lemma_offset_is_monotone(rate: Frequency, tick: nat, later_tick: nat)
    requires
        rate.wf(),
        tick <= later_tick,
    ensures
        rate.offset(tick) <= rate.offset(later_tick),
{
    lemma_offset_nonneg(rate, later_tick);
    let t = rate.offset(later_tick) as nat;
    lemma_due_from_offset(rate, later_tick, t);
    assert(tick * NANOS_PER_SECOND * rate.denom <= later_tick * NANOS_PER_SECOND * rate.denom)
        by (nonlinear_arith)
        requires
            tick <= later_tick,
            rate.denom >= 0,
    ;
    lemma_due_from_offset(rate, tick, t);
}

/// Deadlines do not drift: the offset of every tick lies less than one
/// nanosecond after the exact instant `tick / rate`, however large `tick` is.
pub proof fn lemma_offset_is_exact(rate: Frequency, tick: nat)
    requires
        rate.wf(),
    ensures
        rate.numer * rate.offset(tick) >= tick * NANOS_PER_SECOND * rate.denom,
        rate.numer * rate.offset(tick) < tick * NANOS_PER_SECOND * rate.denom + rate.numer,
{
    lemma_offset_nonneg(rate, tick);
    let o = rate.offset(tick) as nat;
    lemma_due_from_offset(rate, tick, o);
    if o > 0 {
        lemma_due_from_offset(rate, tick, (o - 1) as nat);
        assert(rate.numer * o == rate.numer * (o - 1) + rate.numer) by (nonlinear_arith);
    } else {
        assert(rate.numer * o == 0) by (nonlinear_arith)
            requires
                o == 0,
        ;
    }
}

/// Nor do intervals: the time between any two deadlines differs from the
/// exact time between their ticks by less than one nanosecond, however far
/// apart they are and however late in the run. Rounding is never carried
/// from one deadline into the next.
pub proof fn lemma_intervals_do_not_drift(rate: Frequency, tick: nat, ahead: nat)
    requires
        rate.wf(),
    ensures
        rate.numer * (rate.offset(tick + ahead) - rate.offset(tick)) > ahead * NANOS_PER_SECOND * rate.denom
            - rate.numer,
        rate.numer * (rate.offset(tick + ahead) - rate.offset(tick)) < ahead * NANOS_PER_SECOND * rate.denom
            + rate.numer,
{
    lemma_offset_is_exact(rate, tick);
    lemma_offset_is_exact(rate, tick + ahead);
    let n = rate.numer as int;
    let a = rate.offset(tick);
    let b = rate.offset(tick + ahead);
    assert(n * (b - a) == n * b - n * a) by (nonlinear_arith);
    assert((tick + ahead) * NANOS_PER_SECOND * rate.denom == tick * NANOS_PER_SECOND * rate.denom + ahead
        * NANOS_PER_SECOND * rate.denom) by (nonlinear_arith);
}

proof fn lemma_div_lt(y: int, n: int, t: int)
    by (nonlinear_arith)
    requires
        0 <= y,
        0 < n,
    ensures
        (y / n < t) <==> (y < n * t),
{
}

proof fn lemma_pow2_128()
    ensures
        pow2(64) == 0x1_0000_0000_0000_0000,
        pow2(128) == 0x1_0000_0000_0000_0000_0000_0000_0000_0000,
{
    lemma2_to64();
    lemma_pow2_adds(64, 64);
}

/// A quotient of something at least `2^128` by a `u64` does not fit a `u64`.
proof fn lemma_quotient_too_large(b: int, m: int)
    requires
        b >= 0x1_0000_0000_0000_0000_0000_0000_0000_0000,
        1 <= m <= u64::MAX,
    ensures
        (b - 1) / m + 1 > u64::MAX,
{
    lemma_div_lt(b - 1, m, 0x1_0000_0000_0000_0000);
    assert(m * 0x1_0000_0000_0000_0000 <= 0xffff_ffff_ffff_ffff * 0x1_0000_0000_0000_0000)
        by (nonlinear_arith)
        requires
            m <= 0xffff_ffff_ffff_ffff,
    ;
}

/// `2^e` for an exponent that fits.
fn pow2_u128(e: u32) -> (p: u128)
    requires
        e < 128,
    ensures
        p == pow2(e as nat),
        p >= 1,
{
    proof {
        lemma_pow2_128();
        lemma_pow2_pos(e as nat);
    }
    if e < 64 {
        proof {
            lemma_u64_pow2_no_overflow(e as nat);
            lemma_u64_shl_is_mul(1u64, e as u64);
        }
        let low: u64 = 1u64 << (e as u64);
        low as u128
    } else {
        let d: u32 = e - 64;
        proof {
            lemma_u64_pow2_no_overflow(d as nat);
            lemma_u64_shl_is_mul(1u64, d as u64);
            lemma_pow2_adds(d as nat, 64);
        }
        let high: u64 = 1u64 << (d as u64);
        (high as u128) * 0x1_0000_0000_0000_0000u128
    }
}

/// A frame rate: a positive number of events per second, held exactly.
///
/// Rates are not compared with `==`: one number has many spellings as
/// mantissa and exponent. Compare what they schedule.
#[derive(Clone, Copy, Debug)]
pub struct FrameRate {
    mantissa: u64,
    exponent: i32,
}

impl View for FrameRate {
    type V = Frequency;

    closed spec fn view(&self) -> Frequency {
        dyadic(self.mantissa as nat, self.exponent as int)
    }
}

impl FrameRate {
    /// Every rate is a positive number.
    #[verifier::type_invariant]
    pub open spec fn valid(&self) -> bool {
        self@.wf()
    }

    /// The rate that a double stands for, given by its bit pattern. A
    /// pattern that is negative, zero, infinite or NaN is no rate.
    pub fn from_f64_bits(bits: u64) -> (r: Result<FrameRate, ConfigurationError>)
        ensures
            r is Ok <==> f64_is_positive_finite(bits),
            r matches Ok(rate) ==> rate@ == f64_frequency(bits) && rate@.wf(),
            r matches Err(e) ==> e == ConfigurationError::InvalidFps,
    {
        let sign: u64 = bits / 0x8000_0000_0000_0000;
        let biased: u64 = (bits / 0x10_0000_0000_0000) % 2048;
        let fraction: u64 = bits % 0x10_0000_0000_0000;
        if sign != 0 || biased == 2047 || (biased == 0 && fraction == 0) {
            Err(ConfigurationError::InvalidFps)
        } else if biased == 0 {
            proof {
                lemma_dyadic_wf(fraction as nat, -1074);
            }
            Ok(FrameRate { mantissa: fraction, exponent: -1074 })
        } else {
            let exponent: i32 = (biased as i32) - 1075;
            proof {
                lemma_dyadic_wf((0x10_0000_0000_0000 + fraction) as nat, exponent as int);
            }
            Ok(FrameRate { mantissa: 0x10_0000_0000_0000 + fraction, exponent })
        }
    }

    /// A whole number of events per second. Zero is no rate.
    pub fn whole(per_second: u64) -> (r: Result<FrameRate, ConfigurationError>)
        ensures
            r is Ok <==> per_second > 0,
            r matches Ok(rate) ==> rate@ == (Frequency { numer: per_second as nat, denom: 1 })
                && rate@.wf(),
            r matches Err(e) ==> e == ConfigurationError::InvalidFps,
    {
        if per_second == 0 {
            Err(ConfigurationError::InvalidFps)
        } else {
            proof {
                lemma2_to64();
                assert(per_second * pow2(0) == per_second);
            }
            Ok(FrameRate { mantissa: per_second, exponent: 0 })
        }
    }

    /// The first nanosecond at which tick number `tick` is due, counted from
    /// the start of the cadence; `None` when that lies beyond what a `u64`
    /// of nanoseconds can say.
    pub fn offset(&self, tick: u64) -> (r: Option<u64>)
        ensures
            r == if self@.offset(tick as nat) <= u64::MAX {
                Some(self@.offset(tick as nat) as u64)
            } else {
                None
            },
    {
        proof {
            use_type_invariant(self);
            lemma_pow2_128();
            if self.mantissa == 0 {
                assert(0 * pow2(self.exponent as nat) == 0) by (nonlinear_arith);
            }
        }
        if tick == 0 {
            assert(0 * NANOS_PER_SECOND * self@.denom == 0) by (nonlinear_arith);
            return Some(0);
        }
        assert(tick * NANOS_PER_SECOND <= u64::MAX * 1_000_000_000) by (nonlinear_arith)
            requires
                tick <= u64::MAX,
                NANOS_PER_SECOND == 1_000_000_000,
        ;
        let a: u128 = (tick as u128) * (NANOS_PER_SECOND as u128);
        let m: u128 = self.mantissa as u128;
        if self.exponent >= 0 {
            let q: u32 = self.exponent as u32;
            let ghost p = pow2(q as nat);
            proof {
                lemma_pow2_pos(q as nat);
                assert(tick * NANOS_PER_SECOND * 1 == a);
                lemma_div_denominator((a - 1) as int, p as int, m as int);
                assert(m * p == p * m) by (nonlinear_arith);
            }
            let shifted: u128 = if q >= 128 {
                proof {
                    if q > 128 {
                        lemma_pow2_strictly_increases(128, q as nat);
                    }
                    assert((a - 1) / (p as int) == 0) by (nonlinear_arith)
                        requires
                            0 <= a - 1 < p,
                    ;
                }
                0
            } else {
                (a - 1) / pow2_u128(q)
            };
            let off: u128 = shifted / m + 1;
            if off > u64::MAX as u128 {
                None
            } else {
                Some(off as u64)
            }
        } else {
            let ghost p = pow2((-self.exponent) as nat);
            proof {
                lemma_pow2_pos((-self.exponent) as nat);
                assert(tick * NANOS_PER_SECOND * p == a * p) by (nonlinear_arith)
                    requires
                        tick * NANOS_PER_SECOND == a,
                ;
            }
            if self.exponent <= -128 {
                proof {
                    if self.exponent < -128 {
                        lemma_pow2_strictly_increases(128, (-self.exponent) as nat);
                    }
                    assert(a * p >= p) by (nonlinear_arith)
                        requires
                            a >= 1,
                            p >= 0,
                    ;
                    lemma_quotient_too_large((a * p) as int, m as int);
                }
                return None;
            }
            let p: u128 = pow2_u128((-self.exponent) as u32);
            if a > u128::MAX / p {
                proof {
                    assert(a * p > u128::MAX) by (nonlinear_arith)
                        requires
                            a > u128::MAX / p,
                            p >= 1,
                    ;
                    lemma_quotient_too_large((a * p) as int, m as int);
                }
                return None;
            }
            assert(a * p <= u128::MAX) by (nonlinear_arith)
                requires
                    a <= u128::MAX / p,
                    p >= 1,
            ;
            assert(a * p >= 1) by (nonlinear_arith)
                requires
                    a >= 1,
                    p >= 1,
            ;
            let b: u128 = a * p;
            let off: u128 = (b - 1) / m + 1;
            if off > u64::MAX as u128 {
                None
            } else {
                Some(off as u64)
            }
        }
    }

    /// Whether tick number `tick` is due after `elapsed` nanoseconds.
    pub fn is_due(&self, tick: u64, elapsed: u64) -> (b: bool)
        ensures
            b == self@.due(tick as nat, elapsed as nat),
    {
        let offset = self.offset(tick);
        proof {
            use_type_invariant(self);
            lemma_due_from_offset(self@, tick as nat, elapsed as nat);
        }
        match offset {
            Some(o) => o <= elapsed,
            None => false,
        }
    }
}

/// A positive mantissa gives a well-formed fraction whatever the exponent.
pub proof fn lemma_dyadic_wf(mantissa: nat, exponent: int)
    requires
        mantissa > 0,
    ensures
        dyadic(mantissa, exponent).wf(),
{
    if exponent >= 0 {
        lemma_pow2_pos(exponent as nat);
        assert(mantissa * pow2(exponent as nat) > 0) by (nonlinear_arith)
            requires
                mantissa > 0,
                pow2(exponent as nat) > 0,
        ;
    } else {
        lemma_pow2_pos((-exponent) as nat);
    }
}

} // verus!
