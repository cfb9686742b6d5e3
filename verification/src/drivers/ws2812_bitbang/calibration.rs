//! Tick calibration: from a core clock frequency to busy-wait iteration counts.
//!
//! A busy-wait loop is the only clock the driver has. The calibrator turns a
//! duration in nanoseconds into a number of loop iterations, using exact
//! integer arithmetic: the ratio between the clock frequency and one gigahertz
//! is reduced by its greatest common divisor, and the result is floored.
use vstd::arithmetic::div_mod::{
    lemma_div_multiples_vanish_quotient, lemma_fundamental_div_mod, lemma_mod_multiples_basic,
    lemma_small_mod,
};
use vstd::prelude::*;

verus! {

/// Nanoseconds in one second: the denominator of "cycles per nanosecond".
pub const NANOS_PER_SECOND: u64 = 1_000_000_000;

/// `d` is a positive divisor of `n`.
pub open spec fn divides(d: int, n: int) -> bool {
    d > 0 && n % d == 0
}

/// `g` is the greatest of the common divisors of `a` and `b`.
pub open spec fn is_gcd(g: int, a: int, b: int) -> bool {
    &&& divides(g, a)
    &&& divides(g, b)
    &&& forall|d: int|
        #![trigger divides(d, a), divides(d, b)]
        divides(d, a) && divides(d, b) ==> d <= g
}

/// The value that Euclid's algorithm reaches from `a` and `b`.
pub open spec fn euclid(a: nat, b: nat) -> nat
    decreases b,
{
    if b == 0 {
        a
    } else {
        euclid(b, a % b)
    }
}

/// A multiple of `d` is divisible by `d`.
pub proof fn lemma_multiple_is_divisible(d: int, k: int)
    requires
        d > 0,
    ensures
        divides(d, d * k),
{
    lemma_mod_multiples_basic(k, d);
    assert(k * d == d * k) by (nonlinear_arith);
}

/// A number divisible by `d` is `d` times its quotient.
pub proof fn lemma_divisible_is_multiple(d: int, n: int)
    requires
        divides(d, n),
    ensures
        n == d * (n / d),
{
    lemma_fundamental_div_mod(n, d);
}

/// A divisor of `x` and `y` divides every combination `x * q + y`.
pub proof fn lemma_divides_combination(d: int, x: int, y: int, q: int)
    requires
        divides(d, x),
        divides(d, y),
    ensures
        divides(d, x * q + y),
{
    lemma_divisible_is_multiple(d, x);
    lemma_divisible_is_multiple(d, y);
    let kx = x / d;
    let ky = y / d;
    assert(x * q + y == d * (kx * q + ky)) by (nonlinear_arith)
        requires
            x == d * kx,
            y == d * ky,
    ;
    lemma_multiple_is_divisible(d, kx * q + ky);
}

/// A positive number is at least as large as each of its divisors.
pub proof fn lemma_divisor_is_no_larger(d: int, n: int)
    requires
        n > 0,
        divides(d, n),
    ensures
        d <= n,
{
    if d > n {
        lemma_small_mod(n as nat, d as nat);
    }
}

/// One step of Euclid's algorithm keeps the greatest common divisor.
pub proof fn lemma_gcd_step(g: int, a: int, b: int)
    requires
        0 <= a,
        0 < b,
        is_gcd(g, b, a % b),
    ensures
        is_gcd(g, a, b),
{
    let q = a / b;
    let r = a % b;
    lemma_fundamental_div_mod(a, b);
    assert(divides(g, a)) by {
        lemma_divides_combination(g, b, r, q);
        assert(b * q + r == a);
    }
    assert forall|d: int| divides(d, a) && divides(d, b) implies d <= g by {
        lemma_divides_combination(d, b, a, -q);
        assert(b * (-q) + a == r) by (nonlinear_arith)
            requires
                a == b * q + r,
        ;
        assert(divides(d, b) && divides(d, r));
    }
}

/// Euclid's algorithm reaches the greatest common divisor, and reaches zero
/// only from two zeros.
pub proof fn lemma_euclid_is_gcd(a: nat, b: nat)
    ensures
        a != 0 || b != 0 ==> is_gcd(euclid(a, b) as int, a as int, b as int),
        a == 0 && b == 0 ==> euclid(a, b) == 0,
    decreases b,
{
    if b == 0 {
        if a != 0 {
            lemma_multiple_is_divisible(a as int, 1);
            lemma_multiple_is_divisible(a as int, 0);
            assert forall|d: int| divides(d, a as int) && divides(d, 0) implies d <= a by {
                lemma_divisor_is_no_larger(d, a as int);
            }
        }
    } else {
        lemma_euclid_is_gcd(b, a % b);
        lemma_gcd_step(euclid(a, b) as int, a as int, b as int);
    }
}

/// Greatest common divisor of `a` and `b`; zero when both are zero.
pub fn gcd(a: u64, b: u64) -> (g: u64)
    ensures
        g == euclid(a as nat, b as nat),
        a != 0 || b != 0 ==> is_gcd(g as int, a as int, b as int),
        a == 0 && b == 0 ==> g == 0,
    decreases b,
{
    proof {
        lemma_euclid_is_gcd(a as nat, b as nat);
    }
    if b == 0 {
        a
    } else {
        gcd(b, a % b)
    }
}

/// Dividing two numbers by their greatest common divisor leaves a pair whose
/// only common divisor is one: the fraction is in lowest terms.
pub proof fn lemma_reduced_by_gcd(g: int, a: int, b: int)
    requires
        0 <= a,
        0 <= b,
        is_gcd(g, a, b),
    ensures
        is_gcd(1, a / g, b / g),
{
    lemma_divisible_is_multiple(g, a);
    lemma_divisible_is_multiple(g, b);
    let x = a / g;
    let y = b / g;
    lemma_multiple_is_divisible(1, x);
    lemma_multiple_is_divisible(1, y);
    assert forall|d: int| divides(d, x) && divides(d, y) implies d <= 1 by {
        lemma_divisible_is_multiple(d, x);
        lemma_divisible_is_multiple(d, y);
        let kx = x / d;
        let ky = y / d;
        assert(a == (d * g) * kx && b == (d * g) * ky && d * g > 0) by (nonlinear_arith)
            requires
                a == g * x,
                b == g * y,
                x == d * kx,
                y == d * ky,
                d > 0,
                g > 0,
        ;
        lemma_multiple_is_divisible(d * g, kx);
        lemma_multiple_is_divisible(d * g, ky);
        assert(divides(d * g, a) && divides(d * g, b));
        assert(d * g <= g);
        assert(d <= 1) by (nonlinear_arith)
            requires
                d * g <= g,
                g > 0,
        ;
    }
}

/// Why a clock cannot drive the protocol.
#[derive(Clone, Copy, Debug, PartialEq, Eq, Structural)]
pub enum ConfigError {
    /// The clock frequency is zero.
    ZeroClock,
    /// The clock is too slow: some protocol duration would get no busy-wait
    /// iteration at all.
    UnsupportedClock,
}

/// The core clock frequency of the MCU, in Hz. It is never zero.
#[derive(Clone, Copy, Debug)]
pub struct ClockConfig {
    hz: u32,
}

impl ClockConfig {
    /// The frequency is not zero.
    #[verifier::type_invariant]
    pub closed spec fn wf(self) -> bool {
        self.hz > 0
    }

    /// The frequency in Hz.
    pub closed spec fn spec_hz(&self) -> u32 {
        self.hz
    }

    /// The clock configuration for a core clocked at `hz`. A clock of zero is
    /// refused.
    pub fn new(hz: u32) -> (clock: Result<ClockConfig, ConfigError>)
        ensures
            match clock {
                Ok(c) => hz > 0 && c.wf() && c.hz() == hz,
                Err(e) => hz == 0 && e == ConfigError::ZeroClock,
            },
    {
        if hz == 0 {
            Err(ConfigError::ZeroClock)
        } else {
            Ok(ClockConfig { hz })
        }
    }

    /// The frequency in Hz.
    #[verifier::when_used_as_spec(spec_hz)]
    pub fn hz(&self) -> (hz: u32)
        ensures
            hz == self.hz(),
            hz > 0,
    {
        proof {
            use_type_invariant(self);
        }
        self.hz
    }

    /// The frequency of a clock configuration is not zero.
    pub proof fn lemma_not_zero(self)
        requires
            self.wf(),
        ensures
            self.hz() > 0,
    {
    }
}

/// The platform the busy-wait loop runs on.
///
/// One iteration of the loop costs more than one clock cycle, and how much
/// more depends on the core. The correction ("fudge") factor says how many
/// iterations fit into a hundred cycles; it is found by measurement, once per
/// platform.
#[derive(Clone, Copy, Debug, PartialEq, Eq, Structural)]
pub enum Platform {
    /// Any core without a measurement of its own: 60 iterations per 100
    /// cycles.
    Generic,
    /// STM32F072CB: 40 iterations per 100 cycles.
    Stm32f072cb,
}

impl Platform {
    /// The correction factor in percent.
    pub open spec fn fudge_percent(self) -> nat {
        match self {
            Platform::Generic => 60,
            Platform::Stm32f072cb => 40,
        }
    }

    /// The correction factor in percent.
    pub fn nop_fudge_percent(self) -> (percent: u64)
        ensures
            percent == self.fudge_percent(),
    {
        match self {
            Platform::Generic => 60,
            Platform::Stm32f072cb => 40,
        }
    }
}

/// Busy-wait iterations that last `nanos` nanoseconds on a core clocked at
/// `clock_hz`: the cycles in that time (`nanos * clock_hz` over a billion),
/// scaled by the platform's correction factor (a percentage), rounded down.
pub open spec fn busy_wait_iterations(clock_hz: nat, platform: Platform, nanos: nat) -> nat {
    (nanos * clock_hz * platform.fudge_percent()) / 100_000_000_000
}

/// Clock cycles per nanosecond as a fraction in lowest terms, together with
/// the platform's correction factor: what turns a duration into a busy-wait
/// iteration count.
#[derive(Clone, Copy, Debug)]
pub struct TickFactor {
    clock_hz: u32,
    platform: Platform,
    numerator: u64,
    denominator: u64,
}

impl TickFactor {
    /// The clock is not zero, and the fraction is the clock frequency over one
    /// gigahertz, both divided by their greatest common divisor.
    #[verifier::type_invariant]
    pub closed spec fn wf(self) -> bool {
        &&& self.clock_hz > 0
        &&& self.numerator == self.clock_hz as nat / euclid(
            self.clock_hz as nat,
            NANOS_PER_SECOND as nat,
        )
        &&& self.denominator == NANOS_PER_SECOND as nat / euclid(
            self.clock_hz as nat,
            NANOS_PER_SECOND as nat,
        )
    }

    /// The clock frequency the factor was computed for, in Hz.
    pub closed spec fn spec_clock_hz(&self) -> u32 {
        self.clock_hz
    }

    /// The platform the factor was computed for.
    pub closed spec fn spec_platform(&self) -> Platform {
        self.platform
    }

    /// Numerator of cycles per nanosecond.
    pub closed spec fn spec_numerator(&self) -> u64 {
        self.numerator
    }

    /// Denominator of cycles per nanosecond.
    pub closed spec fn spec_denominator(&self) -> u64 {
        self.denominator
    }

    /// Computes the factor for a clock and a platform: the clock frequency
    /// over one gigahertz, reduced by their greatest common divisor.
    pub fn new(clock: ClockConfig, platform: Platform) -> (factor: TickFactor)
        ensures
            factor.wf(),
            factor.clock_hz() == clock.hz(),
            factor.platform() == platform,
            factor.numerator() == clock.hz() as nat / euclid(
                clock.hz() as nat,
                NANOS_PER_SECOND as nat,
            ),
            factor.denominator() == NANOS_PER_SECOND as nat / euclid(
                clock.hz() as nat,
                NANOS_PER_SECOND as nat,
            ),
    {
        let clock_hz = clock.hz();
        let divisor = gcd(clock_hz as u64, NANOS_PER_SECOND);
        TickFactor {
            clock_hz,
            platform,
            numerator: clock_hz as u64 / divisor,
            denominator: NANOS_PER_SECOND / divisor,
        }
    }

    /// The clock frequency the factor was computed for, in Hz.
    #[verifier::when_used_as_spec(spec_clock_hz)]
    pub fn clock_hz(&self) -> (hz: u32)
        ensures
            hz == self.clock_hz(),
    {
        self.clock_hz
    }

    /// The platform the factor was computed for.
    #[verifier::when_used_as_spec(spec_platform)]
    pub fn platform(&self) -> (platform: Platform)
        ensures
            platform == self.platform(),
    {
        self.platform
    }

    /// Numerator of cycles per nanosecond.
    #[verifier::when_used_as_spec(spec_numerator)]
    pub fn numerator(&self) -> (n: u64)
        ensures
            n == self.numerator(),
    {
        self.numerator
    }

    /// Denominator of cycles per nanosecond.
    #[verifier::when_used_as_spec(spec_denominator)]
    pub fn denominator(&self) -> (d: u64)
        ensures
            d == self.denominator(),
    {
        self.denominator
    }

    /// The fraction is the clock frequency over one gigahertz, both divided by
    /// their greatest common divisor: it stands for the same ratio and is in
    /// lowest terms.
    pub proof fn lemma_lowest_terms(self)
        requires
            self.wf(),
        ensures
            self.clock_hz() > 0,
            self.numerator() == self.clock_hz() as nat / euclid(
                self.clock_hz() as nat,
                NANOS_PER_SECOND as nat,
            ),
            self.denominator() == NANOS_PER_SECOND as nat / euclid(
                self.clock_hz() as nat,
                NANOS_PER_SECOND as nat,
            ),
            self.numerator() > 0,
            self.denominator() > 0,
            self.numerator() * NANOS_PER_SECOND == self.denominator() * self.clock_hz(),
            is_gcd(1, self.numerator() as int, self.denominator() as int),
    {
        let hz = self.clock_hz as int;
        let giga = NANOS_PER_SECOND as int;
        let g = euclid(hz as nat, giga as nat) as int;
        lemma_euclid_is_gcd(hz as nat, giga as nat);
        lemma_reduced_by_gcd(g, hz, giga);
        lemma_divisible_is_multiple(g, hz);
        lemma_divisible_is_multiple(g, giga);
        let n = hz / g;
        let d = giga / g;
        assert(n * giga == d * hz && n > 0 && d > 0) by (nonlinear_arith)
            requires
                hz == g * n,
                giga == g * d,
                g > 0,
                hz > 0,
                giga > 0,
        ;
    }

    /// Busy-wait iterations that last `nanos` nanoseconds, rounded down.
    pub fn iterations(&self, nanos: u32) -> (n: u64)
        ensures
            n == busy_wait_iterations(self.clock_hz() as nat, self.platform(), nanos as nat),
    {
        proof {
            use_type_invariant(self);
            self.lemma_iterations_by_reduced_fraction(nanos as nat);
        }
        let percent = self.platform.nop_fudge_percent();
        assert(nanos * self.numerator <= 0xffff_ffff * 0xffff_ffff) by (nonlinear_arith)
            requires
                nanos <= 0xffff_ffff,
                self.numerator <= 0xffff_ffff,
        ;
        let cycles: u128 = (nanos as u128) * (self.numerator as u128);
        let scaled: u128 = cycles * (percent as u128);
        let per: u128 = (self.denominator as u128) * 100;
        (scaled / per) as u64
    }

    /// Computing with the reduced fraction gives the same count as computing
    /// with the clock frequency itself, and the count fits 64 bits.
    proof fn lemma_iterations_by_reduced_fraction(self, nanos: nat)
        requires
            self.wf(),
            nanos <= u32::MAX,
        ensures
            self.numerator <= u32::MAX,
            0 < self.denominator <= NANOS_PER_SECOND,
            (nanos * self.numerator * self.platform.fudge_percent()) / (self.denominator * 100)
                == busy_wait_iterations(self.clock_hz as nat, self.platform, nanos),
            busy_wait_iterations(self.clock_hz as nat, self.platform, nanos) <= u64::MAX,
    {
        let hz = self.clock_hz as int;
        let giga = NANOS_PER_SECOND as int;
        let g = euclid(hz as nat, giga as nat) as int;
        lemma_euclid_is_gcd(hz as nat, giga as nat);
        lemma_divisible_is_multiple(g, hz);
        lemma_divisible_is_multiple(g, giga);
        let n = hz / g;
        let d = giga / g;
        let percent = self.platform.fudge_percent() as int;
        assert(0 < n <= hz && 0 < d <= giga) by (nonlinear_arith)
            requires
                hz == g * n,
                giga == g * d,
                g > 0,
                hz > 0,
                giga > 0,
        ;
        let a = nanos * n * percent;
        let b = d * 100;
        assert(g * a == nanos * hz * percent && g * b == giga * 100 && a >= 0 && b > 0)
            by (nonlinear_arith)
            requires
                a == nanos * n * percent,
                b == d * 100,
                hz == g * n,
                giga == g * d,
                nanos >= 0,
                n > 0,
                d > 0,
                percent > 0,
        ;
        lemma_div_multiples_vanish_quotient(g, a, b);
        assert(nanos * hz * percent <= 0xffff_ffff * 0xffff_ffff * 60) by (nonlinear_arith)
            requires
                0 <= nanos <= 0xffff_ffff,
                0 <= hz <= 0xffff_ffff,
                0 < percent <= 60,
        ;
    }
}

} // verus!
