//! Bit-banged driver for LEDs that speak the WS2812 one-wire protocol.
//!
//! The driver decides what goes onto the data line: for every bit one pulse,
//! high then low, each level held for a calibrated number of busy-wait
//! iterations, and after the last bit of a frame a pause that makes the LEDs
//! latch. It hands that signal out as a [`frame::Frame`]; toggling the pin
//! and spinning is left to whoever owns the pin.
//!
//! A driver is set up in three steps, once, when the firmware starts: a
//! [`calibration::ClockConfig`] from the core clock frequency, a
//! [`calibration::TickFactor`] from that and the platform, and a [`Ws2812`]
//! from the tick factor. A clock that cannot drive the protocol is refused on
//! the way. From then on every frame is a function of the colors alone.
pub mod backlight;
pub mod calibration;
pub mod color;
pub mod frame;
pub mod gamma;
pub mod signal;
pub mod underglow;

use calibration::{busy_wait_iterations, ConfigError, Platform, TickFactor};
use color::{colors_of, lemma_colors_of_wire_bytes, wire_bytes, Color};
use frame::Frame;
use signal::{
    bits_of, bits_read, bytes_of, lemma_bytes_of_their_bits, lemma_total_duration_at_least,
    msb_first_bit, total_duration, Pulse,
};
use vstd::prelude::*;

verus! {

/// Nanoseconds the line is high for a zero bit.
pub const T0H: u32 = 350;

/// Nanoseconds the line is low for a zero bit.
pub const T0L: u32 = 900;

/// Nanoseconds the line is high for a one bit.
pub const T1H: u32 = 900;

/// Nanoseconds the line is low for a one bit.
pub const T1L: u32 = 350;

/// Microseconds the line stays low after a frame, so that the LEDs latch it.
pub const RES: u64 = 280;

/// Busy-wait iterations for the high and the low part of a bit's pulse.
pub open spec fn pulse_iterations(clock_hz: nat, platform: Platform, bit: bool) -> (nat, nat) {
    if bit {
        (
            busy_wait_iterations(clock_hz, platform, T1H as nat),
            busy_wait_iterations(clock_hz, platform, T1L as nat),
        )
    } else {
        (
            busy_wait_iterations(clock_hz, platform, T0H as nat),
            busy_wait_iterations(clock_hz, platform, T0L as nat),
        )
    }
}

/// A clock can drive the protocol when each of the four durations lasts at
/// least one busy-wait iteration.
pub open spec fn clock_supported(clock_hz: nat, platform: Platform) -> bool {
    &&& busy_wait_iterations(clock_hz, platform, T0H as nat) >= 1
    &&& busy_wait_iterations(clock_hz, platform, T0L as nat) >= 1
    &&& busy_wait_iterations(clock_hz, platform, T1H as nat) >= 1
    &&& busy_wait_iterations(clock_hz, platform, T1L as nat) >= 1
}

/// The slowest clock that can drive the protocol, in Hz.
pub open spec fn min_clock_hz(platform: Platform) -> nat {
    match platform {
        Platform::Generic => 4_761_905,
        Platform::Stm32f072cb => 7_142_858,
    }
}

/// The supported clocks are those from `min_clock_hz` up.
pub proof fn lemma_supported_clocks(clock_hz: nat, platform: Platform)
    ensures
        clock_supported(clock_hz, platform) <==> clock_hz >= min_clock_hz(platform),
{
}

/// On a supported clock a one has the longer high part and a zero the longer
/// low part, and no part takes more than a few thousand iterations.
pub proof fn lemma_pulse_shapes(clock_hz: nat, platform: Platform)
    requires
        clock_hz <= u32::MAX,
        clock_supported(clock_hz, platform),
    ensures
        pulse_iterations(clock_hz, platform, true).0 > pulse_iterations(clock_hz, platform, true).1,
        pulse_iterations(clock_hz, platform, false).0 < pulse_iterations(
            clock_hz,
            platform,
            false,
        ).1,
        pulse_iterations(clock_hz, platform, true).0 <= 2320,
        pulse_iterations(clock_hz, platform, false).1 <= 2320,
{
}

/// The driver: a tick factor, and the two pulses it makes of it.
#[derive(Clone, Copy, Debug)]
pub struct Ws2812 {
    factor: TickFactor,
    one: Pulse,
    zero: Pulse,
}

impl Ws2812 {
    /// The clock is supported, and the two pulses are what the tick factor
    /// gives for the protocol's four durations.
    #[verifier::type_invariant]
    pub closed spec fn wf(self) -> bool {
        let hz = self.factor.clock_hz() as nat;
        let platform = self.factor.platform();
        &&& self.factor.wf()
        &&& clock_supported(hz, platform)
        &&& self.one.high == pulse_iterations(hz, platform, true).0
        &&& self.one.low == pulse_iterations(hz, platform, true).1
        &&& self.zero.high == pulse_iterations(hz, platform, false).0
        &&& self.zero.low == pulse_iterations(hz, platform, false).1
    }

    /// The tick factor the driver was set up with.
    pub closed spec fn spec_factor(&self) -> TickFactor {
        self.factor
    }

    /// The pulse for one bit: high for the bit's high time, then low for its
    /// low time, each counted in busy-wait iterations.
    pub open spec fn pulse(self, bit: bool) -> Pulse {
        let iterations = pulse_iterations(
            self.factor().clock_hz() as nat,
            self.factor().platform(),
            bit,
        );
        Pulse { high: iterations.0 as u32, low: iterations.1 as u32 }
    }

    /// The pulses for `bytes`: eight per byte, most significant bit first.
    pub open spec fn waveform(self, bytes: Seq<u8>) -> Seq<Pulse> {
        Seq::new(
            8 * bytes.len(),
            |i: int| self.pulse(msb_first_bit(bytes[i / 8], (i % 8) as u8)),
        )
    }

    /// The frame for a chain of colors: the pulses of its wire bytes, then the
    /// latch pause.
    pub open spec fn frame(self, colors: Seq<Color>) -> (Seq<Pulse>, u64) {
        (self.waveform(wire_bytes(colors)), RES)
    }

    /// The driver's clock is supported; each part of a pulse lasts at least one
    /// busy-wait iteration, as many as the tick factor counts for it; and a
    /// receiver reads the pulse as the bit it was made for.
    pub proof fn lemma_pulse(self, bit: bool)
        requires
            self.wf(),
        ensures
            self.factor().wf(),
            clock_supported(self.factor().clock_hz() as nat, self.factor().platform()),
            self.pulse(bit).high == pulse_iterations(
                self.factor().clock_hz() as nat,
                self.factor().platform(),
                bit,
            ).0,
            self.pulse(bit).low == pulse_iterations(
                self.factor().clock_hz() as nat,
                self.factor().platform(),
                bit,
            ).1,
            self.pulse(bit).high >= 1,
            self.pulse(bit).low >= 1,
            self.pulse(bit).reads_as_one() == bit,
    {
        lemma_pulse_shapes(self.factor.clock_hz() as nat, self.factor.platform());
    }

    /// The busy-wait iterations of the shorter of the two bits.
    pub open spec fn min_bit_duration(self) -> nat {
        if self.pulse(true).duration() <= self.pulse(false).duration() {
            self.pulse(true).duration()
        } else {
            self.pulse(false).duration()
        }
    }

    /// The pulses of two byte sequences, one after the other, are the pulses
    /// of the two sequences joined.
    pub proof fn lemma_waveform_appends(self, first: Seq<u8>, second: Seq<u8>)
        ensures
            self.waveform(first + second) == self.waveform(first) + self.waveform(second),
    {
        let joined = first + second;
        assert forall|i: int| 0 <= i < 8 * joined.len() implies self.waveform(joined)[i] == (
        self.waveform(first) + self.waveform(second))[i] by {
            if i >= 8 * first.len() {
                assert((i - 8 * first.len()) / 8 == i / 8 - first.len());
                assert((i - 8 * first.len()) % 8 == i % 8);
            }
        }
        assert(self.waveform(joined) =~= self.waveform(first) + self.waveform(second));
    }

    /// A receiver reads from the pulses of `bytes` the bits of those bytes,
    /// most significant bit first, and so the bytes themselves.
    pub proof fn lemma_waveform_reads_back(self, bytes: Seq<u8>)
        requires
            self.wf(),
        ensures
            bits_read(self.waveform(bytes)) == bits_of(bytes),
            bytes_of(bits_read(self.waveform(bytes))) == bytes,
    {
        self.lemma_pulse(true);
        self.lemma_pulse(false);
        assert(bits_read(self.waveform(bytes)) =~= bits_of(bytes));
        lemma_bytes_of_their_bits(bytes);
    }

    /// A receiver reads from a frame the chain of colors it was made for.
    pub proof fn lemma_frame_reads_back(self, colors: Seq<Color>)
        requires
            self.wf(),
        ensures
            colors_of(bytes_of(bits_read(self.frame(colors).0))) == colors,
    {
        self.lemma_waveform_reads_back(wire_bytes(colors));
        lemma_colors_of_wire_bytes(colors);
    }

    /// A frame for `n` LEDs holds 24 pulses for each LED, spends on them at
    /// least `n` times 24 times the busy-wait iterations of the shorter bit,
    /// and ends with a pause of at least the latch time.
    pub proof fn lemma_frame_duration(self, colors: Seq<Color>)
        requires
            self.wf(),
        ensures
            self.frame(colors).0.len() == 24 * colors.len(),
            total_duration(self.frame(colors).0) >= colors.len() * 24 * self.min_bit_duration(),
            self.min_bit_duration() >= 2,
            self.frame(colors).1 >= RES,
    {
        self.lemma_pulse(true);
        self.lemma_pulse(false);
        let pulses = self.frame(colors).0;
        lemma_total_duration_at_least(pulses, self.min_bit_duration());
        assert(pulses.len() * self.min_bit_duration() == colors.len() * 24
            * self.min_bit_duration()) by (nonlinear_arith)
            requires
                pulses.len() == 24 * colors.len(),
        ;
    }

    /// Sets the driver up for a tick factor. A clock too slow to give every
    /// protocol duration at least one busy-wait iteration is refused.
    pub fn new(factor: TickFactor) -> (driver: Result<Ws2812, ConfigError>)
        ensures
            match driver {
                Ok(d) => {
                    &&& clock_supported(factor.clock_hz() as nat, factor.platform())
                    &&& d.wf()
                    &&& d.factor() == factor
                },
                Err(e) => {
                    &&& !clock_supported(factor.clock_hz() as nat, factor.platform())
                    &&& e == ConfigError::UnsupportedClock
                },
            },
    {
        proof {
            use_type_invariant(&factor);
        }
        let t0h = factor.iterations(T0H);
        let t0l = factor.iterations(T0L);
        let t1h = factor.iterations(T1H);
        let t1l = factor.iterations(T1L);
        if t0h == 0 || t0l == 0 || t1h == 0 || t1l == 0 {
            return Err(ConfigError::UnsupportedClock);
        }
        proof {
            lemma_pulse_shapes(factor.clock_hz() as nat, factor.platform());
        }
        Ok(
            Ws2812 {
                factor,
                one: Pulse { high: t1h as u32, low: t1l as u32 },
                zero: Pulse { high: t0h as u32, low: t0l as u32 },
            },
        )
    }

    /// The tick factor the driver was set up with.
    #[verifier::when_used_as_spec(spec_factor)]
    pub fn factor(&self) -> (factor: TickFactor)
        ensures
            factor == self.factor(),
            factor.wf(),
    {
        proof {
            use_type_invariant(self);
        }
        self.factor
    }

    /// The pulse that carries one bit: high for the bit's high time, then low
    /// for its low time.
    pub fn encode_bit(&self, bit: bool) -> (pulse: Pulse)
        ensures
            pulse == self.pulse(bit),
    {
        proof {
            use_type_invariant(self);
            lemma_pulse_shapes(self.factor.clock_hz() as nat, self.factor.platform());
        }
        if bit {
            self.one
        } else {
            self.zero
        }
    }

    /// Appends the eight pulses of `data` to `signal`, most significant bit
    /// first.
    pub fn write_byte(&self, data: u8, signal: &mut Vec<Pulse>)
        ensures
            final(signal)@ == old(signal)@ + self.waveform(seq![data]),
    {
        let mut rest: u8 = data;
        let mut i: u8 = 0;
        assert(data << 0u8 == data) by (bit_vector);
        while i < 8
            invariant
                i <= 8,
                rest == data << i,
                signal@.len() == old(signal)@.len() + i,
                forall|k: int| 0 <= k < old(signal)@.len() ==> signal@[k] == old(signal)@[k],
                forall|k: int|
                    0 <= k < i ==> #[trigger] signal@[old(signal)@.len() + k] == self.pulse(
                        msb_first_bit(data, k as u8),
                    ),
            decreases 8 - i,
        {
            assert((data << i) & 0x80 == 0x80 <==> data & (0x80u8 >> i) != 0) by (bit_vector)
                requires
                    i < 8,
            ;
            assert((data << i) << 1u8 == data << ((i + 1) as u8)) by (bit_vector)
                requires
                    i < 8,
            ;
            signal.push(self.encode_bit(rest & 0x80 == 0x80));
            rest = rest << 1;
            i = i + 1;
        }
        assert forall|k: int| 0 <= k < 8 implies signal@[old(signal)@.len() + k]
            == self.waveform(seq![data])[k] by {
            assert(seq![data][k / 8] == data);
        }
        assert(signal@ =~= old(signal)@ + self.waveform(seq![data]));
    }

    /// The frame for a chain of colors: for each color its green, red and blue
    /// byte, in that order, then the latch pause.
    pub fn write_colors(&self, colors: &Vec<Color>) -> (frame: Frame)
        ensures
            frame@ == self.frame(colors@),
    {
        let mut pulses: Vec<Pulse> = Vec::new();
        let mut n: usize = 0;
        while n < colors.len()
            invariant
                n <= colors.len(),
                pulses@ == self.waveform(wire_bytes(colors@.take(n as int))),
            decreases colors.len() - n,
        {
            let color = colors[n];
            self.write_byte(color.g, &mut pulses);
            self.write_byte(color.r, &mut pulses);
            self.write_byte(color.b, &mut pulses);
            proof {
                let done = wire_bytes(colors@.take(n as int));
                let next = wire_bytes(colors@.take(n + 1));
                assert(next =~= done + seq![color.g] + seq![color.r] + seq![color.b]);
                self.lemma_waveform_appends(done, seq![color.g]);
                self.lemma_waveform_appends(done + seq![color.g], seq![color.r]);
                self.lemma_waveform_appends(done + seq![color.g] + seq![color.r], seq![color.b]);
            }
            n = n + 1;
        }
        assert(colors@.take(n as int) =~= colors@);
        Frame { pulses, reset_micros: RES }
    }
}

} // verus!
