//! The signal on the data line: pulses, the bits they carry, and how a
//! receiver reads them back.
use vstd::prelude::*;

verus! {

/// One bit on the wire: the line is held high for `high` busy-wait
/// iterations, then low for `low` iterations.
#[derive(Clone, Copy, Debug, PartialEq, Eq, Structural)]
pub struct Pulse {
    pub high: u32,
    pub low: u32,
}

impl Pulse {
    /// Busy-wait iterations the pulse takes in all.
    pub open spec fn duration(self) -> nat {
        (self.high + self.low) as nat
    }

    /// A receiver takes a pulse for a one when the line was high for longer
    /// than it was low.
    pub open spec fn reads_as_one(self) -> bool {
        self.high > self.low
    }

    /// The bit a receiver reads from the pulse.
    pub fn decode(&self) -> (bit: bool)
        ensures
            bit == self.reads_as_one(),
    {
        self.high > self.low
    }
}

/// The `i`-th bit of `byte` in transmission order: the most significant bit
/// is bit 0.
pub open spec fn msb_first_bit(byte: u8, i: u8) -> bool {
    byte & (0x80u8 >> i) != 0
}

/// The bits of `bytes` in transmission order: byte after byte, each most
/// significant bit first.
pub open spec fn bits_of(bytes: Seq<u8>) -> Seq<bool> {
    Seq::new(8 * bytes.len(), |i: int| msb_first_bit(bytes[i / 8], (i % 8) as u8))
}

/// The bits that a receiver reads from `pulses`.
pub open spec fn bits_read(pulses: Seq<Pulse>) -> Seq<bool> {
    Seq::new(pulses.len(), |i: int| pulses[i].reads_as_one())
}

/// The number that `bits` spell, most significant bit first.
pub open spec fn value_of_bits(bits: Seq<bool>) -> nat
    decreases bits.len(),
{
    if bits.len() == 0 {
        0
    } else {
        2 * value_of_bits(bits.drop_last()) + if bits.last() {
            1nat
        } else {
            0nat
        }
    }
}

/// The bytes that `bits` spell, eight bits to a byte; bits left over at the
/// end are not part of any byte.
pub open spec fn bytes_of(bits: Seq<bool>) -> Seq<u8> {
    Seq::new(bits.len() / 8, |j: int| value_of_bits(bits.subrange(8 * j, 8 * j + 8)) as u8)
}

/// Eight bits spell a number below 256.
pub proof fn lemma_value_of_bits_bound(bits: Seq<bool>)
    requires
        bits.len() <= 8,
    ensures
        value_of_bits(bits) < vstd::arithmetic::power2::pow2(bits.len()),
        value_of_bits(bits) <= 255,
    decreases bits.len(),
{
    vstd::arithmetic::power2::lemma2_to64();
    if bits.len() > 0 {
        lemma_value_of_bits_bound(bits.drop_last());
        vstd::arithmetic::power2::lemma_pow2_unfold(bits.len());
    }
}

/// A byte is the number its eight bits spell.
pub proof fn lemma_byte_from_its_bits(byte: u8)
    ensures
        value_of_bits(bits_of(seq![byte])) == byte,
{
    let bits = bits_of(seq![byte]);
    assert(bits.len() == 8);
    assert forall|i: int| 0 <= i < 8 implies bits[i] == msb_first_bit(byte, i as u8) by {
        assert(seq![byte][i / 8] == byte);
    }
    reveal_with_fuel(value_of_bits, 9);
    assert(value_of_bits(bits) == 128 * (if bits[0] { 1int } else { 0int })
        + 64 * (if bits[1] { 1int } else { 0int })
        + 32 * (if bits[2] { 1int } else { 0int })
        + 16 * (if bits[3] { 1int } else { 0int })
        + 8 * (if bits[4] { 1int } else { 0int })
        + 4 * (if bits[5] { 1int } else { 0int })
        + 2 * (if bits[6] { 1int } else { 0int })
        + (if bits[7] { 1int } else { 0int }));
    assert(byte == 128 * (if msb_first_bit(byte, 0) { 1int } else { 0int })
        + 64 * (if msb_first_bit(byte, 1) { 1int } else { 0int })
        + 32 * (if msb_first_bit(byte, 2) { 1int } else { 0int })
        + 16 * (if msb_first_bit(byte, 3) { 1int } else { 0int })
        + 8 * (if msb_first_bit(byte, 4) { 1int } else { 0int })
        + 4 * (if msb_first_bit(byte, 5) { 1int } else { 0int })
        + 2 * (if msb_first_bit(byte, 6) { 1int } else { 0int })
        + (if msb_first_bit(byte, 7) { 1int } else { 0int })) by (bit_vector);
}

/// Busy-wait iterations that `pulses` take in all.
pub open spec fn total_duration(pulses: Seq<Pulse>) -> nat
    decreases pulses.len(),
{
    if pulses.len() == 0 {
        0
    } else {
        total_duration(pulses.drop_last()) + pulses.last().duration()
    }
}

/// Pulses that each take at least `min` iterations take together at least
/// `min` times their number.
pub proof fn lemma_total_duration_at_least(pulses: Seq<Pulse>, min: nat)
    requires
        forall|i: int| 0 <= i < pulses.len() ==> (#[trigger] pulses[i]).duration() >= min,
    ensures
        total_duration(pulses) >= pulses.len() * min,
    decreases pulses.len(),
{
    if pulses.len() > 0 {
        let rest = pulses.drop_last();
        assert forall|i: int| 0 <= i < rest.len() implies (#[trigger] rest[i]).duration()
            >= min by {
            assert(rest[i] == pulses[i]);
        }
        lemma_total_duration_at_least(rest, min);
        assert(pulses.last() == pulses[pulses.len() - 1]);
        assert(pulses.len() * min == rest.len() * min + min) by (nonlinear_arith)
            requires
                pulses.len() == rest.len() + 1,
        ;
    }
}

/// The bits of a sequence of bytes spell those bytes.
pub proof fn lemma_bytes_of_their_bits(bytes: Seq<u8>)
    ensures
        bytes_of(bits_of(bytes)) == bytes,
{
    let bits = bits_of(bytes);
    assert forall|j: int| 0 <= j < bytes.len() implies bytes_of(bits)[j] == bytes[j] by {
        assert(bits.subrange(8 * j, 8 * j + 8) =~= bits_of(seq![bytes[j]])) by {
            assert forall|k: int| 0 <= k < 8 implies bits[8 * j + k] == bits_of(
                seq![bytes[j]],
            )[k] by {
                assert((8 * j + k) / 8 == j && (8 * j + k) % 8 == k);
                assert(seq![bytes[j]][k / 8] == bytes[j]);
            }
        }
        lemma_byte_from_its_bits(bytes[j]);
    }
    assert(bytes_of(bits) =~= bytes);
}

/// Reads the bytes that a receiver takes from `pulses`, eight pulses to a
/// byte, most significant bit first. There are none to read unless the pulses
/// make up whole bytes.
pub fn read_bytes(pulses: &Vec<Pulse>) -> (bytes: Option<Vec<u8>>)
    ensures
        match bytes {
            Some(b) => pulses@.len() % 8 == 0 && b@ == bytes_of(bits_read(pulses@)),
            None => pulses@.len() % 8 != 0,
        },
{
    if pulses.len() % 8 != 0 {
        return None;
    }
    let ghost bits = bits_read(pulses@);
    let count = pulses.len() / 8;
    let mut bytes: Vec<u8> = Vec::new();
    let mut j: usize = 0;
    while j < count
        invariant
            bits == bits_read(pulses@),
            pulses.len() == 8 * count,
            j <= count,
            bytes@.len() == j,
            forall|n: int| 0 <= n < j ==> #[trigger] bytes@[n] == bytes_of(bits)[n],
        decreases count - j,
    {
        let mut value: u8 = 0;
        let mut k: usize = 0;
        while k < 8
            invariant
                bits == bits_read(pulses@),
                pulses.len() == 8 * count,
                j < count,
                k <= 8,
                value == value_of_bits(bits.subrange(8 * j, 8 * j + k)),
            decreases 8 - k,
        {
            let bit = pulses[8 * j + k].decode();
            proof {
                let next = bits.subrange(8 * j, 8 * j + k + 1);
                assert(next.drop_last() =~= bits.subrange(8 * j, 8 * j + k));
                assert(next.last() == bit);
                lemma_value_of_bits_bound(next);
            }
            value = 2 * value + if bit {
                1
            } else {
                0
            };
            k = k + 1;
        }
        bytes.push(value);
        j = j + 1;
    }
    assert(bytes@ =~= bytes_of(bits));
    Some(bytes)
}

} // verus!
