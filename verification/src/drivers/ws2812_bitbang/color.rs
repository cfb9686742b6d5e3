//! Colors and the order in which their channels go onto the wire.
use vstd::prelude::*;

verus! {

/// A color as three channel intensities.
#[derive(Clone, Copy, Debug, PartialEq, Eq, Structural)]
pub struct Color {
    pub r: u8,
    pub g: u8,
    pub b: u8,
}

impl Color {
    /// The color with the given channels.
    pub fn new(r: u8, g: u8, b: u8) -> (color: Color)
        ensures
            color == (Color { r, g, b }),
    {
        Color { r, g, b }
    }

    /// The gray with all three channels at `brightness`.
    pub open spec fn spec_gray(brightness: u8) -> Color {
        Color { r: brightness, g: brightness, b: brightness }
    }

    /// The gray with all three channels at `brightness`.
    #[verifier::when_used_as_spec(spec_gray)]
    pub fn gray(brightness: u8) -> (color: Color)
        ensures
            color == Color::gray(brightness),
    {
        Color { r: brightness, g: brightness, b: brightness }
    }

    /// Black: what an LED shows that no cell of a matrix is mapped to.
    pub open spec fn black() -> Color {
        Color { r: 0, g: 0, b: 0 }
    }

    /// The `k`-th byte of the color on the wire: green first, then red, then
    /// blue.
    pub open spec fn wire_byte(self, k: int) -> u8 {
        if k == 0 {
            self.g
        } else if k == 1 {
            self.r
        } else {
            self.b
        }
    }
}

impl Default for Color {
    /// Black.
    fn default() -> (color: Color)
        ensures
            color == Color::black(),
    {
        Color { r: 0, g: 0, b: 0 }
    }
}

/// The bytes that a chain of colors puts on the wire: three per color, in the
/// order of the chain.
pub open spec fn wire_bytes(colors: Seq<Color>) -> Seq<u8> {
    Seq::new(3 * colors.len(), |i: int| colors[i / 3].wire_byte(i % 3))
}

/// The chain of colors that `bytes` spell, three bytes to a color; bytes left
/// over at the end are not part of any color.
pub open spec fn colors_of(bytes: Seq<u8>) -> Seq<Color> {
    Seq::new(
        bytes.len() / 3,
        |j: int| Color { r: bytes[3 * j + 1], g: bytes[3 * j], b: bytes[3 * j + 2] },
    )
}

/// A color goes onto the wire as its green, its red and its blue byte, in
/// that order.
pub proof fn lemma_wire_order(color: Color)
    ensures
        wire_bytes(seq![color]) == seq![color.g, color.r, color.b],
{
    assert(wire_bytes(seq![color]) =~= seq![color.g, color.r, color.b]);
}

/// Reading a chain's wire bytes back gives the chain.
pub proof fn lemma_colors_of_wire_bytes(colors: Seq<Color>)
    ensures
        colors_of(wire_bytes(colors)) == colors,
{
    assert(colors_of(wire_bytes(colors)) =~= colors);
}

/// Reads the chain of colors that `bytes` spell on the wire: green, red and
/// blue byte of the first color, then of the second, and so on. There is none
/// to read unless the bytes make up whole colors.
pub fn read_colors(bytes: &Vec<u8>) -> (colors: Option<Vec<Color>>)
    ensures
        match colors {
            Some(c) => bytes@.len() % 3 == 0 && c@ == colors_of(bytes@),
            None => bytes@.len() % 3 != 0,
        },
{
    if bytes.len() % 3 != 0 {
        return None;
    }
    let count = bytes.len() / 3;
    let mut colors: Vec<Color> = Vec::new();
    let mut j: usize = 0;
    while j < count
        invariant
            bytes.len() == 3 * count,
            j <= count,
            colors@.len() == j,
            forall|n: int| 0 <= n < j ==> #[trigger] colors@[n] == colors_of(bytes@)[n],
        decreases count - j,
    {
        colors.push(Color { r: bytes[3 * j + 1], g: bytes[3 * j], b: bytes[3 * j + 2] });
        j = j + 1;
    }
    assert(colors@ =~= colors_of(bytes@));
    Some(colors)
}

} // verus!
