//! Gamma correction, as the `smart-leds` crate computes it.
use super::color::Color;
use vstd::prelude::*;

verus! {

/// The gamma-corrected intensity that `smart_leds::gamma` gives a channel of
/// intensity `value`: the entry of that crate's fixed 256-entry table.
pub uninterp spec fn gamma8(value: u8) -> u8;

impl Color {
    /// The color with each channel gamma-corrected on its own.
    pub open spec fn gamma_corrected(self) -> Color {
        Color { r: gamma8(self.r), g: gamma8(self.g), b: gamma8(self.b) }
    }
}

/// A chain with every color gamma-corrected.
pub open spec fn gamma_corrected(colors: Seq<Color>) -> Seq<Color> {
    Seq::new(colors.len(), |i: int| colors[i].gamma_corrected())
}

/// Runs the chain through `smart_leds::gamma`.
///
/// Trusted, from the source of `smart-leds`: the iterator yields one color for
/// each color it is given, in the same order, and looks each of the three
/// channels up in one table indexed by the channel's value.
#[verifier::external_body]
fn gamma_iter(colors: &Vec<Color>) -> (corrected: Vec<Color>)
    ensures
        corrected@.len() == colors@.len(),
        forall|i: int|
            0 <= i < colors@.len() ==> #[trigger] corrected@[i] == (Color {
                r: gamma8(colors@[i].r),
                g: gamma8(colors@[i].g),
                b: gamma8(colors@[i].b),
            }),
{
    smart_leds::gamma(colors.iter().map(|c| smart_leds::RGB8 { r: c.r, g: c.g, b: c.b }))
        .map(|c| Color { r: c.r, g: c.g, b: c.b })
        .collect()
}

/// Gamma-corrects every channel of every color of the chain.
pub fn gamma(colors: &Vec<Color>) -> (corrected: Vec<Color>)
    ensures
        corrected@ == gamma_corrected(colors@),
{
    let corrected = gamma_iter(colors);
    assert(corrected@ =~= gamma_corrected(colors@));
    corrected
}

} // verus!
