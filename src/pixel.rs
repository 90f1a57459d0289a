use vstd::prelude::*;

verus! {

/// An RGBA colour, one byte per channel.
#[derive(Clone, Copy, Debug, PartialEq, Eq, Structural)]
pub struct Pixel(pub u8, pub u8, pub u8, pub u8);

/// Opaque white: the colour of a pixel that nothing has covered.
pub open spec fn white() -> Pixel {
    Pixel(255, 255, 255, 255)
}

impl Default for Pixel {
    fn default() -> (r: Pixel)
        ensures
            r == white(),
    {
        Pixel(255, 255, 255, 255)
    }
}

impl Pixel {
    /// The sum of the three colour channels; their average is a third of it.
    pub open spec fn channel_sum(self) -> nat {
        self.0 as nat + self.1 as nat + self.2 as nat
    }

    pub fn white() -> (r: Pixel)
        ensures
            r == white(),
    {
        Pixel(255, 255, 255, 255)
    }
}

} // verus!
