use vstd::prelude::*;

verus! {

/// An RGB colour, one byte per channel.
#[derive(Copy, Clone, Debug, PartialEq, Eq, Structural)]
pub struct Pixel {
    pub red: u8,
    pub green: u8,
    pub blue: u8,
}

impl Pixel {
    /// A colour from its three channels.
    pub fn new(red: u8, green: u8, blue: u8) -> (r: Pixel)
        ensures
            r == (Pixel { red, green, blue }),
    {
        Pixel { red, green, blue }
    }
}

} // verus!
