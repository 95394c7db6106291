//! Bytes that are drawn at random.

use vstd::prelude::*;

verus! {

/// A byte that was drawn for a frame. Only a draw makes one, and it cannot be copied: a draw for a
/// frame shows that a byte was drawn for it, and which.
pub struct Draw {
    frame: u32,
    byte: u8,
}

impl Draw {
    /// The frame that the byte was drawn for.
    pub closed spec fn spec_frame(&self) -> u32 {
        self.frame
    }

    /// The byte that was drawn.
    pub closed spec fn spec_byte(&self) -> u8 {
        self.byte
    }

    /// The byte that was drawn.
    pub fn byte(&self) -> (byte: u8)
        ensures
            byte == self.spec_byte(),
    {
        self.byte
    }
}

/// Calls `rand::random` for a byte, and keeps it together with the frame that it is drawn for.
/// Nothing is promised of the byte.
#[verifier::external_body]
pub(crate) fn random_byte(frame: u32) -> (draw: Draw)
    ensures
        draw.spec_frame() == frame,
{
    Draw { frame, byte: rand::random::<u8>() }
}

} // verus!
