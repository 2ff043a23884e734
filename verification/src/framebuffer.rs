//! A plain frame buffer filled with one colour, and the smallest example of
//! exported arithmetic.
use vstd::prelude::*;
use crate::pixels::{pixel_bytes, pixels_to_le_bytes};

verus! {

/// Adds two integers; the sum must fit in an `i32`.
pub fn add(left: i32, right: i32) -> (sum: i32)
    requires
        i32::MIN <= left + right <= i32::MAX,
    ensures
        sum == left + right,
{
    left + right
}

/// The colour a new frame is filled with, packed as RGBA bytes in
/// little-endian order (blue, opaque).
pub const BACKGROUND_PIXEL: u32 = 0xFF_FF_00_00;

/// A frame of packed pixels.
pub struct Renderer {
    frame_buffer: Vec<u32>,
}

impl View for Renderer {
    type V = Seq<u32>;

    closed spec fn view(&self) -> Seq<u32> {
        self.frame_buffer@
    }
}

impl Renderer {
    /// A `width` by `height` frame filled with the background colour.
    pub fn new(width: u32, height: u32) -> (r: Self)
        requires
            width * height <= u32::MAX,
        ensures
            r@ == Seq::new((width * height) as nat, |i: int| BACKGROUND_PIXEL),
            r@.len() == width * height,
            forall|i: int| 0 <= i < width * height ==> #[trigger] r@[i] == 0xFFFF_0000u32,
    {
        let pixel_count: usize = (width * height) as usize;
        let pixels: Vec<u32> = vec![BACKGROUND_PIXEL; pixel_count];
        assert(pixels@ =~= Seq::new((width * height) as nat, |i: int| BACKGROUND_PIXEL));
        Renderer { frame_buffer: pixels }
    }

    /// The frame as bytes, the four little-endian bytes of each pixel in turn.
    pub fn get_frame_buffer(&self) -> (bytes: Vec<u8>)
        requires
            4 * self@.len() <= usize::MAX,
        ensures
            bytes@ == pixel_bytes(self@),
    {
        pixels_to_le_bytes(&self.frame_buffer)
    }
}

} // verus!
