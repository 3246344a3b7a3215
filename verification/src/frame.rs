//! RGBA8 frames: `width * height` pixels, four bytes each, row by row.

use vstd::prelude::*;

verus! {

/// Byte offset of pixel (x, y).
pub open spec fn pixel_offset(width: u32, x: u32, y: u32) -> int {
    (y * width + x) * 4
}

/// The four RGBA bytes of pixel (x, y).
pub open spec fn pixel_spec(frame: Seq<u8>, width: u32, x: u32, y: u32) -> Seq<u8> {
    frame.subrange(pixel_offset(width, x, y), pixel_offset(width, x, y) + 4)
}

/// A buffer that starts with `width * height` RGBA pixels; bytes after them are never read.
pub open spec fn frame_holds(frame: Seq<u8>, width: u32, height: u32) -> bool {
    frame.len() >= width * height * 4
}

pub proof fn lemma_pixel_in_frame(width: u32, height: u32, x: u32, y: u32)
    requires
        x < width,
        y < height,
    ensures
        0 <= pixel_offset(width, x, y),
        pixel_offset(width, x, y) + 4 <= width * height * 4,
{
    assert(y * width + x + 1 <= width * height) by (nonlinear_arith)
        requires
            x < width,
            y < height,
    ;
    assert(0 <= y * width) by (nonlinear_arith);
}

/// Reads the RGBA bytes of pixel (x, y).
pub fn pixel_at(frame: &[u8], width: u32, height: u32, x: u32, y: u32) -> (px: [u8; 4])
    requires
        frame_holds(frame@, width, height),
        x < width,
        y < height,
    ensures
        px@ == pixel_spec(frame@, width, x, y),
{
    proof {
        lemma_pixel_in_frame(width, height, x, y);
    }
    let len = frame.len();
    assert(len >= width * height * 4);
    let offset = ((y as usize) * (width as usize) + x as usize) * 4;
    let px = [frame[offset], frame[offset + 1], frame[offset + 2], frame[offset + 3]];
    assert(px@ =~= pixel_spec(frame@, width, x, y));
    px
}

} // verus!
