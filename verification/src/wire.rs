//! The byte layout of a frame: one plane of packed 32-bit ARGB pixels, four
//! bytes each, rows without padding.

use vstd::prelude::*;

verus! {

/// Byte number `k` of a pixel, counted from the least significant one.
pub open spec fn byte_of(pixel: u32, k: int) -> u8 {
    if k == 0 {
        (pixel & 0xff) as u8
    } else if k == 1 {
        ((pixel >> 8) & 0xff) as u8
    } else if k == 2 {
        ((pixel >> 16) & 0xff) as u8
    } else {
        ((pixel >> 24) & 0xff) as u8
    }
}

/// The pixels as bytes, each pixel least significant byte first.
pub open spec fn little_endian(pixels: Seq<u32>) -> Seq<u8> {
    Seq::new(4 * pixels.len(), |i: int| byte_of(pixels[i / 4], i % 4))
}

/// The pixels as bytes, each pixel most significant byte first.
pub open spec fn big_endian(pixels: Seq<u32>) -> Seq<u8> {
    Seq::new(4 * pixels.len(), |i: int| byte_of(pixels[i / 4], 3 - i % 4))
}

/// Whether `bytes` holds `pixels` as the machine keeps them in memory: four
/// bytes for each pixel, in the one byte order of the machine.
pub open spec fn encodes(bytes: Seq<u8>, pixels: Seq<u32>) -> bool {
    bytes == little_endian(pixels) || bytes == big_endian(pixels)
}

/// Calls `bytemuck::cast_slice` to read a slice of `u32` as a slice of `u8`,
/// and copies the result. The cast reinterprets the memory of the pixels:
/// the contract claims that the result holds four bytes for each pixel, in
/// order, in the byte order of the machine, which is either little or big
/// endian for the whole slice. From `u32` to `u8` the cast cannot fail on
/// alignment or on a remainder.
#[verifier::external_body]
pub(crate) fn pixel_bytes(pixels: &Vec<u32>) -> (bytes: Vec<u8>)
    ensures
        encodes(bytes@, pixels@),
{
    bytemuck::cast_slice::<u32, u8>(pixels.as_slice()).to_vec()
}

} // verus!
