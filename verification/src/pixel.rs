//! The pixel type and the mathematical model of decoding.

use vstd::prelude::*;

verus! {

/// One decoded unit of picture data.
#[derive(Debug, Clone, Copy, PartialEq, Eq, Structural)]
pub enum Pixel {
    /// Red, green and blue channel.
    RGB(u8, u8, u8),
    /// A single black-and-white intensity.
    BW(u8),
}

/// Number of pixels that `len` bytes decode to.
///
/// Without colour every byte is a pixel. With colour every started group of
/// three bytes is a pixel, so a short group at the end still counts.
pub open spec fn pixel_count(len: nat, rgb: bool) -> nat {
    if rgb {
        (len + 2) / 3
    } else {
        len
    }
}

/// The pixel at position `i` of the decoding of `bytes`.
///
/// A colour pixel whose group lacks a byte takes the group's first byte for
/// all three channels.
pub open spec fn pixel_at(bytes: Seq<u8>, rgb: bool, i: int) -> Pixel {
    if !rgb {
        Pixel::BW(bytes[i])
    } else if 3 * i + 3 <= bytes.len() {
        Pixel::RGB(bytes[3 * i], bytes[3 * i + 1], bytes[3 * i + 2])
    } else {
        Pixel::RGB(bytes[3 * i], bytes[3 * i], bytes[3 * i])
    }
}

/// The pixels that `bytes` decode to, in order.
pub open spec fn decode_pixels(bytes: Seq<u8>, rgb: bool) -> Seq<Pixel> {
    Seq::new(pixel_count(bytes.len(), rgb), |i: int| pixel_at(bytes, rgb, i))
}

/// Black-and-white decoding keeps the length, and pixel `i` is byte `i`.
pub proof fn lemma_decode_bw(bytes: Seq<u8>)
    ensures
        decode_pixels(bytes, false).len() == bytes.len(),
        forall|i: int|
            0 <= i < bytes.len() ==> #[trigger] decode_pixels(bytes, false)[i] == Pixel::BW(
                bytes[i],
            ),
{
}

/// Colour decoding of whole groups: a third as many pixels as bytes, and
/// pixel `i` holds bytes `3i`, `3i + 1` and `3i + 2`.
pub proof fn lemma_decode_rgb_whole(bytes: Seq<u8>)
    requires
        bytes.len() % 3 == 0,
    ensures
        decode_pixels(bytes, true).len() == bytes.len() / 3,
        forall|i: int|
            0 <= i < bytes.len() / 3 ==> #[trigger] decode_pixels(bytes, true)[i] == Pixel::RGB(
                bytes[3 * i],
                bytes[3 * i + 1],
                bytes[3 * i + 2],
            ),
{
}

/// Colour decoding with one or two bytes left over: the whole groups decode
/// as usual, and one more pixel follows them, all of whose channels are the
/// first left-over byte.
pub proof fn lemma_decode_rgb_partial(bytes: Seq<u8>)
    requires
        bytes.len() % 3 != 0,
    ensures
        decode_pixels(bytes, true).len() == bytes.len() / 3 + 1,
        forall|i: int|
            0 <= i < bytes.len() / 3 ==> #[trigger] decode_pixels(bytes, true)[i] == Pixel::RGB(
                bytes[3 * i],
                bytes[3 * i + 1],
                bytes[3 * i + 2],
            ),
        ({
            let first_left_over = bytes[3 * (bytes.len() as int / 3)];
            decode_pixels(bytes, true).last() == Pixel::RGB(
                first_left_over,
                first_left_over,
                first_left_over,
            )
        }),
{
}

} // verus!
