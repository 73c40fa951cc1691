//! Trail colours: a pixel is a `u32` holding `[0, red, green, blue]` in
//! big-endian byte order.

use vstd::prelude::*;

verus! {

/// The red byte of a pixel.
pub open spec fn red_of(pixel: u32) -> int {
    (pixel as int / 65536) % 256
}

/// The green byte of a pixel.
pub open spec fn green_of(pixel: u32) -> int {
    (pixel as int / 256) % 256
}

/// The blue byte of a pixel.
pub open spec fn blue_of(pixel: u32) -> int {
    pixel as int % 256
}

/// The pixel whose bytes are `[0, red, green, blue]`.
pub open spec fn rgb(red: int, green: int, blue: int) -> int {
    red * 65536 + green * 256 + blue
}

/// Packs a colour `[red, green, blue]` into a pixel `[0, red, green, blue]`
/// (big-endian), the value a blob leaves on the trail map.
pub fn displayed_color(color: [u8; 3]) -> (pixel: u32)
    ensures
        pixel == rgb(color[0] as int, color[1] as int, color[2] as int),
{
    let red: u8 = color[0];
    let green: u8 = color[1];
    let blue: u8 = color[2];
    let pixel: u32 = ((red as u32) << 16u32) | ((green as u32) << 8u32) | (blue as u32);
    assert(pixel == red * 65536 + green * 256 + blue) by (bit_vector)
        requires
            pixel == ((red as u32) << 16u32) | ((green as u32) << 8u32) | (blue as u32),
    ;
    pixel
}

/// Splits a pixel into its `(red, green, blue)` bytes; the top byte is ignored.
pub fn color_channels(pixel: u32) -> (channels: (u8, u8, u8))
    ensures
        channels.0 == red_of(pixel),
        channels.1 == green_of(pixel),
        channels.2 == blue_of(pixel),
{
    let red: u8 = ((pixel >> 16u32) & 0xffu32) as u8;
    let green: u8 = ((pixel >> 8u32) & 0xffu32) as u8;
    let blue: u8 = (pixel & 0xffu32) as u8;
    assert(red == (pixel / 65536) % 256) by (bit_vector)
        requires
            red == ((pixel >> 16u32) & 0xffu32) as u8,
    ;
    assert(green == (pixel / 256) % 256) by (bit_vector)
        requires
            green == ((pixel >> 8u32) & 0xffu32) as u8,
    ;
    assert(blue == pixel % 256) by (bit_vector)
        requires
            blue == (pixel & 0xffu32) as u8,
    ;
    (red, green, blue)
}

/// A pixel's bytes in big-endian order are `[top, red, green, blue]`: red is
/// the third byte from the bottom, green the second, blue the lowest, and a
/// packed colour puts red, green and blue there.
pub proof fn lemma_pixel_byte_order(pixel: u32, red: int, green: int, blue: int)
    ensures
        red_of(pixel) == (pixel as int / 65536) % 256,
        green_of(pixel) == (pixel as int / 256) % 256,
        blue_of(pixel) == pixel as int % 256,
        rgb(red, green, blue) == red * 65536 + green * 256 + blue,
{
}

/// Packing a colour and splitting the pixel again gives the colour back, and
/// a packed colour has a zero top byte.
pub proof fn lemma_channels_of_rgb(red: u8, green: u8, blue: u8)
    ensures
        red_of(rgb(red as int, green as int, blue as int) as u32) == red,
        green_of(rgb(red as int, green as int, blue as int) as u32) == green,
        blue_of(rgb(red as int, green as int, blue as int) as u32) == blue,
        rgb(red as int, green as int, blue as int) < 0x100_0000,
{
    let p: int = rgb(red as int, green as int, blue as int);
    assert(0 <= p < 0x100_0000);
    assert(p / 65536 == red) by (nonlinear_arith)
        requires p == red * 65536 + green * 256 + blue, red < 256, green < 256, blue < 256;
    assert((p / 256) == red * 256 + green) by (nonlinear_arith)
        requires p == red * 65536 + green * 256 + blue, red < 256, green < 256, blue < 256;
    assert((red * 256 + green) % 256 == green) by (nonlinear_arith)
        requires red < 256, green < 256;
    assert(p % 256 == blue) by (nonlinear_arith)
        requires p == red * 65536 + green * 256 + blue, red < 256, green < 256, blue < 256;
}

} // verus!
