//! Pixel packing: RGBA bytes to one `u32` per pixel and back.
//!
//! A pixel is packed little-endian, so its four bytes in memory order are
//! red, green, blue, alpha (the layout of a browser `ImageData`).
use vstd::prelude::*;

verus! {

/// The byte of `p` at little-endian position `k` (0 is the lowest byte).
pub open spec fn le_byte(p: u32, k: int) -> u8 {
    if k == 0 {
        (p & 0xff) as u8
    } else if k == 1 {
        ((p >> 8u32) & 0xff) as u8
    } else if k == 2 {
        ((p >> 16u32) & 0xff) as u8
    } else {
        ((p >> 24u32) & 0xff) as u8
    }
}

/// The little-endian bytes of every pixel, one pixel after another.
pub open spec fn pixel_bytes(px: Seq<u32>) -> Seq<u8> {
    Seq::new(4 * px.len(), |j: int| le_byte(px[j / 4], j % 4))
}

/// The value of a pixel whose bytes, lowest first, are `r`, `g`, `b`, `a`.
pub open spec fn packed(r: u8, g: u8, b: u8, a: u8) -> int {
    a * 0x100_0000 + b * 0x1_0000 + g * 0x100 + r
}

/// The pixels made from consecutive groups of four bytes (red, green, blue,
/// alpha); bytes left over after the last full group are ignored.
pub open spec fn texels_from_rgba(data: Seq<u8>) -> Seq<u32> {
    Seq::new(
        data.len() / 4,
        |i: int| packed(data[4 * i], data[4 * i + 1], data[4 * i + 2], data[4 * i + 3]) as u32,
    )
}

/// Packs four colour channels into one pixel, alpha in the highest byte.
pub fn pack_rgba(r: u8, g: u8, b: u8, a: u8) -> (p: u32)
    ensures
        p == packed(r, g, b, a),
{
    let p = ((a as u32) << 24) | ((b as u32) << 16) | ((g as u32) << 8) | (r as u32);
    assert(((a as u32) << 24) | ((b as u32) << 16) | ((g as u32) << 8) | (r as u32) == a
        * 0x100_0000u32 + b * 0x1_0000u32 + g * 0x100u32 + r) by (bit_vector);
    p
}

/// The four little-endian bytes of a packed pixel are the channels it was
/// packed from, in the order red, green, blue, alpha.
pub proof fn lemma_pack_bytes(r: u8, g: u8, b: u8, a: u8)
    ensures
        0 <= packed(r, g, b, a) <= u32::MAX,
        le_byte(packed(r, g, b, a) as u32, 0) == r,
        le_byte(packed(r, g, b, a) as u32, 1) == g,
        le_byte(packed(r, g, b, a) as u32, 2) == b,
        le_byte(packed(r, g, b, a) as u32, 3) == a,
{
    let p: u32 = packed(r, g, b, a) as u32;
    assert((p & 0xff) as u8 == r && ((p >> 8u32) & 0xff) as u8 == g && ((p >> 16u32) & 0xff) as u8
        == b && ((p >> 24u32) & 0xff) as u8 == a) by (bit_vector)
        requires
            p == (a as u32) * 0x100_0000u32 + (b as u32) * 0x1_0000u32 + (g as u32) * 0x100u32 + (
            r as u32),
    ;
}

/// Converts RGBA bytes into packed pixels, one pixel per full group of four
/// bytes.
pub fn texture_from_rgba(data: &Vec<u8>) -> (texels: Vec<u32>)
    ensures
        texels@ == texels_from_rgba(data@),
{
    let n = data.len() / 4;
    let mut texels: Vec<u32> = Vec::with_capacity(n);
    let mut i: usize = 0;
    while i < n
        invariant
            n == data.len() / 4,
            i <= n,
            texels@ == texels_from_rgba(data@).take(i as int),
        decreases n - i,
    {
        let base = 4 * i;
        let p = pack_rgba(data[base], data[base + 1], data[base + 2], data[base + 3]);
        texels.push(p);
        i += 1;
        assert(texels@ =~= texels_from_rgba(data@).take(i as int));
    }
    assert(texels_from_rgba(data@).take(n as int) =~= texels_from_rgba(data@));
    texels
}

/// Lays out the pixels as bytes, the four little-endian bytes of each pixel
/// in turn.
pub fn pixels_to_le_bytes(pixels: &Vec<u32>) -> (bytes: Vec<u8>)
    requires
        4 * pixels.len() <= usize::MAX,
    ensures
        bytes@ == pixel_bytes(pixels@),
{
    let n = pixels.len();
    let mut bytes: Vec<u8> = Vec::with_capacity(4 * n);
    let mut i: usize = 0;
    while i < n
        invariant
            n == pixels.len(),
            i <= n,
            bytes@ == pixel_bytes(pixels@.take(i as int)),
        decreases n - i,
    {
        let p = pixels[i];
        bytes.push((p & 0xff) as u8);
        bytes.push(((p >> 8) & 0xff) as u8);
        bytes.push(((p >> 16) & 0xff) as u8);
        bytes.push(((p >> 24) & 0xff) as u8);
        i += 1;
        assert(bytes@ =~= pixel_bytes(pixels@.take(i as int)));
    }
    assert(pixels@.take(n as int) =~= pixels@);
    bytes
}

/// Packing texture bytes into pixels and laying the pixels out as bytes again
/// gives back the texture bytes, up to the last full group of four.
pub proof fn lemma_texture_bytes_roundtrip(data: Seq<u8>)
    ensures
        pixel_bytes(texels_from_rgba(data)) == data.take(4 * (data.len() / 4) as int),
{
    let t = texels_from_rgba(data);
    assert forall|j: int| 0 <= j < 4 * (data.len() / 4) implies #[trigger] pixel_bytes(t)[j]
        == data[j] by {
        let i = j / 4;
        lemma_pack_bytes(data[4 * i], data[4 * i + 1], data[4 * i + 2], data[4 * i + 3]);
    }
    assert(pixel_bytes(t) =~= data.take(4 * (data.len() / 4) as int));
}

/// Laying pixels out as bytes and packing the bytes again gives back the
/// pixels.
pub proof fn lemma_pixel_bytes_roundtrip(pixels: Seq<u32>)
    ensures
        texels_from_rgba(pixel_bytes(pixels)) == pixels,
{
    let bytes = pixel_bytes(pixels);
    assert forall|i: int| 0 <= i < pixels.len() implies #[trigger] texels_from_rgba(bytes)[i]
        == pixels[i] by {
        let p = pixels[i];
        assert(bytes[4 * i] == le_byte(p, 0));
        assert(bytes[4 * i + 1] == le_byte(p, 1));
        assert(bytes[4 * i + 2] == le_byte(p, 2));
        assert(bytes[4 * i + 3] == le_byte(p, 3));
        let r = (p & 0xff) as u8;
        let g = ((p >> 8u32) & 0xff) as u8;
        let b = ((p >> 16u32) & 0xff) as u8;
        let a = ((p >> 24u32) & 0xff) as u8;
        assert((a as u32) * 0x100_0000u32 + (b as u32) * 0x1_0000u32 + (g as u32) * 0x100u32 + (
        r as u32) == p) by (bit_vector)
            requires
                r == (p & 0xff) as u8,
                g == ((p >> 8u32) & 0xff) as u8,
                b == ((p >> 16u32) & 0xff) as u8,
                a == ((p >> 24u32) & 0xff) as u8,
        ;
    }
    assert(texels_from_rgba(bytes) =~= pixels);
}

/// Bytes after the last full group of four make no pixel: the pixels of the
/// first `4 * n` bytes are the first `n` pixels.
pub proof fn lemma_texels_of_prefix(data: Seq<u8>, n: nat)
    requires
        4 * n <= data.len(),
    ensures
        texels_from_rgba(data.take(4 * n as int)) == texels_from_rgba(data).take(n as int),
{
    assert(texels_from_rgba(data.take(4 * n as int)) =~= texels_from_rgba(data).take(n as int));
}

/// The bytes of a frame, as numbers: byte `4 * i + c` is digit `c` of pixel
/// `i` written in base 256, lowest digit first.
pub proof fn lemma_pixel_bytes_digits(pixels: Seq<u32>, i: int)
    requires
        0 <= i < pixels.len(),
    ensures
        pixel_bytes(pixels).len() == 4 * pixels.len(),
        pixel_bytes(pixels)[4 * i] == pixels[i] % 256,
        pixel_bytes(pixels)[4 * i + 1] == (pixels[i] / 256) % 256,
        pixel_bytes(pixels)[4 * i + 2] == (pixels[i] / 65536) % 256,
        pixel_bytes(pixels)[4 * i + 3] == pixels[i] / 16777216,
{
    let p = pixels[i];
    assert((4 * i) / 4 == i && (4 * i) % 4 == 0);
    assert((4 * i + 1) / 4 == i && (4 * i + 1) % 4 == 1);
    assert((4 * i + 2) / 4 == i && (4 * i + 2) % 4 == 2);
    assert((4 * i + 3) / 4 == i && (4 * i + 3) % 4 == 3);
    assert((p & 0xff) == p % 256 && ((p >> 8u32) & 0xff) == (p / 256) % 256 && ((p >> 16u32)
        & 0xff) == (p / 65536) % 256 && ((p >> 24u32) & 0xff) == p / 16777216) by (bit_vector);
}

/// The pixels of RGBA bytes, as numbers: pixel `i` is the four bytes from
/// `4 * i` on, read as a base-256 number with the first (red) byte lowest.
pub proof fn lemma_texels_digits(data: Seq<u8>, i: int)
    requires
        0 <= i < data.len() / 4,
    ensures
        texels_from_rgba(data).len() == data.len() / 4,
        texels_from_rgba(data)[i] == data[4 * i] + 256 * data[4 * i + 1] + 65536 * data[4 * i
            + 2] + 16777216 * data[4 * i + 3],
{
    lemma_pack_bytes(data[4 * i], data[4 * i + 1], data[4 * i + 2], data[4 * i + 3]);
}

} // verus!
