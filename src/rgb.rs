use vstd::prelude::*;

verus! {

/// The red, green and blue channels held in the low 24 bits of `rgb`.
pub open spec fn channels_of(rgb: u32) -> (u8, u8, u8) {
    (((rgb / 0x10000) % 0x100) as u8, ((rgb / 0x100) % 0x100) as u8, (rgb % 0x100) as u8)
}

/// The 24-bit value whose bytes, from high to low, are the three channels.
pub open spec fn packed_of(c: (u8, u8, u8)) -> nat {
    c.0 as nat * 0x10000 + c.1 as nat * 0x100 + c.2 as nat
}

/// Splits a packed `0xRRGGBB` value into its channels; bits above the
/// low 24 are ignored.
pub fn from_u32(rgb: u32) -> (r: (u8, u8, u8))
    ensures
        r == channels_of(rgb),
{
    let red: u32 = (rgb & 0xff0000) >> 16;
    let green: u32 = (rgb & 0x00ff00) >> 8;
    let blue: u32 = rgb & 0x0000ff;
    assert(red == (rgb / 0x10000) % 0x100) by (bit_vector)
        requires red == (rgb & 0xff0000) >> 16;
    assert(green == (rgb / 0x100) % 0x100) by (bit_vector)
        requires green == (rgb & 0x00ff00) >> 8;
    assert(blue == rgb % 0x100) by (bit_vector)
        requires blue == rgb & 0x0000ff;
    (red as u8, green as u8, blue as u8)
}

/// Packs three channels into `0xRRGGBB`; the top byte of the result is zero.
pub fn to_u32(rgb: (u8, u8, u8)) -> (r: u32)
    ensures
        r as nat == packed_of(rgb),
        r < 0x1000000,
{
    let (red, green, blue) = rgb;
    let (x, y, z) = (red as u32, green as u32, blue as u32);
    let packed: u32 = x << 16 | y << 8 | z;
    assert(packed == x * 0x10000 + y * 0x100 + z && packed < 0x1000000) by (bit_vector)
        requires
            packed == x << 16 | y << 8 | z,
            x < 0x100,
            y < 0x100,
            z < 0x100,
    ;
    packed
}

/// Unpacking a packed colour gives back its channels.
pub proof fn lemma_from_packed(c: (u8, u8, u8))
    ensures
        packed_of(c) < 0x1000000,
        channels_of(packed_of(c) as u32) == c,
{
    let (x, y, z) = (c.0 as u32, c.1 as u32, c.2 as u32);
    let v: u32 = (x * 0x10000 + y * 0x100 + z) as u32;
    assert(v == x * 0x10000 + y * 0x100 + z && (v / 0x10000) % 0x100 == x && (v / 0x100) % 0x100 == y
        && v % 0x100 == z) by (bit_vector)
        requires
            v == (x * 0x10000 + y * 0x100 + z) as u32,
            x < 0x100,
            y < 0x100,
            z < 0x100,
    ;
}

/// Packing the channels of a value gives back its low 24 bits.
pub proof fn lemma_to_packed(v: u32)
    ensures
        packed_of(channels_of(v)) == v % 0x1000000,
{
    let x: u32 = (v / 0x10000) % 0x100;
    let y: u32 = (v / 0x100) % 0x100;
    let z: u32 = v % 0x100;
    assert(x * 0x10000 + y * 0x100 + z == v % 0x1000000) by (bit_vector)
        requires
            x == (v / 0x10000) % 0x100,
            y == (v / 0x100) % 0x100,
            z == v % 0x100,
    ;
}

} // verus!
