//! Morton (Z-order) codec for coordinates with four bits per axis.

use vstd::prelude::*;
use vstd::string::StringExecFns;
use crate::coord::UCoord;
use crate::text::binary;
use crate::text::binary_text;
use crate::text::decimal;
use crate::text::decimal_text;

verus! {

/// Number of values one axis may take in the codec.
pub const AXIS_LIMIT: u32 = 16;

/// Number of distinct Morton indices.
pub const INDEX_LIMIT: u32 = 4096;

/// The four low bits of `v`, moved so that bit `i` sits at position `3 * i`.
pub open spec fn spread(v: u32) -> u32 {
    (v & 1) | ((v & 2) << 2) | ((v & 4) << 4) | ((v & 8) << 6)
}

/// Bits `0, 3, 6, 9` of `v`, gathered into the four low bits.
pub open spec fn compact(v: u32) -> u32 {
    (v & 1) | ((v >> 2) & 2) | ((v >> 4) & 4) | ((v >> 6) & 8)
}

/// The interleaving of the four low bits of each axis: bit `3 * i` of the
/// result is bit `i` of `x`, bit `3 * i + 1` that of `y`, bit `3 * i + 2`
/// that of `z`.
pub open spec fn morton_index(x: u32, y: u32, z: u32) -> u32 {
    spread(x) | (spread(y) << 1) | (spread(z) << 2)
}

/// The coordinate whose axes are read off every third bit of `index`.
pub open spec fn morton_point(index: u32) -> UCoord {
    UCoord { x: compact(index), y: compact(index >> 1), z: compact(index >> 2) }
}

fn spread_bits(value: u32) -> (r: u32)
    ensures
        r == spread(value),
        r <= 0x249,
{
    let v0 = value & 0xF;
    let v1 = (v0 | (v0 << 8)) & 0x00F00F;
    let v2 = (v1 | (v1 << 4)) & 0x0C30C3;
    let v3 = (v2 | (v2 << 2)) & 0x249249;
    assert(v3 == spread(value) && v3 <= 0x249) by (bit_vector)
        requires
            v0 == value & 0xF,
            v1 == (v0 | (v0 << 8)) & 0x00F00F,
            v2 == (v1 | (v1 << 4)) & 0x0C30C3,
            v3 == (v2 | (v2 << 2)) & 0x249249,
    ;
    v3
}

fn compact_bits(value: u32) -> (r: u32)
    ensures
        r == compact(value),
        r < 16,
{
    let v0 = value & 0x249249;
    let v1 = (v0 | (v0 >> 2)) & 0x0C30C3;
    let v2 = (v1 | (v1 >> 4)) & 0x00F00F;
    let v3 = (v2 | (v2 >> 8)) & 0x00000F;
    assert(v3 == compact(value) && v3 < 16) by (bit_vector)
        requires
            v0 == value & 0x249249,
            v1 == (v0 | (v0 >> 2)) & 0x0C30C3,
            v2 == (v1 | (v1 >> 4)) & 0x00F00F,
            v3 == (v2 | (v2 >> 8)) & 0x00000F,
    ;
    v3
}

/// Morton index of `point`, taken from the four low bits of each axis.
pub fn to_morton_index(point: UCoord) -> (index: u32)
    ensures
        index == morton_index(point.x, point.y, point.z),
        index < INDEX_LIMIT,
{
    let sx = spread_bits(point.x);
    let sy = spread_bits(point.y);
    let sz = spread_bits(point.z);
    let index = sx | (sy << 1) | (sz << 2);
    assert(index < 4096) by (bit_vector)
        requires
            sx <= 0x249,
            sy <= 0x249,
            sz <= 0x249,
            index == sx | (sy << 1) | (sz << 2),
    ;
    index
}

/// The lines that show how the bits of a point are interleaved.
pub open spec fn visualization(point: UCoord) -> Seq<char> {
    let index = morton_index(point.x, point.y, point.z);
    "\nBit visualization for point ("@ + decimal(point.x as nat) + ", "@ + decimal(
        point.y as nat,
    ) + ", "@ + decimal(point.z as nat) + "):\nX = "@ + binary(point.x as nat, 4)
        + " (binary)\nY = "@ + binary(point.y as nat, 4) + " (binary)\nZ = "@ + binary(
        point.z as nat,
        4,
    ) + " (binary)\nMorton = "@ + binary(index as nat, 12)
        + " (interleaved: ZYXZYXZYXZYX)\nMorton Index = "@ + decimal(index as nat) + "\n"@
}

/// Encoder and decoder between 3D points and Morton indices.
pub struct Morton3D;

impl Morton3D {
    /// Morton index of `point`, or an error when an axis does not fit four
    /// bits.
    pub fn encode(point: UCoord) -> (r: Result<u32, &'static str>)
        ensures
            point.x < AXIS_LIMIT && point.y < AXIS_LIMIT && point.z < AXIS_LIMIT ==> r == Ok::<
                u32,
                &'static str,
            >(morton_index(point.x, point.y, point.z)),
            point.x >= AXIS_LIMIT || point.y >= AXIS_LIMIT || point.z >= AXIS_LIMIT ==> r
                == Err::<u32, &'static str>("Coordinates must be in range [0, 16)"),
    {
        if point.x >= 16 || point.y >= 16 || point.z >= 16 {
            return Err("Coordinates must be in range [0, 16)");
        }
        Ok(to_morton_index(point))
    }

    /// The point whose axes are interleaved in the twelve low bits of
    /// `index`.
    pub fn decode(index: u32) -> (point: UCoord)
        ensures
            point == morton_point(index),
            point.x < AXIS_LIMIT && point.y < AXIS_LIMIT && point.z < AXIS_LIMIT,
    {
        let x = compact_bits(index);
        let y = compact_bits(index >> 1);
        let z = compact_bits(index >> 2);
        UCoord { x, y, z }
    }

    /// The text that shows the bits of each axis of `point` and of its
    /// Morton index, or the encoder's error.
    pub fn visualize_bits(point: UCoord) -> (r: Result<String, &'static str>)
        ensures
            point.x < AXIS_LIMIT && point.y < AXIS_LIMIT && point.z < AXIS_LIMIT ==> (r matches Ok(
                text,
            ) && text@ == visualization(point)),
            point.x >= AXIS_LIMIT || point.y >= AXIS_LIMIT || point.z >= AXIS_LIMIT ==> (
            r matches Err(message) && message == "Coordinates must be in range [0, 16)"),
    {
        let index = match Morton3D::encode(point) {
            Ok(index) => index,
            Err(message) => {
                return Err(message);
            },
        };
        let mut text = String::from_str("\nBit visualization for point (");
        text.append(decimal_text(point.x as usize).as_str());
        text.append(", ");
        text.append(decimal_text(point.y as usize).as_str());
        text.append(", ");
        text.append(decimal_text(point.z as usize).as_str());
        text.append("):\nX = ");
        text.append(binary_text(point.x, 4).as_str());
        text.append(" (binary)\nY = ");
        text.append(binary_text(point.y, 4).as_str());
        text.append(" (binary)\nZ = ");
        text.append(binary_text(point.z, 4).as_str());
        text.append(" (binary)\nMorton = ");
        text.append(binary_text(index, 12).as_str());
        text.append(" (interleaved: ZYXZYXZYXZYX)\nMorton Index = ");
        text.append(decimal_text(index as usize).as_str());
        text.append("\n");
        Ok(text)
    }
}

/// Whether the Morton indices of a cube of this width are exactly the
/// slots below `W^3`: the case for the powers of two up to sixteen.
pub open spec fn is_morton_width(width: int) -> bool {
    width == 1 || width == 2 || width == 4 || width == 8 || width == 16
}

/// The Morton index of a cell of a cube whose width is a power of two lies
/// below the number of cells of that cube.
pub proof fn lemma_morton_range(x: u32, y: u32, z: u32, width: u32)
    requires
        is_morton_width(width as int),
        x < width,
        y < width,
        z < width,
    ensures
        morton_index(x, y, z) < width * width * width,
{
    let w = width as int;
    assert(w * w * w == (if w == 1 {
        1int
    } else if w == 2 {
        8
    } else if w == 4 {
        64
    } else if w == 8 {
        512
    } else {
        4096
    })) by (nonlinear_arith)
        requires
            w == 1 || w == 2 || w == 4 || w == 8 || w == 16,
    ;
    assert(x < 1 && y < 1 && z < 1 ==> morton_index(x, y, z) < 1) by (bit_vector);
    assert(x < 2 && y < 2 && z < 2 ==> morton_index(x, y, z) < 8) by (bit_vector);
    assert(x < 4 && y < 4 && z < 4 ==> morton_index(x, y, z) < 64) by (bit_vector);
    assert(x < 8 && y < 8 && z < 8 ==> morton_index(x, y, z) < 512) by (bit_vector);
    assert(x < 16 && y < 16 && z < 16 ==> morton_index(x, y, z) < 4096) by (bit_vector);
}

/// Decoding inverts encoding on every point the encoder accepts.
pub proof fn lemma_decode_encode(x: u32, y: u32, z: u32)
    requires
        x < AXIS_LIMIT,
        y < AXIS_LIMIT,
        z < AXIS_LIMIT,
    ensures
        morton_point(morton_index(x, y, z)) == (UCoord { x, y, z }),
        morton_index(x, y, z) < INDEX_LIMIT,
{
    let m = morton_index(x, y, z);
    assert(compact(m) == x && compact(m >> 1) == y && compact(m >> 2) == z && m < 4096)
        by (bit_vector)
        requires
            x < 16,
            y < 16,
            z < 16,
            m == morton_index(x, y, z),
    ;
}

/// Encoding inverts decoding on every index below `4096`, and decoding
/// yields a point the encoder accepts.
pub proof fn lemma_encode_decode(index: u32)
    requires
        index < INDEX_LIMIT,
    ensures
        morton_index(morton_point(index).x, morton_point(index).y, morton_point(index).z)
            == index,
        morton_point(index).x < AXIS_LIMIT,
        morton_point(index).y < AXIS_LIMIT,
        morton_point(index).z < AXIS_LIMIT,
{
    let x = compact(index);
    let y = compact(index >> 1);
    let z = compact(index >> 2);
    assert(morton_index(x, y, z) == index && x < 16 && y < 16 && z < 16) by (bit_vector)
        requires
            index < 4096,
            x == compact(index),
            y == compact(index >> 1),
            z == compact(index >> 2),
    ;
}

} // verus!
