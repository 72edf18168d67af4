//! Fixed-point BT.601-style colour transform of a single pixel.
use vstd::prelude::*;

verus! {

/// `v` saturated to the range of a byte.
pub open spec fn clamp_spec(v: int) -> u8 {
    if v < 0 {
        0
    } else if v > 255 {
        255
    } else {
        v as u8
    }
}

/// Luma before saturation: `(77 R + 150 G + 29 B + 128) >> 8`.
pub open spec fn luma_value(r: int, g: int, b: int) -> int {
    (77 * r + 150 * g + 29 * b + 128) / 256
}

/// Blue-difference chroma before saturation: `((-43 R - 84 G + 127 B + 128) >> 8) + 128`.
pub open spec fn u_value(r: int, g: int, b: int) -> int {
    (-43 * r - 84 * g + 127 * b + 128) / 256 + 128
}

/// Red-difference chroma before saturation: `((127 R - 106 G - 21 B + 128) >> 8) + 128`.
pub open spec fn v_value(r: int, g: int, b: int) -> int {
    (127 * r - 106 * g - 21 * b + 128) / 256 + 128
}

/// Saturates `val` to `0..=255`.
pub fn clamp(val: i32) -> (r: u8)
    ensures
        r == clamp_spec(val as int),
{
    if val < 0 {
        0
    } else if val > 255 {
        255
    } else {
        val as u8
    }
}

/// An arithmetic right shift by eight is a floor division by 256.
proof fn lemma_shr8_is_floor_div(x: i32)
    requires
        -65536 <= x <= 65536,
    ensures
        (x >> 8) as int == x as int / 256,
{
    let q = x >> 8;
    assert(q * 256 <= x && x < q * 256 + 256) by (bit_vector)
        requires
            -65536 <= x <= 65536,
            q == x >> 8,
    ;
}

/// The saturated Y, U and V samples of the pixel `(r, g, b)`.
pub fn rgb_to_yuv(r: u8, g: u8, b: u8) -> (yuv: (u8, u8, u8))
    ensures
        yuv.0 == clamp_spec(luma_value(r as int, g as int, b as int)),
        yuv.1 == clamp_spec(u_value(r as int, g as int, b as int)),
        yuv.2 == clamp_spec(v_value(r as int, g as int, b as int)),
{
    let r = r as i32;
    let g = g as i32;
    let b = b as i32;
    let y_sum: i32 = 77 * r + 150 * g + 29 * b + 128;
    let u_sum: i32 = 127 * b + 128 - 43 * r - 84 * g;
    let v_sum: i32 = 127 * r + 128 - 106 * g - 21 * b;
    proof {
        lemma_shr8_is_floor_div(y_sum);
        lemma_shr8_is_floor_div(u_sum);
        lemma_shr8_is_floor_div(v_sum);
    }
    let y: i32 = y_sum >> 8;
    let u: i32 = (u_sum >> 8) + 128;
    let v: i32 = (v_sum >> 8) + 128;
    (clamp(y), clamp(u), clamp(v))
}

} // verus!
