//! Properties that relate conversions to one another or hold of every input.
use vstd::prelude::*;

use crate::color::{clamp_spec, luma_value, u_value, v_value};
use crate::convert::{
    channel, chroma_count, chroma_fits, chroma_region_len, output_len, sample_pixel,
    samples_per_row, v_plane_offset, valid_input, yuv420_image, ChromaLayout,
};

verus! {

/// Whether byte `q` of the chroma region receives a chroma sample under
/// `layout`; the bytes that receive none keep the zero they were allocated
/// with.
pub open spec fn chroma_slot_written(layout: ChromaLayout, w: nat, h: nat, q: nat) -> bool {
    let n = chroma_count(w, h);
    let off = v_plane_offset(w, h);
    match layout {
        ChromaLayout::Planar => (q < n && off > 0) || (off <= q && q < off + n),
        ChromaLayout::SemiPlanarNv12 => q < 2 * n,
    }
}

/// Every pixel of the image is black: red, green and blue are all zero.
pub open spec fn all_black(img: Seq<u8>, w: nat, h: nat, bpp: nat) -> bool {
    forall|p: nat, c: nat| p < w * h && c < 3 ==> #[trigger] channel(img, bpp, p, c) == 0
}

/// With both dimensions even, the chroma samples of either layout fit in the
/// output buffer, and there are exactly `w * h / 4` of them.
pub proof fn lemma_even_dimensions_fit(w: nat, h: nat)
    requires
        w % 2 == 0,
        h % 2 == 0,
    ensures
        chroma_fits(ChromaLayout::Planar, w, h),
        chroma_fits(ChromaLayout::SemiPlanarNv12, w, h),
        chroma_count(w, h) == w * h / 4,
        2 * chroma_count(w, h) == chroma_region_len(w, h),
{
    let a = w / 2;
    let b = h / 2;
    assert(w * h == 4 * (a * b)) by (nonlinear_arith)
        requires
            w == 2 * a,
            h == 2 * b,
    ;
    assert(samples_per_row(w) == a);
    assert((h + 1) / 2 == b);
}

/// The `k`-th chroma sample is taken from the pixel at row `2 * (k / s)` and
/// column `2 * (k % s)`, `s` being the number of samples per sampled row: a
/// pixel of even row and even column inside the image.
pub proof fn lemma_sample_inside_image(w: nat, h: nat, k: nat)
    requires
        k < chroma_count(w, h),
    ensures
        ({
            let row = 2 * (k / samples_per_row(w));
            let col = 2 * (k % samples_per_row(w));
            &&& row < h
            &&& col < w
            &&& sample_pixel(w, k) == row * w + col
            &&& sample_pixel(w, k) < w * h
        }),
{
    let s = samples_per_row(w);
    let rows = (h + 1) / 2;
    assert(s > 0) by (nonlinear_arith)
        requires
            k < s * rows,
    ;
    let r = k / s;
    let c = k % s;
    assert(r < rows) by (nonlinear_arith)
        requires
            k < s * rows,
            s > 0,
            r == k / s,
    ;
    assert(2 * r * w == (2 * r) * w);
    assert((2 * r) * w + 2 * c < w * h) by (nonlinear_arith)
        requires
            2 * r + 1 <= h,
            2 * c < w,
    ;
}

/// Both layouts share the luma plane: one byte per pixel, the luma of that
/// pixel, in row-major order.
pub proof fn lemma_variants_share_luma(img: Seq<u8>, w: nat, h: nat, bpp: nat)
    ensures
        yuv420_image(ChromaLayout::Planar, img, w, h, bpp).subrange(0, (w * h) as int)
            == yuv420_image(ChromaLayout::SemiPlanarNv12, img, w, h, bpp).subrange(0, (w * h) as int),
{
    let p = yuv420_image(ChromaLayout::Planar, img, w, h, bpp);
    let s = yuv420_image(ChromaLayout::SemiPlanarNv12, img, w, h, bpp);
    assert(w * h <= output_len(w, h));
    assert(p.subrange(0, (w * h) as int) =~= s.subrange(0, (w * h) as int));
}

/// Where the U bytes of the planar layout end before its V bytes begin, that
/// is where there are no more chroma samples than the V plane offset, both
/// layouts hold the same (U, V) pair for every sample: U at `k` and V at the
/// offset plus `k` in the planar chroma region, U at `2k` and V at `2k + 1` in
/// the NV12 one.
pub proof fn lemma_variants_share_chroma_pairs(img: Seq<u8>, w: nat, h: nat, bpp: nat)
    requires
        chroma_fits(ChromaLayout::Planar, w, h),
        chroma_fits(ChromaLayout::SemiPlanarNv12, w, h),
        chroma_count(w, h) <= v_plane_offset(w, h),
    ensures
        forall|k: int|
            0 <= k < chroma_count(w, h) ==> #[trigger] yuv420_image(
                ChromaLayout::Planar,
                img,
                w,
                h,
                bpp,
            )[w * h + k] == yuv420_image(ChromaLayout::SemiPlanarNv12, img, w, h, bpp)[w * h + 2
                * k],
        forall|k: int|
            0 <= k < chroma_count(w, h) ==> #[trigger] yuv420_image(
                ChromaLayout::Planar,
                img,
                w,
                h,
                bpp,
            )[w * h + v_plane_offset(w, h) + k] == yuv420_image(
                ChromaLayout::SemiPlanarNv12,
                img,
                w,
                h,
                bpp,
            )[w * h + 2 * k + 1],
{
}

/// An all-black image converts to zero luma everywhere and to 128 in every
/// chroma byte that a sample is written to.
pub proof fn lemma_black_image(layout: ChromaLayout, img: Seq<u8>, w: nat, h: nat, bpp: nat)
    requires
        valid_input(img, w, h, bpp),
        all_black(img, w, h, bpp),
    ensures
        yuv420_image(layout, img, w, h, bpp).len() == output_len(w, h),
        forall|i: int|
            0 <= i < w * h ==> #[trigger] yuv420_image(layout, img, w, h, bpp)[i] == 0,
        forall|q: int|
            0 <= q < chroma_region_len(w, h) ==> #[trigger] yuv420_image(layout, img, w, h, bpp)[w
                * h + q] == if chroma_slot_written(layout, w, h, q as nat) {
                128u8
            } else {
                0u8
            },
{
    let image = yuv420_image(layout, img, w, h, bpp);
    assert(luma_value(0, 0, 0) == 0);
    assert(u_value(0, 0, 0) == 128);
    assert(v_value(0, 0, 0) == 128);
    assert(clamp_spec(128) == 128u8);
    assert forall|i: int| 0 <= i < w * h implies #[trigger] image[i] == 0 by {
        assert(channel(img, bpp, i as nat, 0) == 0);
        assert(channel(img, bpp, i as nat, 1) == 0);
        assert(channel(img, bpp, i as nat, 2) == 0);
    }
    assert forall|k: nat| k < chroma_count(w, h) implies {
        let p = #[trigger] sample_pixel(w, k);
        &&& channel(img, bpp, p, 0) == 0
        &&& channel(img, bpp, p, 1) == 0
        &&& channel(img, bpp, p, 2) == 0
    } by {
        lemma_sample_inside_image(w, h, k);
        let p = sample_pixel(w, k);
        assert(channel(img, bpp, p, 0) == 0);
        assert(channel(img, bpp, p, 1) == 0);
        assert(channel(img, bpp, p, 2) == 0);
    }
}

/// The conversion keeps no state: converting the same input twice gives the
/// same bytes.
pub proof fn lemma_conversion_is_deterministic(
    layout: ChromaLayout,
    img: Seq<u8>,
    w: nat,
    h: nat,
    bpp: nat,
    first: Seq<u8>,
    second: Seq<u8>,
)
    requires
        first == yuv420_image(layout, img, w, h, bpp),
        second == yuv420_image(layout, img, w, h, bpp),
    ensures
        first == second,
{
}

/// The unsaturated luma and chroma of any pixel already lie within a byte:
/// saturation changes none of them.
pub proof fn lemma_values_within_byte(r: u8, g: u8, b: u8)
    ensures
        0 <= luma_value(r as int, g as int, b as int) <= 255,
        0 <= u_value(r as int, g as int, b as int) <= 255,
        0 <= v_value(r as int, g as int, b as int) <= 255,
        clamp_spec(luma_value(r as int, g as int, b as int)) == luma_value(r as int, g as int, b as int),
        clamp_spec(u_value(r as int, g as int, b as int)) == u_value(r as int, g as int, b as int),
        clamp_spec(v_value(r as int, g as int, b as int)) == v_value(r as int, g as int, b as int),
{
}

} // verus!
