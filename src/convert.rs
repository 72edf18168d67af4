//! The conversion kernel and its two output layouts.
use vstd::arithmetic::div_mod::lemma_fundamental_div_mod_converse;
use vstd::prelude::*;

use crate::color::{clamp_spec, luma_value, rgb_to_yuv, u_value, v_value};

verus! {

/// Where the chroma samples go after the luma plane.
#[derive(Clone, Copy, Debug, PartialEq, Eq, Structural)]
pub enum ChromaLayout {
    /// A U plane followed by a V plane (YUV420p).
    Planar,
    /// U and V interleaved in one plane (NV12).
    SemiPlanarNv12,
}

/// Number of luma samples: one per pixel.
pub open spec fn frame_size(w: nat, h: nat) -> nat {
    w * h
}

/// Length of the output buffer: `w * h * 3 / 2`.
pub open spec fn output_len(w: nat, h: nat) -> nat {
    w * h * 3 / 2
}

/// Number of bytes after the luma plane.
pub open spec fn chroma_region_len(w: nat, h: nat) -> nat {
    (output_len(w, h) - frame_size(w, h)) as nat
}

/// Nominal size of one chroma plane: `w * h / 4`.
pub open spec fn chroma_plane_size(w: nat, h: nat) -> nat {
    w * h / 4
}

/// Distance from the start of the U plane to the start of the V plane in the
/// planar layout: half the chroma plane size, rounded up.
pub open spec fn v_plane_offset(w: nat, h: nat) -> nat {
    (chroma_plane_size(w, h) + 1) / 2
}

/// Chroma samples taken from one even row: one per even column.
pub open spec fn samples_per_row(w: nat) -> nat {
    (w + 1) / 2
}

/// Chroma samples in the whole image: one per pixel at an even row and an
/// even column.
pub open spec fn chroma_count(w: nat, h: nat) -> nat {
    samples_per_row(w) * ((h + 1) / 2)
}

/// Row-major index of the pixel from which the `k`-th chroma sample is taken.
pub open spec fn sample_pixel(w: nat, k: nat) -> nat {
    2 * (k / samples_per_row(w)) * w + 2 * (k % samples_per_row(w))
}

/// Sample `c` (0 red, 1 green, 2 blue) of pixel `p`.
pub open spec fn channel(img: Seq<u8>, bpp: nat, p: nat, c: nat) -> int {
    img[(p * bpp + c) as int] as int
}

/// The luma byte of pixel `p`.
pub open spec fn luma_at(img: Seq<u8>, bpp: nat, p: nat) -> u8 {
    clamp_spec(luma_value(channel(img, bpp, p, 0), channel(img, bpp, p, 1), channel(img, bpp, p, 2)))
}

/// The U byte of pixel `p`.
pub open spec fn u_at(img: Seq<u8>, bpp: nat, p: nat) -> u8 {
    clamp_spec(u_value(channel(img, bpp, p, 0), channel(img, bpp, p, 1), channel(img, bpp, p, 2)))
}

/// The V byte of pixel `p`.
pub open spec fn v_at(img: Seq<u8>, bpp: nat, p: nat) -> u8 {
    clamp_spec(v_value(channel(img, bpp, p, 0), channel(img, bpp, p, 1), channel(img, bpp, p, 2)))
}

/// Byte `q` of the planar chroma region once the first `n` samples are
/// stored, sample `k` writing U at `k` and then V at `off + k`. A later write
/// to a byte replaces an earlier one; bytes never written stay zero.
pub open spec fn planar_chroma_byte(img: Seq<u8>, w: nat, bpp: nat, off: nat, n: nat, q: nat) -> u8 {
    if q < n && off > 0 {
        u_at(img, bpp, sample_pixel(w, q))
    } else if off <= q && q < off + n {
        v_at(img, bpp, sample_pixel(w, (q - off) as nat))
    } else {
        0
    }
}

/// Byte `q` of the NV12 chroma region once the first `n` samples are stored,
/// sample `k` writing U at `2k` and V at `2k + 1`; bytes never written stay
/// zero.
pub open spec fn nv12_chroma_byte(img: Seq<u8>, w: nat, bpp: nat, n: nat, q: nat) -> u8 {
    if q < 2 * n {
        if q % 2 == 0 {
            u_at(img, bpp, sample_pixel(w, q / 2))
        } else {
            v_at(img, bpp, sample_pixel(w, q / 2))
        }
    } else {
        0
    }
}

/// Byte `q` of the chroma region once the first `n` samples are stored.
pub open spec fn chroma_byte(
    layout: ChromaLayout,
    img: Seq<u8>,
    w: nat,
    h: nat,
    bpp: nat,
    n: nat,
    q: nat,
) -> u8 {
    match layout {
        ChromaLayout::Planar => planar_chroma_byte(img, w, bpp, v_plane_offset(w, h), n, q),
        ChromaLayout::SemiPlanarNv12 => nv12_chroma_byte(img, w, bpp, n, q),
    }
}

/// The converted image: the luma plane, then the chroma region holding every
/// chroma sample.
pub open spec fn yuv420_image(layout: ChromaLayout, img: Seq<u8>, w: nat, h: nat, bpp: nat) -> Seq<u8> {
    Seq::new(
        output_len(w, h),
        |i: int|
            if i < frame_size(w, h) {
                luma_at(img, bpp, i as nat)
            } else {
                chroma_byte(layout, img, w, h, bpp, chroma_count(w, h), (i - frame_size(w, h)) as nat)
            },
    )
}

/// The input holds every pixel of a `w` by `h` image with a stride of `bpp`
/// bytes, each pixel starting with red, green and blue.
pub open spec fn valid_input(img: Seq<u8>, w: nat, h: nat, bpp: nat) -> bool {
    bpp >= 3 && w * h * bpp <= img.len()
}

/// Every chroma byte that `layout` writes lies inside the output buffer. This
/// holds whenever both dimensions are even; with an odd one, more chroma
/// samples are taken than the chroma region has room for.
pub open spec fn chroma_fits(layout: ChromaLayout, w: nat, h: nat) -> bool {
    match layout {
        ChromaLayout::Planar => chroma_count(w, h) == 0 || v_plane_offset(w, h) + chroma_count(w, h)
            <= chroma_region_len(w, h),
        ChromaLayout::SemiPlanarNv12 => 2 * chroma_count(w, h) <= chroma_region_len(w, h),
    }
}

/// Pixel `(j, i)` lies inside the input buffer, with its three colour samples.
proof fn lemma_pixel_in_bounds(w: nat, h: nat, bpp: nat, j: nat, i: nat)
    requires
        j < h,
        i < w,
        bpp >= 3,
    ensures
        j * w + i < w * h,
        (j * w + i) * bpp + 2 < w * h * bpp,
        w * h <= w * h * bpp,
        w * h * 3 <= w * h * bpp,
{
    assert(j * w + i + 1 <= w * h) by (nonlinear_arith)
        requires
            j < h,
            i < w,
    ;
    assert((j * w + i + 1) * bpp <= w * h * bpp) by (nonlinear_arith)
        requires
            j * w + i + 1 <= w * h,
    ;
    assert((j * w + i) * bpp + 2 < (j * w + i + 1) * bpp) by (nonlinear_arith)
        requires
            bpp >= 3,
    ;
    assert(w * h * 3 <= w * h * bpp) by (nonlinear_arith)
        requires
            bpp >= 3,
    ;
}

/// The sample taken at the even row `j` and even column `i` is the one counted
/// after all those of the earlier even rows and earlier even columns.
proof fn lemma_sample_position(w: nat, h: nat, j: nat, i: nat)
    requires
        j % 2 == 0,
        i % 2 == 0,
        i < w,
        j < h,
    ensures
        sample_pixel(w, (j / 2) * samples_per_row(w) + i / 2) == j * w + i,
        (j / 2) * samples_per_row(w) + i / 2 < chroma_count(w, h),
{
    let s = samples_per_row(w);
    let k = (j / 2) * s + i / 2;
    lemma_fundamental_div_mod_converse(k as int, s as int, (j / 2) as int, (i / 2) as int);
    assert(2 * (j / 2) * w == j * w) by (nonlinear_arith)
        requires
            j % 2 == 0,
    ;
    assert((j / 2) * s + s <= s * ((h + 1) / 2)) by (nonlinear_arith)
        requires
            j / 2 + 1 <= (h + 1) / 2,
    ;
}

/// Offset of the next chroma byte in the buffer once `k` samples are stored.
pub open spec fn chroma_cursor(layout: ChromaLayout, w: nat, h: nat, k: nat) -> nat {
    match layout {
        ChromaLayout::Planar => w * h + k,
        ChromaLayout::SemiPlanarNv12 => w * h + 2 * k,
    }
}

/// Stores the planar chroma sample `k`: U at the cursor, V `v_offset` bytes
/// after it; the cursor moves on by one.
fn store_uv_planar(
    yuv: &mut Vec<u8>,
    uv_index: &mut usize,
    v_offset: usize,
    u: u8,
    v: u8,
    Ghost(img): Ghost<Seq<u8>>,
    Ghost(w): Ghost<nat>,
    Ghost(h): Ghost<nat>,
    Ghost(bpp): Ghost<nat>,
    Ghost(k): Ghost<nat>,
)
    requires
        old(yuv)@.len() == output_len(w, h),
        output_len(w, h) <= usize::MAX,
        *old(uv_index) == chroma_cursor(ChromaLayout::Planar, w, h, k),
        v_offset == v_plane_offset(w, h),
        k < chroma_count(w, h),
        chroma_fits(ChromaLayout::Planar, w, h),
        u == u_at(img, bpp, sample_pixel(w, k)),
        v == v_at(img, bpp, sample_pixel(w, k)),
        forall|q: int|
            0 <= q < chroma_region_len(w, h) ==> #[trigger] old(yuv)@[w * h + q]
                == planar_chroma_byte(img, w, bpp, v_offset as nat, k, q as nat),
    ensures
        final(yuv)@.len() == output_len(w, h),
        *final(uv_index) == chroma_cursor(ChromaLayout::Planar, w, h, k + 1),
        forall|p: int| 0 <= p < w * h ==> #[trigger] final(yuv)@[p] == old(yuv)@[p],
        forall|q: int|
            0 <= q < chroma_region_len(w, h) ==> #[trigger] final(yuv)@[w * h + q]
                == planar_chroma_byte(img, w, bpp, v_offset as nat, k + 1, q as nat),
{
    let ghost before = yuv@;
    let at: usize = *uv_index;
    yuv.set(at, u);
    yuv.set(at + v_offset, v);
    *uv_index = at + 1;
    assert forall|q: int| 0 <= q < chroma_region_len(w, h) implies #[trigger] yuv@[w * h + q]
        == planar_chroma_byte(img, w, bpp, v_offset as nat, k + 1, q as nat) by {
        assert(before[w * h + q] == planar_chroma_byte(img, w, bpp, v_offset as nat, k, q as nat));
    }
}

/// Stores the NV12 chroma sample `k`: U and then V at the cursor, which moves
/// on by two.
fn store_uv_nv12(
    yuv: &mut Vec<u8>,
    uv_index: &mut usize,
    u: u8,
    v: u8,
    Ghost(img): Ghost<Seq<u8>>,
    Ghost(w): Ghost<nat>,
    Ghost(h): Ghost<nat>,
    Ghost(bpp): Ghost<nat>,
    Ghost(k): Ghost<nat>,
)
    requires
        old(yuv)@.len() == output_len(w, h),
        output_len(w, h) <= usize::MAX,
        *old(uv_index) == chroma_cursor(ChromaLayout::SemiPlanarNv12, w, h, k),
        k < chroma_count(w, h),
        chroma_fits(ChromaLayout::SemiPlanarNv12, w, h),
        u == u_at(img, bpp, sample_pixel(w, k)),
        v == v_at(img, bpp, sample_pixel(w, k)),
        forall|q: int|
            0 <= q < chroma_region_len(w, h) ==> #[trigger] old(yuv)@[w * h + q]
                == nv12_chroma_byte(img, w, bpp, k, q as nat),
    ensures
        final(yuv)@.len() == output_len(w, h),
        *final(uv_index) == chroma_cursor(ChromaLayout::SemiPlanarNv12, w, h, k + 1),
        forall|p: int| 0 <= p < w * h ==> #[trigger] final(yuv)@[p] == old(yuv)@[p],
        forall|q: int|
            0 <= q < chroma_region_len(w, h) ==> #[trigger] final(yuv)@[w * h + q]
                == nv12_chroma_byte(img, w, bpp, k + 1, q as nat),
{
    let ghost before = yuv@;
    let at: usize = *uv_index;
    yuv.set(at, u);
    yuv.set(at + 1, v);
    *uv_index = at + 2;
    assert forall|q: int| 0 <= q < chroma_region_len(w, h) implies #[trigger] yuv@[w * h + q]
        == nv12_chroma_byte(img, w, bpp, k + 1, q as nat) by {
        assert(before[w * h + q] == nv12_chroma_byte(img, w, bpp, k, q as nat));
        if q == 2 * k || q == 2 * k + 1 {
            assert(q / 2 == k);
        }
    }
}

/// Stores the chroma sample `k` as `layout` places it and advances the cursor.
fn store_uv(
    yuv: &mut Vec<u8>,
    uv_index: &mut usize,
    v_offset: usize,
    layout: ChromaLayout,
    u: u8,
    v: u8,
    Ghost(img): Ghost<Seq<u8>>,
    Ghost(w): Ghost<nat>,
    Ghost(h): Ghost<nat>,
    Ghost(bpp): Ghost<nat>,
    Ghost(k): Ghost<nat>,
)
    requires
        old(yuv)@.len() == output_len(w, h),
        output_len(w, h) <= usize::MAX,
        *old(uv_index) == chroma_cursor(layout, w, h, k),
        v_offset == v_plane_offset(w, h),
        k < chroma_count(w, h),
        chroma_fits(layout, w, h),
        u == u_at(img, bpp, sample_pixel(w, k)),
        v == v_at(img, bpp, sample_pixel(w, k)),
        forall|q: int|
            0 <= q < chroma_region_len(w, h) ==> #[trigger] old(yuv)@[w * h + q] == chroma_byte(
                layout,
                img,
                w,
                h,
                bpp,
                k,
                q as nat,
            ),
    ensures
        final(yuv)@.len() == output_len(w, h),
        *final(uv_index) == chroma_cursor(layout, w, h, k + 1),
        forall|p: int| 0 <= p < w * h ==> #[trigger] final(yuv)@[p] == old(yuv)@[p],
        forall|q: int|
            0 <= q < chroma_region_len(w, h) ==> #[trigger] final(yuv)@[w * h + q] == chroma_byte(
                layout,
                img,
                w,
                h,
                bpp,
                k + 1,
                q as nat,
            ),
{
    match layout {
        ChromaLayout::Planar => store_uv_planar(
            yuv,
            uv_index,
            v_offset,
            u,
            v,
            Ghost(img),
            Ghost(w),
            Ghost(h),
            Ghost(bpp),
            Ghost(k),
        ),
        ChromaLayout::SemiPlanarNv12 => store_uv_nv12(
            yuv,
            uv_index,
            u,
            v,
            Ghost(img),
            Ghost(w),
            Ghost(h),
            Ghost(bpp),
            Ghost(k),
        ),
    }
}

/// Converts `img` (`width` by `height` pixels, `bytes_per_pixel` bytes each,
/// red, green and blue first) to YUV 4:2:0 with the chroma placed as `layout`
/// says. Chroma is point-sampled at the pixels of even row and even column.
pub fn convert_rgb_to_yuv420(
    img: &[u8],
    width: u32,
    height: u32,
    bytes_per_pixel: usize,
    layout: ChromaLayout,
) -> (yuv: Vec<u8>)
    requires
        valid_input(img@, width as nat, height as nat, bytes_per_pixel as nat),
        chroma_fits(layout, width as nat, height as nat),
    ensures
        yuv@ == yuv420_image(layout, img@, width as nat, height as nat, bytes_per_pixel as nat),
{
    let ghost w = width as nat;
    let ghost h = height as nat;
    let ghost bpp = bytes_per_pixel as nat;
    let ghost img_s = img@;
    let ghost s = samples_per_row(w);
    proof {
        if w > 0 && h > 0 {
            lemma_pixel_in_bounds(w, h, bpp, 0, 0);
        } else {
            assert(w * h == 0) by (nonlinear_arith)
                requires
                    w == 0 || h == 0,
            ;
        }
        assert(0 * s == 0);
    }
    let img_len: usize = img.len();
    let frame_size: usize = (width as usize) * (height as usize);
    let chroma_size: usize = frame_size / 4;
    let v_offset: usize = (chroma_size + 1) / 2;
    let out_len: usize = frame_size * 3 / 2;
    let mut yuv: Vec<u8> = vec![0u8; out_len];
    let mut y_index: usize = 0;
    let mut uv_index: usize = frame_size;
    let mut index: usize = 0;
    let ghost mut k: nat = 0;
    let mut j: u32 = 0;
    while j < height
        invariant
            j <= height,
            w == width,
            h == height,
            bpp == bytes_per_pixel,
            img_s == img@,
            s == samples_per_row(w),
            valid_input(img_s, w, h, bpp),
            img_len == img_s.len(),
            chroma_fits(layout, w, h),
            frame_size == w * h,
            out_len == output_len(w, h),
            v_offset == v_plane_offset(w, h),
            yuv@.len() == out_len,
            index == j * w,
            y_index == index,
            k == ((j + 1) / 2) * s,
            uv_index == chroma_cursor(layout, w, h, k),
            forall|p: int| 0 <= p < y_index ==> #[trigger] yuv@[p] == luma_at(img_s, bpp, p as nat),
            forall|p: int| y_index <= p < frame_size ==> #[trigger] yuv@[p] == 0,
            forall|q: int|
                0 <= q < chroma_region_len(w, h) ==> #[trigger] yuv@[w * h + q] == chroma_byte(
                    layout,
                    img_s,
                    w,
                    h,
                    bpp,
                    k,
                    q as nat,
                ),
        decreases height - j,
    {
        let mut i: u32 = 0;
        while i < width
            invariant
                j < height,
                i <= width,
                w == width,
                h == height,
                bpp == bytes_per_pixel,
                img_s == img@,
                s == samples_per_row(w),
                valid_input(img_s, w, h, bpp),
                img_len == img_s.len(),
                chroma_fits(layout, w, h),
                frame_size == w * h,
                out_len == output_len(w, h),
                v_offset == v_plane_offset(w, h),
                yuv@.len() == out_len,
                index == j * w + i,
                y_index == index,
                k == ((j + 1) / 2) * s + if j % 2 == 0 {
                    (i + 1) / 2
                } else {
                    0
                },
                uv_index == chroma_cursor(layout, w, h, k),
                forall|p: int| 0 <= p < y_index ==> #[trigger] yuv@[p] == luma_at(img_s, bpp, p as nat),
                forall|p: int| y_index <= p < frame_size ==> #[trigger] yuv@[p] == 0,
                forall|q: int|
                    0 <= q < chroma_region_len(w, h) ==> #[trigger] yuv@[w * h + q] == chroma_byte(
                        layout,
                        img_s,
                        w,
                        h,
                        bpp,
                        k,
                        q as nat,
                    ),
            decreases width - i,
        {
            proof {
                lemma_pixel_in_bounds(w, h, bpp, j as nat, i as nat);
            }
            let base: usize = index * bytes_per_pixel;
            let (y, u, v) = rgb_to_yuv(img[base], img[base + 1], img[base + 2]);
            yuv.set(y_index, y);
            y_index += 1;
            if j % 2 == 0 && i % 2 == 0 {
                proof {
                    lemma_sample_position(w, h, j as nat, i as nat);
                    assert(k == (j / 2) * s + i / 2);
                }
                store_uv(
                    &mut yuv,
                    &mut uv_index,
                    v_offset,
                    layout,
                    u,
                    v,
                    Ghost(img_s),
                    Ghost(w),
                    Ghost(h),
                    Ghost(bpp),
                    Ghost(k),
                );
                proof {
                    k = k + 1;
                }
            }
            index += 1;
            i += 1;
        }
        proof {
            assert(j * w + w == (j + 1) * w) by (nonlinear_arith);
            if j % 2 == 0 {
                assert((j / 2) * s + s == (j / 2 + 1) * s) by (nonlinear_arith);
            }
        }
        j += 1;
    }
    proof {
        assert(k == chroma_count(w, h)) by (nonlinear_arith)
            requires
                k == ((h + 1) / 2) * s,
                s == samples_per_row(w),
        ;
        assert(y_index == w * h) by (nonlinear_arith)
            requires
                y_index == h * w,
        ;
        assert forall|i: int| 0 <= i < out_len implies #[trigger] yuv@[i] == yuv420_image(
            layout,
            img_s,
            w,
            h,
            bpp,
        )[i] by {
            if i >= w * h {
                let q = i - w * h;
                assert(yuv@[w * h + q] == chroma_byte(layout, img_s, w, h, bpp, k, q as nat));
            }
        }
        assert(yuv@ =~= yuv420_image(layout, img_s, w, h, bpp));
    }
    yuv
}

/// Converts an RGB image to YUV420p: `[y, y, ..., u, u, ..., v, v, ...]`.
///
/// The V bytes start `v_plane_offset` bytes after the U bytes, that is half a
/// chroma plane (rounded up) rather than a whole one. With more than one
/// chroma sample the later U bytes therefore land on the first V bytes and
/// replace them, and the end of the buffer keeps some zero bytes; the
/// contract states the resulting layout byte by byte.
///
/// `img` holds the pixels row by row as `[r, g, b, ..., r, g, b, ...]`, each
/// pixel `bytes_per_pixel` bytes long (3 for RGB, 4 for RGBA).
pub fn convert_rgb_to_yuv420p(img: &[u8], width: u32, height: u32, bytes_per_pixel: usize) -> (yuv:
    Vec<u8>)
    requires
        valid_input(img@, width as nat, height as nat, bytes_per_pixel as nat),
        chroma_fits(ChromaLayout::Planar, width as nat, height as nat),
    ensures
        yuv@ == yuv420_image(
            ChromaLayout::Planar,
            img@,
            width as nat,
            height as nat,
            bytes_per_pixel as nat,
        ),
        yuv@.len() == output_len(width as nat, height as nat),
{
    convert_rgb_to_yuv420(img, width, height, bytes_per_pixel, ChromaLayout::Planar)
}

/// Converts an RGB image to YUV420sp NV12: `[y, y, ..., u, v, u, v, ...]`.
///
/// `img` holds the pixels row by row as `[r, g, b, ..., r, g, b, ...]`, each
/// pixel `bytes_per_pixel` bytes long (3 for RGB, 4 for RGBA).
pub fn convert_rgb_to_yuv420sp_nv12(img: &[u8], width: u32, height: u32, bytes_per_pixel: usize) -> (yuv:
    Vec<u8>)
    requires
        valid_input(img@, width as nat, height as nat, bytes_per_pixel as nat),
        chroma_fits(ChromaLayout::SemiPlanarNv12, width as nat, height as nat),
    ensures
        yuv@ == yuv420_image(
            ChromaLayout::SemiPlanarNv12,
            img@,
            width as nat,
            height as nat,
            bytes_per_pixel as nat,
        ),
        yuv@.len() == output_len(width as nat, height as nat),
{
    convert_rgb_to_yuv420(img, width, height, bytes_per_pixel, ChromaLayout::SemiPlanarNv12)
}

} // verus!
