use rgb2yuv420::{
    clamp, convert_rgb_to_yuv420, convert_rgb_to_yuv420p, convert_rgb_to_yuv420sp_nv12,
    ChromaLayout,
};

/// A 4x4 RGB image whose pixels all differ: pixel `p` is `(10p, 255 - 10p, 37p mod 256)`.
fn distinct_4x4() -> Vec<u8> {
    let mut img = Vec::new();
    for p in 0..16u32 {
        img.push((10 * p) as u8);
        img.push((255 - 10 * p) as u8);
        img.push(((37 * p) % 256) as u8);
    }
    img
}

/// A 2x2 image with every pixel set to `(r, g, b)`.
fn uniform_2x2(r: u8, g: u8, b: u8) -> Vec<u8> {
    let mut img = Vec::new();
    for _ in 0..4 {
        img.push(r);
        img.push(g);
        img.push(b);
    }
    img
}

const DISTINCT_LUMA: [u8; 16] = [
    149, 151, 152, 153, 155, 156, 157, 130, 131, 132, 134, 135, 136, 138, 110, 112,
];

#[test]
fn rgb_to_yuv() {
    let rgb = vec![0u8; 12];
    let expected = vec![0u8, 0u8, 0u8, 0u8, 128u8, 128u8];
    let yuv = convert_rgb_to_yuv420p(&rgb, 2, 2, 3);
    assert_eq!(yuv.len(), rgb.len() / 2);
    for (val, exp) in yuv.iter().zip(expected.iter()) {
        assert_eq!(val, exp);
    }
}

#[test]
fn black_2x2_planar_is_exact() {
    let rgb = vec![0u8; 12];
    assert_eq!(convert_rgb_to_yuv420p(&rgb, 2, 2, 3), vec![0, 0, 0, 0, 128, 128]);
}

#[test]
fn black_2x2_nv12_is_exact() {
    let rgb = vec![0u8; 12];
    assert_eq!(convert_rgb_to_yuv420sp_nv12(&rgb, 2, 2, 3), vec![0, 0, 0, 0, 128, 128]);
}

#[test]
fn output_length_is_three_halves_of_pixel_count() {
    for &(w, h) in &[(0u32, 0u32), (0, 6), (6, 0), (2, 2), (4, 2), (2, 4), (6, 4), (8, 8)] {
        let n = (w * h) as usize;
        let rgb = vec![7u8; n * 3];
        let rgba = vec![7u8; n * 4];
        assert_eq!(convert_rgb_to_yuv420p(&rgb, w, h, 3).len(), n * 3 / 2);
        assert_eq!(convert_rgb_to_yuv420sp_nv12(&rgb, w, h, 3).len(), n * 3 / 2);
        assert_eq!(convert_rgb_to_yuv420p(&rgba, w, h, 4).len(), n * 3 / 2);
        assert_eq!(convert_rgb_to_yuv420sp_nv12(&rgba, w, h, 4).len(), n * 3 / 2);
    }
}

#[test]
fn zero_sized_image_gives_empty_output() {
    let empty: Vec<u8> = Vec::new();
    assert!(convert_rgb_to_yuv420p(&empty, 0, 0, 3).is_empty());
    assert!(convert_rgb_to_yuv420sp_nv12(&empty, 0, 7, 4).is_empty());
}

#[test]
fn black_4x4_gives_zero_luma_and_neutral_chroma() {
    let rgb = vec![0u8; 48];
    let nv12 = convert_rgb_to_yuv420sp_nv12(&rgb, 4, 4, 3);
    assert_eq!(&nv12[..16], &[0u8; 16][..]);
    assert_eq!(&nv12[16..], &[128u8; 8][..]);
    let planar = convert_rgb_to_yuv420p(&rgb, 4, 4, 3);
    assert_eq!(&planar[..16], &[0u8; 16][..]);
    // U bytes at 0..4, V bytes at 2..6 of the chroma region; the last two stay unwritten.
    assert_eq!(&planar[16..], &[128, 128, 128, 128, 128, 128, 0, 0][..]);
}

#[test]
fn black_rgba_ignores_alpha() {
    let mut rgba = vec![0u8; 16];
    for p in 0..4 {
        rgba[p * 4 + 3] = 255;
    }
    assert_eq!(convert_rgb_to_yuv420p(&rgba, 2, 2, 4), vec![0, 0, 0, 0, 128, 128]);
    assert_eq!(convert_rgb_to_yuv420sp_nv12(&rgba, 2, 2, 4), vec![0, 0, 0, 0, 128, 128]);
}

#[test]
fn clamp_saturates_both_ends() {
    assert_eq!(clamp(-1), 0);
    assert_eq!(clamp(-40000), 0);
    assert_eq!(clamp(0), 0);
    assert_eq!(clamp(77), 77);
    assert_eq!(clamp(255), 255);
    assert_eq!(clamp(256), 255);
    assert_eq!(clamp(70000), 255);
}

#[test]
fn pure_red_converts_exactly() {
    let yuv = convert_rgb_to_yuv420sp_nv12(&uniform_2x2(255, 0, 0), 2, 2, 3);
    assert_eq!(yuv, vec![77, 77, 77, 77, 85, 255]);
}

#[test]
fn pure_blue_converts_exactly() {
    let yuv = convert_rgb_to_yuv420p(&uniform_2x2(0, 0, 255), 2, 2, 3);
    assert_eq!(yuv, vec![29, 29, 29, 29, 255, 107]);
}

#[test]
fn pure_white_converts_exactly() {
    let yuv = convert_rgb_to_yuv420p(&uniform_2x2(255, 255, 255), 2, 2, 3);
    assert_eq!(yuv, vec![255, 255, 255, 255, 128, 128]);
}

#[test]
fn luma_of_distinct_pixels_is_exact() {
    let img = distinct_4x4();
    let yuv = convert_rgb_to_yuv420sp_nv12(&img, 4, 4, 3);
    assert_eq!(&yuv[..16], &DISTINCT_LUMA[..]);
}

#[test]
fn chroma_comes_from_even_row_even_column_pixels() {
    let img = distinct_4x4();
    let yuv = convert_rgb_to_yuv420sp_nv12(&img, 4, 4, 3);
    // (U, V) of the pixels at (0, 0), (0, 2), (2, 0) and (2, 2), in that order.
    assert_eq!(&yuv[16..], &[44, 22, 84, 35, 77, 92, 117, 104][..]);
}

#[test]
fn planar_places_v_half_a_plane_after_u() {
    let img = distinct_4x4();
    let yuv = convert_rgb_to_yuv420p(&img, 4, 4, 3);
    assert_eq!(&yuv[..16], &DISTINCT_LUMA[..]);
    // Four U bytes from offset 0, V bytes from offset 2: the later U writes
    // cover the first two V bytes.
    assert_eq!(&yuv[16..], &[44, 84, 77, 117, 92, 104, 0, 0][..]);
}

#[test]
fn variants_share_luma_plane() {
    let img = distinct_4x4();
    let planar = convert_rgb_to_yuv420p(&img, 4, 4, 3);
    let nv12 = convert_rgb_to_yuv420sp_nv12(&img, 4, 4, 3);
    assert_eq!(&planar[..16], &nv12[..16]);
}

#[test]
fn variants_share_chroma_pair_of_single_block() {
    let img: Vec<u8> = vec![200, 10, 60, 1, 2, 3, 4, 5, 6, 7, 8, 9];
    let planar = convert_rgb_to_yuv420p(&img, 2, 2, 3);
    let nv12 = convert_rgb_to_yuv420sp_nv12(&img, 2, 2, 3);
    assert_eq!(planar, nv12);
    assert_eq!(planar, vec![73, 2, 5, 8, 121, 218]);
}

#[test]
fn repeated_calls_give_identical_bytes() {
    let img = distinct_4x4();
    assert_eq!(convert_rgb_to_yuv420p(&img, 4, 4, 3), convert_rgb_to_yuv420p(&img, 4, 4, 3));
    assert_eq!(
        convert_rgb_to_yuv420sp_nv12(&img, 4, 4, 3),
        convert_rgb_to_yuv420sp_nv12(&img, 4, 4, 3)
    );
}

#[test]
fn shared_kernel_matches_entry_points() {
    let img = distinct_4x4();
    assert_eq!(
        convert_rgb_to_yuv420(&img, 4, 4, 3, ChromaLayout::Planar),
        convert_rgb_to_yuv420p(&img, 4, 4, 3)
    );
    assert_eq!(
        convert_rgb_to_yuv420(&img, 4, 4, 3, ChromaLayout::SemiPlanarNv12),
        convert_rgb_to_yuv420sp_nv12(&img, 4, 4, 3)
    );
}

#[test]
fn odd_width_planar_uses_trailing_even_column() {
    // 3x2: samples at (0, 0) and (0, 2); chroma plane size 1, V offset 1.
    let mut img = vec![0u8; 18];
    img[6] = 255; // pixel (0, 2) is pure red
    let yuv = convert_rgb_to_yuv420p(&img, 3, 2, 3);
    assert_eq!(yuv.len(), 9);
    assert_eq!(&yuv[..6], &[0, 0, 77, 0, 0, 0][..]);
    assert_eq!(&yuv[6..], &[128, 85, 255][..]);
}
