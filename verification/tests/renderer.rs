use multiview::layout::LayoutType;
use multiview::renderer::{CacheOutcome, FrameData, MultiViewRenderer};

/// A frame whose pixel at `(x, y)` is `(x, y, 7)`.
fn gradient(width: u32, height: u32) -> FrameData {
    let mut pixels = Vec::new();
    for y in 0..height {
        for x in 0..width {
            pixels.push(x as u8);
            pixels.push(y as u8);
            pixels.push(7);
        }
    }
    FrameData { pixels, width, height }
}

fn pixel(out: &[u8], width: usize, x: usize, y: usize) -> [u8; 4] {
    let i = (y * width + x) * 4;
    [out[i], out[i + 1], out[i + 2], out[i + 3]]
}

#[test]
fn rgb_inside_and_outside() {
    let frame = gradient(4, 3);
    assert_eq!(frame.get_rgb(0, 0), Some((0, 0, 7)));
    assert_eq!(frame.get_rgb(3, 2), Some((3, 2, 7)));
    assert_eq!(frame.get_rgb(4, 0), None);
    assert_eq!(frame.get_rgb(0, 3), None);
}

#[test]
fn rgb_of_an_incomplete_frame() {
    let frame = FrameData { pixels: vec![1, 2, 3, 4, 5], width: 2, height: 1 };
    assert_eq!(frame.get_rgb(0, 0), Some((1, 2, 3)));
    assert_eq!(frame.get_rgb(1, 0), None);
}

#[test]
fn rgb_of_the_largest_resolution() {
    let frame = FrameData { pixels: vec![1, 2, 3], width: u32::MAX, height: u32::MAX };
    assert_eq!(frame.get_rgb(0, 0), Some((1, 2, 3)));
    assert_eq!(frame.get_rgb(u32::MAX - 1, u32::MAX - 1), None);
}

#[test]
fn crop_of_a_tall_frame_is_centred() {
    // 16 by 11: the crop is 16 by 9, one row below the top.
    let frame = gradient(16, 11);
    assert_eq!(frame.get_rgb_cropped_16_9(0, 0, 16, 9), Some((0, 1, 7)));
    assert_eq!(frame.get_rgb_cropped_16_9(15, 8, 16, 9), Some((15, 9, 7)));
}

#[test]
fn crop_of_a_wide_frame_is_centred() {
    // 20 by 9: the crop is 16 by 9, two columns from the left.
    let frame = gradient(20, 9);
    assert_eq!(frame.get_rgb_cropped_16_9(0, 0, 16, 9), Some((2, 0, 7)));
    assert_eq!(frame.get_rgb_cropped_16_9(15, 8, 16, 9), Some((17, 8, 7)));
}

#[test]
fn sampling_is_linear() {
    let frame = gradient(16, 9);
    // Five places over sixteen columns: 0, 15/4, 30/4, 45/4, 15, rounded down.
    let columns: Vec<u8> = (0..5)
        .map(|x| frame.get_rgb_cropped_16_9(x, 0, 5, 1).unwrap().0)
        .collect();
    assert_eq!(columns, vec![0, 3, 7, 11, 15]);
}

#[test]
fn sampling_of_empty_views_and_frames() {
    let frame = gradient(16, 9);
    assert_eq!(frame.get_rgb_cropped_16_9(0, 0, 0, 9), None);
    assert_eq!(frame.get_rgb_cropped_16_9(0, 0, 9, 0), None);
    assert_eq!(gradient(0, 9).get_rgb_cropped_16_9(0, 0, 4, 4), None);
    assert_eq!(gradient(16, 0).get_rgb_cropped_16_9(0, 0, 4, 4), None);
    // The crop of a frame one pixel wide has no rows.
    assert_eq!(gradient(1, 1).get_rgb_cropped_16_9(0, 0, 1, 1), None);
    assert_eq!(gradient(2, 1).get_rgb_cropped_16_9(0, 0, 1, 1), Some((0, 0, 7)));
}

#[test]
fn sampling_of_a_single_place() {
    assert_eq!(gradient(16, 9).get_rgb_cropped_16_9(5, 5, 1, 1), Some((0, 0, 7)));
}

#[test]
fn sampling_beyond_the_view() {
    let frame = gradient(16, 9);
    assert_eq!(frame.get_rgb_cropped_16_9(16, 0, 16, 9), None);
}

#[test]
fn caching_tells_why_not() {
    let mut renderer = MultiViewRenderer::new(LayoutType::Inputs4x2);
    assert_eq!(renderer.cache_frame(8, gradient(16, 9)), CacheOutcome::NoSuchView);
    assert_eq!(
        renderer.cache_frame(0, gradient(0, 9)),
        CacheOutcome::InvalidResolution { width: 0, height: 9 }
    );
    assert_eq!(
        renderer.cache_frame(0, FrameData { pixels: vec![0; 11], width: 2, height: 2 }),
        CacheOutcome::Incomplete { expected: 12, got: 11 }
    );
    assert_eq!(
        renderer.cache_frame(
            0,
            FrameData { pixels: vec![0; 3], width: u32::MAX, height: u32::MAX }
        ),
        CacheOutcome::Incomplete { expected: 55340232195358851075, got: 3 }
    );
    assert_eq!(renderer.cache_frame(7, gradient(16, 9)), CacheOutcome::Cached);
}

#[test]
fn empty_view_is_black_with_a_light_border() {
    let mut renderer = MultiViewRenderer::new(LayoutType::Single);
    let out = renderer.render(8, 6);
    assert_eq!(out.len(), 8 * 6 * 4);
    for y in 0..6 {
        for x in 0..8 {
            let edge = x < 2 || x >= 6 || y < 2 || y >= 4;
            let expected = if edge { [180, 180, 180, 255] } else { [0, 0, 0, 255] };
            assert_eq!(pixel(out, 8, x, y), expected);
        }
    }
}

#[test]
fn view_with_a_frame_shows_the_crop() {
    let mut renderer = MultiViewRenderer::new(LayoutType::Single);
    assert_eq!(renderer.cache_frame(0, gradient(16, 11)), CacheOutcome::Cached);
    let out = renderer.render(16, 9);
    assert_eq!(pixel(out, 16, 0, 0), [70, 70, 70, 255]);
    assert_eq!(pixel(out, 16, 1, 4), [70, 70, 70, 255]);
    assert_eq!(pixel(out, 16, 14, 4), [70, 70, 70, 255]);
    assert_eq!(pixel(out, 16, 2, 2), [2, 3, 7, 255]);
    assert_eq!(pixel(out, 16, 13, 6), [13, 7, 7, 255]);
}

#[test]
fn views_are_laid_out_row_by_row() {
    let mut renderer = MultiViewRenderer::new(LayoutType::Inputs4x2);
    renderer.cache_frame(5, gradient(16, 9));
    // Views of 16 by 9; the sixth is the second of the second row.
    let out = renderer.render(64, 18);
    assert_eq!(pixel(out, 64, 16, 9), [70, 70, 70, 255]);
    assert_eq!(pixel(out, 64, 16 + 5, 9 + 4), [5, 4, 7, 255]);
    assert_eq!(pixel(out, 64, 5, 4), [0, 0, 0, 255]);
    assert_eq!(pixel(out, 64, 0, 9), [180, 180, 180, 255]);
    assert_eq!(pixel(out, 64, 32, 9), [180, 180, 180, 255]);
}

#[test]
fn views_do_not_disturb_each_other() {
    let mut alone = MultiViewRenderer::new(LayoutType::Inputs4x2);
    alone.cache_frame(2, gradient(16, 9));
    let mut crowded = MultiViewRenderer::new(LayoutType::Inputs4x2);
    for k in 0..8 {
        crowded.cache_frame(k, gradient(16 + k as u32, 9));
    }
    crowded.cache_frame(2, gradient(16, 9));
    let a = alone.render(64, 18).to_vec();
    let b = crowded.render(64, 18).to_vec();
    for y in 0..9 {
        for x in 32..48 {
            assert_eq!(pixel(&a, 64, x, y), pixel(&b, 64, x, y));
        }
    }
}

#[test]
fn cleared_view_is_empty_again() {
    let mut renderer = MultiViewRenderer::new(LayoutType::Single);
    let empty = renderer.render(16, 9).to_vec();
    renderer.cache_frame(0, gradient(16, 9));
    assert_ne!(renderer.render(16, 9).to_vec(), empty);
    renderer.clear_frame(1);
    assert_ne!(renderer.render(16, 9).to_vec(), empty);
    renderer.clear_frame(0);
    assert_eq!(renderer.render(16, 9).to_vec(), empty);
}

#[test]
fn refused_frame_leaves_the_old_one() {
    let mut renderer = MultiViewRenderer::new(LayoutType::Single);
    renderer.cache_frame(0, gradient(16, 9));
    let before = renderer.render(16, 9).to_vec();
    renderer.cache_frame(0, FrameData { pixels: vec![0; 3], width: 2, height: 2 });
    assert_eq!(renderer.render(16, 9).to_vec(), before);
}

#[test]
fn leftover_pixels_are_transparent() {
    let mut renderer = MultiViewRenderer::new(LayoutType::Inputs4x2);
    // The buffer is used before, so that what is left over has to be cleared.
    renderer.render(64, 18);
    let out = renderer.render(19, 7);
    assert_eq!(out.len(), 19 * 7 * 4);
    for y in 0..7 {
        for x in 0..19 {
            let inside = x < 16 && y < 6;
            assert_eq!(pixel(out, 19, x, y)[3], if inside { 255 } else { 0 });
        }
    }
    assert_eq!(pixel(out, 19, 16, 0), [0, 0, 0, 0]);
}

#[test]
fn small_views_are_all_border() {
    let mut renderer = MultiViewRenderer::new(LayoutType::Single);
    let out = renderer.render(3, 3);
    for p in out.chunks(4) {
        assert_eq!(p, [180, 180, 180, 255]);
    }
    assert_eq!(pixel(renderer.render(5, 5), 5, 2, 2), [0, 0, 0, 255]);
}

#[test]
fn picture_smaller_than_the_grid() {
    let mut renderer = MultiViewRenderer::new(LayoutType::Inputs4x2);
    assert!(renderer.render(3, 2).iter().all(|b| *b == 0));
    assert_eq!(renderer.render(0, 5).len(), 0);
    assert_eq!(renderer.render(5, 0).len(), 0);
}

#[test]
fn buffer_grows_when_needed() {
    let mut renderer = MultiViewRenderer::new(LayoutType::Single);
    assert_eq!(renderer.resize_needed(1920, 1080), None);
    assert_eq!(renderer.resize_needed(1920, 1081), Some((1920 * 1081 * 4, 1920 * 1080 * 4)));
    let out = renderer.render(1920, 1081);
    assert_eq!(out.len(), 1920 * 1081 * 4);
    assert_eq!(pixel(out, 1920, 1919, 1080), [180, 180, 180, 255]);
    assert_eq!(renderer.resize_needed(1920, 1081), None);
}
