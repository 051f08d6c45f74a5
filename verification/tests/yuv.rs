use multiview::yuv::to_yuv;

fn first(r: u8, _g: u8, _b: u8) -> u8 {
    r
}

fn second(_r: u8, g: u8, _b: u8) -> u8 {
    g
}

fn third(_r: u8, _g: u8, b: u8) -> u8 {
    b
}

/// Pixel `k` is `(k, 100 + k, 200 + k)`.
fn counted(n: u8) -> Vec<u8> {
    let mut pixels = Vec::new();
    for k in 0..n {
        pixels.push(k);
        pixels.push(100 + k);
        pixels.push(200 + k);
    }
    pixels
}

#[test]
fn planes_of_a_small_picture() {
    // Four by two pixels.
    let yuv = to_yuv(&counted(8), 4, 4, 2, &first, &second, &third);
    assert_eq!(yuv, vec![0, 1, 2, 3, 4, 5, 6, 7, 100, 102, 200, 202]);
}

#[test]
fn planes_take_every_second_row() {
    // Two by four pixels.
    let yuv = to_yuv(&counted(8), 2, 2, 4, &first, &second, &third);
    assert_eq!(yuv, vec![0, 1, 2, 3, 4, 5, 6, 7, 100, 104, 200, 204]);
}

#[test]
fn short_frame_leaves_the_rest_zero() {
    let yuv = to_yuv(&counted(3), 2, 2, 2, &second, &second, &third);
    assert_eq!(yuv, vec![100, 101, 102, 0, 100, 200]);
    let yuv = to_yuv(&[], 2, 2, 2, &second, &second, &third);
    assert_eq!(yuv, vec![0; 6]);
}

#[test]
fn frame_of_another_width() {
    // Rows of three pixels, of which the picture takes two.
    let yuv = to_yuv(&counted(6), 3, 2, 2, &first, &second, &third);
    assert_eq!(yuv, vec![0, 1, 3, 4, 100, 200]);
}

#[test]
fn odd_sides_round_down() {
    let yuv = to_yuv(&counted(9), 3, 3, 3, &first, &second, &third);
    assert_eq!(yuv, vec![0, 1, 2, 3, 4, 5, 6, 7, 8, 100, 200]);
}
