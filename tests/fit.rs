use dice_mosaic::{fit, fit_size, Canvas, FitError};

fn opaque(w: u32, h: u32) -> Canvas {
    let mut px = Vec::new();
    for _ in 0..(w * h) {
        px.extend_from_slice(&[200, 100, 50, 255]);
    }
    Canvas::new(w, h, px).unwrap()
}

#[test]
fn fit_size_keeps_aspect_ratio() {
    // Wide target: bounded by height.
    assert_eq!(fit_size(96, 96, 1920, 1080), (1080, 1080));
    // Tall target: bounded by width.
    assert_eq!(fit_size(100, 50, 200, 200), (200, 100));
    // 10 * 2 / 3 = 6.67 rounds to 7.
    assert_eq!(fit_size(3, 2, 10, 10), (10, 7));
    // 5 * 3 / 2 = 7.5 rounds up to 8.
    assert_eq!(fit_size(3, 2, 20, 5), (8, 5));
    // Same ratio: fills the target.
    assert_eq!(fit_size(4, 3, 8, 6), (8, 6));
}

#[test]
fn fit_centres_with_transparent_padding() {
    let c = opaque(4, 4);
    let out = fit(&c, 10, 4).unwrap();
    assert_eq!((out.width, out.height), (10, 4));
    // Scaled to 4x4, placed at column 3.
    for y in 0..4usize {
        for x in 0..10usize {
            let i = (y * 10 + x) * 4;
            let px = &out.pixels[i..i + 4];
            if (3..7).contains(&x) {
                assert_eq!(px, &[200, 100, 50, 255][..], "inside at {} {}", x, y);
            } else {
                assert_eq!(px, &[0, 0, 0, 0][..], "padding at {} {}", x, y);
            }
        }
    }
}

#[test]
fn fit_scales_the_content() {
    let c = opaque(2, 2);
    let out = fit(&c, 6, 8).unwrap();
    assert_eq!((out.width, out.height), (6, 8));
    assert_eq!(out.pixels.len(), 6 * 8 * 4);
    // Content is 6x6 from row 1: its alpha is set, rows 0 and 7 are clear.
    let alpha = |x: usize, y: usize| out.pixels[(y * 6 + x) * 4 + 3];
    assert_eq!(alpha(0, 0), 0);
    assert_eq!(alpha(5, 7), 0);
    assert!(alpha(0, 1) > 0);
    assert!(alpha(5, 6) > 0);
}

#[test]
fn fit_refuses_a_zero_target() {
    let c = opaque(2, 2);
    assert_eq!(fit(&c, 0, 5).unwrap_err(), FitError::ZeroTarget);
    assert_eq!(fit(&c, 5, 0).unwrap_err(), FitError::ZeroTarget);
}

#[test]
fn fully_transparent_content_stays_transparent_black() {
    let c = Canvas::new(2, 1, vec![9, 8, 7, 0, 1, 2, 3, 255]).unwrap();
    let out = fit(&c, 2, 3).unwrap();
    // Same size content at row 1: the clear pixel becomes 0,0,0,0.
    assert_eq!(&out.pixels[8..16], &[0, 0, 0, 0, 1, 2, 3, 255][..]);
    assert!(out.pixels[..8].iter().all(|&b| b == 0));
    assert!(out.pixels[16..].iter().all(|&b| b == 0));
}
