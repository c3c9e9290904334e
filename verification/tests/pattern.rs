use termgba::pattern::{bars, tri, FrameGen, Pattern, Rgb, FRAME_BYTES};
use termgba::Frame;

/// The bytes of the pixel at the given place.
fn pixel(frame: &[u8], x: usize, y: usize) -> [u8; 4] {
    let o = (y * 240 + x) * 4;
    [frame[o], frame[o + 1], frame[o + 2], frame[o + 3]]
}

#[test]
fn triangle_waves_turn_at_both_ends() {
    let values: Vec<usize> = (0..9).map(|v| tri(v, 3)).collect();
    assert_eq!(values, vec![0, 1, 2, 3, 2, 1, 0, 1, 2]);
    assert_eq!(tri(u64::MAX, 255), 255);
    assert_eq!(tri(510, 255), 0);
}

#[test]
fn bars_stand_above_a_ramp() {
    assert_eq!(bars(0, 0), Rgb { r: 192, g: 192, b: 192 });
    assert_eq!(bars(34, 0), Rgb { r: 192, g: 192, b: 192 });
    assert_eq!(bars(35, 0), Rgb { r: 192, g: 192, b: 0 });
    assert_eq!(bars(70, 0), Rgb { r: 0, g: 192, b: 192 });
    assert_eq!(bars(105, 0), Rgb { r: 0, g: 192, b: 0 });
    assert_eq!(bars(140, 0), Rgb { r: 192, g: 0, b: 192 });
    assert_eq!(bars(175, 105), Rgb { r: 192, g: 0, b: 0 });
    assert_eq!(bars(239, 105), Rgb { r: 0, g: 0, b: 192 });
    assert_eq!(bars(0, 106), Rgb { r: 0, g: 0, b: 0 });
    assert_eq!(bars(120, 106), Rgb { r: 128, g: 128, b: 128 });
    assert_eq!(bars(239, 159), Rgb { r: 255, g: 255, b: 255 });
}

#[test]
fn synthetic_frames_fill_the_screen() {
    assert_eq!(FRAME_BYTES, Frame::PIXEL_BYTES);
    let mut frames = FrameGen::new();
    for pattern in [
        Pattern::Bars,
        Pattern::Checker,
        Pattern::Gradient,
        Pattern::Sprite,
        Pattern::Noise,
    ] {
        let frame = frames.fill(pattern, 17, None);
        assert_eq!(frame.len(), FRAME_BYTES);
        assert!(frame.iter().skip(3).step_by(4).all(|b| *b == 0xFF));
    }
}

#[test]
fn bars_do_not_move() {
    let mut frames = FrameGen::new();
    let first = frames.fill(Pattern::Bars, 0, None).to_vec();
    assert_eq!(first, frames.fill(Pattern::Bars, 1000, None));
    assert_eq!(pixel(&first, 35, 5), [192, 192, 0, 255]);
}

#[test]
fn the_checkerboard_drifts() {
    let mut frames = FrameGen::new();
    let frame = frames.fill(Pattern::Checker, 0, None);
    assert_eq!(pixel(frame, 0, 0), [235, 235, 220, 255]);
    assert_eq!(pixel(frame, 15, 15), [235, 235, 220, 255]);
    assert_eq!(pixel(frame, 16, 0), [40, 40, 90, 255]);
    assert_eq!(pixel(frame, 16, 16), [235, 235, 220, 255]);
    let frame = frames.fill(Pattern::Checker, 16, None);
    assert_eq!(pixel(frame, 0, 0), [40, 40, 90, 255]);
    assert_eq!(pixel(frame, 0, 7), [40, 40, 90, 255]);
    assert_eq!(pixel(frame, 0, 8), [235, 235, 220, 255]);
}

#[test]
fn the_gradient_spans_the_screen() {
    let mut frames = FrameGen::new();
    let frame = frames.fill(Pattern::Gradient, 10, None);
    assert_eq!(pixel(frame, 0, 0), [0, 0, 40, 255]);
    assert_eq!(pixel(frame, 239, 159), [255, 255, 40, 255]);
    assert_eq!(pixel(frame, 120, 80), [128, 128, 40, 255]);
    assert_eq!(pixel(frames.fill(Pattern::Gradient, 100, None), 0, 0), [0, 0, 110, 255]);
}

#[test]
fn the_sprite_moves_over_the_bars() {
    let mut frames = FrameGen::new();
    let frame = frames.fill(Pattern::Sprite, 10, None);
    assert_eq!(pixel(frame, 20, 15), [255, 255, 255, 255]);
    assert_eq!(pixel(frame, 35, 30), [255, 255, 255, 255]);
    assert_eq!(pixel(frame, 19, 15), [192, 192, 192, 255]);
    assert_eq!(pixel(frame, 36, 30), [192, 192, 0, 255]);
    assert_eq!(pixel(frame, 20, 31), [192, 192, 192, 255]);
    // The right edge is reached at frame 112.
    let frame = frames.fill(Pattern::Sprite, 112, None);
    assert_eq!(pixel(frame, 224, 120), [255, 255, 255, 255]);
    assert_eq!(pixel(frame, 239, 135), [255, 255, 255, 255]);
}

#[test]
fn noise_goes_on_from_frame_to_frame() {
    let mut frames = FrameGen::new();
    assert_eq!(frames.rng, 0x9E37_79B9_7F4A_7C15);
    let frame = frames.fill(Pattern::Noise, 0, None);
    assert_eq!(pixel(frame, 0, 0), [173, 77, 243, 255]);
    assert_eq!(pixel(frame, 1, 0), [118, 96, 110, 255]);
    assert_eq!(pixel(frame, 2, 0), [54, 97, 144, 255]);
    assert_eq!(frames.rng, 0x6244_2dd4_cd1f_de71);
    frames.fill(Pattern::Bars, 0, None);
    assert_eq!(frames.rng, 0x6244_2dd4_cd1f_de71);
}

#[test]
fn images_are_shown_as_they_are() {
    let image: Vec<u8> = (0..FRAME_BYTES).map(|i| (i % 251) as u8).collect();
    let mut frames = FrameGen::new();
    assert_eq!(frames.fill(Pattern::Image, u64::MAX, Some(&image)), &image[..]);
    assert_eq!(frames.fill(Pattern::Image, 0, None), &vec![0; FRAME_BYTES][..]);
}
