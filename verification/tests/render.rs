use termgba::render::{detect_mode, validate_framebuffer, FrameSizeError, RenderMode};
use termgba::Frame;

#[test]
fn accepts_a_native_gba_framebuffer() {
    assert!(validate_framebuffer(&vec![0; Frame::PIXEL_BYTES]).is_ok());
}

#[test]
fn rejects_partial_frames() {
    assert!(validate_framebuffer(&[0; 4]).is_err());
}

#[test]
fn a_partial_frame_is_named_with_both_sizes() {
    let error = validate_framebuffer(&[0; 4]).unwrap_err();
    assert_eq!(error, FrameSizeError { expected: 153_600, actual: 4 });
    assert_eq!(error.message(), "invalid framebuffer size: expected 153600, got 4");
}

#[test]
fn the_environment_wins_over_the_terminal() {
    assert_eq!(detect_mode(Some(RenderMode::HalfBlock), true), RenderMode::HalfBlock);
    assert_eq!(detect_mode(Some(RenderMode::Kitty), false), RenderMode::Kitty);
    assert_eq!(detect_mode(None, true), RenderMode::Kitty);
    assert_eq!(detect_mode(None, false), RenderMode::HalfBlock);
}
