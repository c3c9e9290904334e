use termgba::ppm::{parse_ppm, wrong_format_message, PpmError};

fn image(header: &[u8]) -> Vec<u8> {
    let mut data = header.to_vec();
    data.extend((0..240 * 160 * 3).map(|i| (i % 253) as u8));
    data
}

fn expected() -> Vec<u8> {
    (0..240 * 160)
        .flat_map(|k| {
            let byte = |i: usize| ((3 * k + i) % 253) as u8;
            [byte(0), byte(1), byte(2), 0xFF]
        })
        .collect()
}

fn message(data: &[u8]) -> String {
    parse_ppm(data).unwrap_err().message()
}

#[test]
fn native_images_read_back() {
    assert_eq!(parse_ppm(&image(b"P6\n240 160\n255\n")).unwrap(), expected());
}

#[test]
fn comments_and_white_space_are_skipped() {
    let header = b" # a dump\n# of a frame\nP6 #size\n\t240\x0c160 #\n\r\n255 ";
    assert_eq!(parse_ppm(&image(header)).unwrap(), expected());
}

#[test]
fn bytes_after_the_pixels_do_not_matter() {
    let mut data = image(b"P6\n240 160\n255\n");
    data.push(1);
    assert_eq!(parse_ppm(&data).unwrap(), expected());
}

#[test]
fn truncated_images_are_refused() {
    for data in [&b""[..], b"P6", b"P6 240 160", b"P6 240 160 # 255", b"P5 1 1 "] {
        assert_eq!(message(data), "truncated PPM header");
    }
    assert_eq!(message(b"P6 240 160 255"), "truncated PPM data");
    let mut data = image(b"P6\n240 160\n255\n");
    data.pop();
    assert_eq!(message(&data), "truncated PPM data");
}

#[test]
fn other_formats_are_refused() {
    assert_eq!(message(b"P5 240 160 255 "), "not a binary PPM (P6)");
    assert_eq!(message(b"P6# 240 160 255 "), "not a binary PPM (P6)");
    assert_eq!(
        message(b"P6 320 200 65535 "),
        "expected 240x160 maxval 255, got 320x200 maxval 65535"
    );
    assert_eq!(
        message(b"P6 240 160 +255 "),
        "expected 240x160 maxval 255, got 240x160 maxval +255"
    );
    assert!(matches!(parse_ppm(b"P6 1 2 3"), Err(PpmError::WrongFormat { .. })));
}

#[test]
fn header_words_are_shown_as_text() {
    assert_eq!(
        message(b"P6 2\xff4 \xc3\xa9 255"),
        "expected 240x160 maxval 255, got 2\u{fffd}4x\u{e9} maxval 255"
    );
    assert_eq!(
        wrong_format_message("1", "2", "3"),
        "expected 240x160 maxval 255, got 1x2 maxval 3"
    );
}
