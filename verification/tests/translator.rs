use termgba::translator::{parse_args, USAGE};

#[test]
fn accepts_one_rom_path() {
    assert_eq!(
        parse_args(&["games/test.gba".to_string()])
            .unwrap()
            .as_deref(),
        Some("games/test.gba")
    );
}

#[test]
fn help_is_available_without_initializing_mgba_or_the_terminal() {
    assert_eq!(parse_args(&["--help".to_string()]).unwrap(), None);
    assert_eq!(parse_args(&["-h".to_string()]).unwrap(), None);
    assert_eq!(parse_args(&Vec::<String>::new()).unwrap(), None);
}

#[test]
fn rejects_zero_or_multiple_rom_paths() {
    assert!(parse_args(&["one.gba".to_string(), "two.gba".to_string()]).is_err());
}

#[test]
fn the_complaint_shows_the_usage() {
    let message = parse_args(&["--help".to_string(), "two.gba".to_string()]).unwrap_err();
    assert_eq!(message, format!("expected exactly one ROM path\n\n{USAGE}"));
    assert!(USAGE.starts_with("Usage: terminal_gba_translator <ROM.gba>\n"));
}
