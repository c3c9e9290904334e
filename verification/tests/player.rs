use termgba::player::{mode_of, parse_args, PlayerArgError, PlayerOpts, PlayerRequest};
use termgba::render::RenderMode;

fn args(list: &[&str]) -> Vec<Option<String>> {
    list.iter().map(|arg| Some(arg.to_string())).collect()
}

fn play(rom: usize, mode: Option<RenderMode>, mute: bool) -> Result<PlayerRequest, PlayerArgError> {
    Ok(PlayerRequest::Play(PlayerOpts { rom, mode, mute }))
}

#[test]
fn a_rom_alone_is_played_with_the_defaults() {
    assert_eq!(parse_args(&args(&["game.gba"])), play(0, None, false));
    assert_eq!(parse_args(&args(&[""])), play(0, None, false));
}

#[test]
fn a_path_that_is_no_text_can_be_the_rom() {
    assert_eq!(parse_args(&[Some("--mute".to_string()), None]), play(1, None, true));
    assert_eq!(parse_args(&[None, None]), Err(PlayerArgError::SecondRom));
}

#[test]
fn options_stand_anywhere_and_the_last_counts() {
    assert_eq!(
        parse_args(&args(&["--mode", "halfblock", "--mute", "game.gba"])),
        play(3, Some(RenderMode::HalfBlock), true)
    );
    assert_eq!(
        parse_args(&args(&["game.gba", "--mode", "halfblock", "--mode", "kitty"])),
        play(0, Some(RenderMode::Kitty), false)
    );
    assert_eq!(
        parse_args(&args(&["--mode", "kitty", "game.gba", "--mode", "auto"])),
        play(2, None, false)
    );
}

#[test]
fn help_comes_before_what_follows_it() {
    assert_eq!(parse_args(&args(&["--mute", "-h", "--bad"])), Ok(PlayerRequest::Help));
    assert_eq!(parse_args(&args(&["game.gba", "--help"])), Ok(PlayerRequest::Help));
    assert_eq!(
        parse_args(&args(&["--bad", "--help"])),
        Err(PlayerArgError::UnknownOption(0))
    );
}

#[test]
fn bad_command_lines_are_refused() {
    assert_eq!(parse_args(&args(&[])), Err(PlayerArgError::MissingRom));
    assert_eq!(parse_args(&args(&["--mute"])), Err(PlayerArgError::MissingRom));
    assert_eq!(parse_args(&args(&["a", "--mode"])), Err(PlayerArgError::ModeNeedsValue));
    assert_eq!(
        parse_args(&args(&["a", "--mode", "--mute"])),
        Err(PlayerArgError::UnknownMode(2))
    );
    assert_eq!(
        parse_args(&[Some("--mode".to_string()), None]),
        Err(PlayerArgError::UnknownMode(1))
    );
    assert_eq!(parse_args(&args(&["a", "-"])), Err(PlayerArgError::UnknownOption(1)));
    assert_eq!(parse_args(&args(&["a", "b"])), Err(PlayerArgError::SecondRom));
}

#[test]
fn player_messages() {
    assert_eq!(PlayerArgError::ModeNeedsValue.message(""), "--mode needs a value");
    assert_eq!(PlayerArgError::UnknownMode(1).message("\"sixel\""), "unknown mode \"sixel\"");
    assert_eq!(PlayerArgError::UnknownOption(0).message("--fast"), "unknown option --fast");
    assert_eq!(PlayerArgError::SecondRom.message(""), "only one ROM path may be given");
    assert_eq!(PlayerArgError::MissingRom.message(""), "missing ROM path");
}

#[test]
fn modes_are_found_by_name() {
    assert_eq!(mode_of(&Some("auto".to_string())), Some(None));
    assert_eq!(mode_of(&Some("kitty".to_string())), Some(Some(RenderMode::Kitty)));
    assert_eq!(mode_of(&Some("half".to_string())), None);
    assert_eq!(mode_of(&None), None);
}
