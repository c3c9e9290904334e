use termgba::demo::pattern_name;
use termgba::demo_args::{ArgReader, ArgStep, DemoOpts};
use termgba::pattern::{Pattern, FRAME_BYTES};
use termgba::render::{ColorDepth, KittyStrategy, RenderMode, TermSize};

fn reader(args: &[&str]) -> ArgReader {
    ArgReader::new(args.iter().map(|arg| arg.to_string()).collect())
}

/// The options after a command line that leaves nothing to be done.
fn options(args: &[&str]) -> Result<DemoOpts, String> {
    let mut reader = reader(args);
    loop {
        match reader.next_arg()? {
            ArgStep::Next => {}
            ArgStep::Done => {
                reader.finish()?;
                return Ok(reader.opts);
            }
            other => panic!("{other:?}"),
        }
    }
}

#[test]
fn without_arguments_everything_is_detected() {
    assert_eq!(options(&[]).unwrap(), DemoOpts::default());
    let opts = DemoOpts::default();
    assert_eq!(opts.pattern, Pattern::Sprite);
    assert!(opts.compress);
    assert_eq!(opts.size, TermSize { cols: 160, rows: 50, px_width: 1600, px_height: 1000 });
}

#[test]
fn all_options_are_read() {
    let opts = options(&[
        "--mode", "half", "--strategy", "edit", "--color", "256", "--no-compress", "--pattern",
        "noise", "--frames", "42", "--bench", "--size", "80x24",
    ])
    .unwrap();
    assert_eq!(
        opts,
        DemoOpts {
            mode: Some(RenderMode::HalfBlock),
            strategy: Some(KittyStrategy::FrameEdit),
            depth: Some(ColorDepth::Ansi256),
            compress: false,
            pattern: Pattern::Noise,
            frames: Some(42),
            bench: true,
            size: TermSize { cols: 80, rows: 24, px_width: 0, px_height: 0 },
        }
    );
}

#[test]
fn the_last_of_a_repeated_option_counts() {
    let opts = options(&[
        "--mode", "kitty", "--mode", "auto", "--strategy", "retransmit", "--color", "truecolor",
        "--strategy", "auto", "--color", "auto",
    ])
    .unwrap();
    assert_eq!(opts, DemoOpts::default());
    assert_eq!(options(&["--mode", "halfblock"]).unwrap().mode, Some(RenderMode::HalfBlock));
}

#[test]
fn patterns_are_found_by_their_names() {
    for pattern in [
        Pattern::Bars,
        Pattern::Checker,
        Pattern::Gradient,
        Pattern::Sprite,
        Pattern::Noise,
    ] {
        assert_eq!(options(&["--pattern", pattern_name(pattern)]).unwrap().pattern, pattern);
    }
    assert_eq!(
        options(&["--pattern", pattern_name(Pattern::Image)]).unwrap_err(),
        "unknown pattern image"
    );
}

#[test]
fn bad_options_are_refused_in_words() {
    let cases: [(&[&str], &str); 10] = [
        (&["--mode", "sixel"], "unknown mode sixel"),
        (&["--strategy", "fast"], "unknown strategy fast"),
        (&["--color", "16"], "unknown color depth 16"),
        (&["--pattern", "plaid"], "unknown pattern plaid"),
        (&["--frames", "-1"], "bad --frames"),
        (&["--frames", "18446744073709551616"], "bad --frames"),
        (&["--size", "80"], "bad --size, expected e.g. 160x50@1600x1000"),
        (&["--bench", "game.gba"], "unknown argument game.gba"),
        (&["--mode"], "--mode needs a value"),
        (&["--ppm"], "--ppm needs a value"),
    ];
    for (args, message) in cases {
        assert_eq!(options(args).unwrap_err(), message);
    }
}

#[test]
fn a_refused_option_leaves_the_others() {
    let mut reader = reader(&["--mode", "kitty", "--mode", "sixel", "--bench"]);
    assert!(matches!(reader.next_arg(), Ok(ArgStep::Next)));
    let before = reader.opts;
    assert!(reader.next_arg().is_err());
    assert_eq!(reader.opts, before);
    assert_eq!(reader.pos, 4);
}

#[test]
fn help_is_asked_for_by_two_names() {
    assert!(matches!(reader(&["-h", "--bad"]).next_arg(), Ok(ArgStep::Help)));
    assert!(matches!(reader(&["--help"]).next_arg(), Ok(ArgStep::Help)));
}

#[test]
fn an_image_is_loaded_before_the_next_option() {
    let mut reader = reader(&["--ppm", "f.ppm", "--pattern", "bars"]);
    assert!(matches!(reader.next_arg(), Ok(ArgStep::LoadImage(path)) if path == "f.ppm"));
    reader.image_loaded(vec![7; FRAME_BYTES]);
    assert_eq!(reader.opts.pattern, Pattern::Image);
    assert_eq!(reader.image.as_ref().map(|image| image[0]), Some(7));
    assert!(matches!(reader.next_arg(), Ok(ArgStep::Next)));
    assert_eq!(reader.opts.pattern, Pattern::Bars);
    assert!(matches!(reader.next_arg(), Ok(ArgStep::Done)));
    assert!(matches!(reader.next_arg(), Ok(ArgStep::Done)));
}

#[test]
fn the_last_frame_rate_must_be_positive() {
    let mut reader = reader(&["--fps", "0", "--fps", "30"]);
    assert!(matches!(reader.next_arg(), Ok(ArgStep::ReadRate(rate)) if rate == "0"));
    assert!(reader.rate_read(Some(false)).is_ok());
    assert_eq!(reader.finish().unwrap_err(), "--fps must be positive");
    assert!(matches!(reader.next_arg(), Ok(ArgStep::ReadRate(rate)) if rate == "30"));
    assert!(reader.rate_read(Some(true)).is_ok());
    assert!(reader.finish().is_ok());
    assert_eq!(reader.rate_read(None).unwrap_err(), "bad --fps");
}
