use termgba::demo::{
    bench_configs, bench_frames, bench_patterns, bench_runs, next_due, parse_size, pattern_name, time_left,
    Config, Session, Stats,
};
use termgba::demo_args::DemoOpts;
use termgba::input::{KeyCode, KeyEvent, KeyEventKind, KeyModifiers};
use termgba::pattern::Pattern;
use termgba::render::{ColorDepth, KittyStrategy, RenderMode, TermSize};

fn half_block() -> Config {
    Config {
        mode: RenderMode::HalfBlock,
        strategy: KittyStrategy::FrameEdit,
        depth: ColorDepth::TrueColor,
        compress: true,
    }
}

fn kitty() -> Config {
    Config { mode: RenderMode::Kitty, ..half_block() }
}

fn session(cfg: Config, has_image: bool) -> Session {
    Session::new(cfg, Pattern::Sprite, None, has_image)
}

fn press(session: &mut Session, c: char) {
    session.on_key(KeyEvent {
        code: KeyCode::Char(c),
        modifiers: KeyModifiers::empty(),
        kind: KeyEventKind::Press,
    });
}

#[test]
fn sizes_are_cells_and_pixels() {
    let size = TermSize { cols: 160, rows: 50, px_width: 1600, px_height: 1000 };
    assert_eq!(parse_size("160x50@1600x1000"), Some(size));
    let cells = TermSize { cols: 80, rows: 25, px_width: 0, px_height: 0 };
    assert_eq!(parse_size("80x25"), Some(cells));
    assert_eq!(parse_size("+80x025"), Some(cells));
    let largest = TermSize { cols: 65535, rows: 0, px_width: 0, px_height: 65535 };
    assert_eq!(parse_size("65535x0@0x65535"), Some(largest));
}

#[test]
fn bad_sizes_are_refused() {
    for bad in [
        "", "80", "80x", "x25", "80x25@", "80x25@1", "65536x1", "80x25x3", "80X25", "-1x5",
        "80x25@1x2@3x4", " 80x25", "8 0x25",
    ] {
        assert_eq!(parse_size(bad), None, "{bad}");
    }
}

#[test]
fn labels_name_what_matters() {
    assert_eq!(half_block().label(), "halfblock truecolor");
    assert_eq!(Config { depth: ColorDepth::Ansi256, ..half_block() }.label(), "halfblock 256");
    assert_eq!(kitty().label(), "kitty edit zlib");
    assert_eq!(
        Config { strategy: KittyStrategy::Retransmit, compress: false, ..kitty() }.label(),
        "kitty retransmit raw"
    );
}

#[test]
fn options_win_over_detection() {
    let mut opts = DemoOpts::default();
    opts.compress = false;
    let detected = Config::resolve(
        &opts,
        RenderMode::Kitty,
        KittyStrategy::Retransmit,
        ColorDepth::Ansi256,
    );
    assert_eq!(
        detected,
        Config {
            mode: RenderMode::Kitty,
            strategy: KittyStrategy::Retransmit,
            depth: ColorDepth::Ansi256,
            compress: false,
        }
    );
    opts.mode = Some(RenderMode::HalfBlock);
    opts.strategy = Some(KittyStrategy::FrameEdit);
    opts.depth = Some(ColorDepth::TrueColor);
    opts.compress = true;
    let chosen = Config::resolve(
        &opts,
        RenderMode::Kitty,
        KittyStrategy::Retransmit,
        ColorDepth::Ansi256,
    );
    assert_eq!(chosen, half_block());
}

#[test]
fn the_benchmark_goes_through_all_renderers() {
    let labels: Vec<String> = bench_configs().iter().map(|cfg| cfg.label()).collect();
    assert_eq!(
        labels,
        vec![
            "halfblock truecolor",
            "halfblock 256",
            "kitty edit zlib",
            "kitty retransmit zlib",
            "kitty retransmit raw",
        ]
    );
    let names: Vec<&str> = bench_patterns(true).iter().map(|p| pattern_name(*p)).collect();
    assert_eq!(names, vec!["bars", "checker", "gradient", "sprite", "noise", "image"]);
    assert_eq!(bench_patterns(false).len(), 5);
    let mut opts = DemoOpts::default();
    assert_eq!(bench_frames(&opts), 300);
    opts.frames = Some(12);
    assert_eq!(bench_frames(&opts), 12);
}

#[test]
fn the_benchmark_runs_every_pair_by_configuration() {
    for has_image in [false, true] {
        let mut expected = Vec::new();
        for cfg in bench_configs() {
            for pattern in bench_patterns(has_image) {
                expected.push((cfg, pattern));
            }
        }
        assert_eq!(bench_runs(has_image), expected);
    }
    assert_eq!(bench_runs(false).len(), 25);
    let runs = bench_runs(true);
    assert_eq!(runs.len(), 30);
    assert_eq!(runs[5], (bench_configs()[0], Pattern::Image));
    assert_eq!(runs[6].0.label(), "halfblock 256");
    assert_eq!(runs[6].1, Pattern::Bars);
}

#[test]
fn stats_keep_the_sum_and_the_longest() {
    let mut stats = Stats::default();
    stats.bytes = 9;
    stats.record(5);
    stats.record(7);
    stats.record(2);
    assert_eq!(stats, Stats { frames: 3, draw: 14, max_draw: 7, bytes: 9 });
}

#[test]
fn keys_choose_the_pattern() {
    let mut s = session(half_block(), false);
    for (key, pattern) in [
        ('1', Pattern::Bars),
        ('2', Pattern::Checker),
        ('3', Pattern::Gradient),
        ('4', Pattern::Sprite),
        ('5', Pattern::Noise),
    ] {
        press(&mut s, key);
        assert_eq!(s.pattern, pattern);
    }
    press(&mut s, '6');
    assert_eq!(s.pattern, Pattern::Noise);
    assert!(s.running());
    let mut s = session(half_block(), true);
    press(&mut s, '6');
    assert_eq!(s.pattern, Pattern::Image);
}

#[test]
fn toggles_rebuild_only_what_is_seen() {
    let mut s = session(half_block(), false);
    press(&mut s, 's');
    press(&mut s, 'z');
    assert_eq!(s.cfg.strategy, KittyStrategy::Retransmit);
    assert!(!s.cfg.compress);
    assert!(s.running());
    press(&mut s, 'm');
    assert_eq!(s.cfg.mode, RenderMode::Kitty);
    assert!(!s.running());
    s.start_run();
    assert!(s.running());
    press(&mut s, 'z');
    assert!(!s.running());
    s.start_run();
    press(&mut s, 's');
    press(&mut s, 'm');
    assert_eq!(s.cfg, half_block());
}

#[test]
fn a_pending_rebuild_outlasts_other_keys() {
    for key in ['s', 'z', '1', 'x'] {
        let mut s = session(kitty(), false);
        press(&mut s, 'm');
        press(&mut s, key);
        assert_eq!(s.cfg.mode, RenderMode::HalfBlock);
        assert!(s.rebuild);
        assert!(!s.running());
    }
}

#[test]
fn several_keys_quit() {
    let quits = |code: KeyCode, control: bool, kind: KeyEventKind| {
        let mut s = session(kitty(), false);
        s.on_key(KeyEvent { code, modifiers: KeyModifiers { control }, kind });
        s.quit
    };
    assert!(quits(KeyCode::Char('q'), false, KeyEventKind::Press));
    assert!(quits(KeyCode::Esc, false, KeyEventKind::Repeat));
    assert!(quits(KeyCode::Char('c'), true, KeyEventKind::Press));
    assert!(!quits(KeyCode::Char('c'), false, KeyEventKind::Press));
    assert!(!quits(KeyCode::Char('q'), false, KeyEventKind::Release));
    assert!(!quits(KeyCode::Enter, true, KeyEventKind::Press));
}

#[test]
fn no_key_takes_quitting_back() {
    let mut s = session(kitty(), true);
    press(&mut s, 'q');
    for key in ['1', '6', 'm', 's', 'z', 'x'] {
        press(&mut s, key);
    }
    assert!(s.quit);
}

#[test]
fn the_demo_ends_at_its_limit() {
    let mut s = Session::new(kitty(), Pattern::Bars, Some(2), false);
    assert!(!s.frame_drawn());
    assert!(s.running());
    assert!(s.frame_drawn());
    assert!(s.quit);
    assert_eq!(s.t, 2);
    let mut s = Session::new(kitty(), Pattern::Bars, Some(0), false);
    assert!(s.quit);
    assert!(!s.running());
    assert!(s.frame_drawn());
    let mut s = session(kitty(), false);
    assert!(!s.frame_drawn());
}

#[test]
fn late_frames_are_due_now() {
    assert_eq!(next_due(100, 10, 105), 110);
    assert_eq!(next_due(100, 10, 110), 110);
    assert_eq!(next_due(100, 10, 150), 150);
    assert_eq!(time_left(110, 105), 5);
    assert_eq!(time_left(110, 111), 0);
}
