use std::cell::RefCell;
use std::io;
use std::rc::Rc;

use termgba::emu::{CoreBackend, CoreError, Emu, EmuError, GBA_PIXELS};
use termgba::pacer::FramePacer;
use termgba::render::Renderer;
use termgba::run::{io_failure_message, next_frame, pause_after, run_turn, NextFrame, Pause};
use termgba::{
    AudioSink, InputPoller, KeyState, MockAudioOut, RunError, KEY_A, KEY_QUIT, KEY_TURBO,
};

struct FakeCore {
    events: Rc<RefCell<Vec<&'static str>>>,
    pixels: Vec<u8>,
    frames: u32,
}

impl CoreBackend for FakeCore {
    fn run_frame(&mut self) -> Result<(), EmuError> {
        self.events.borrow_mut().push("core");
        self.frames += 1;
        Ok(())
    }
    fn set_keys(&mut self, _keys: u32) -> Result<(), EmuError> {
        Ok(())
    }
    fn video_buffer(&self) -> &[u8] {
        &self.pixels
    }
    fn read_audio_samples(&mut self, out: &mut [i16]) -> Result<usize, EmuError> {
        out[..2].copy_from_slice(&[1, 2]);
        Ok(1)
    }
    fn audio_sample_rate(&self) -> Result<u32, EmuError> {
        Ok(32_768)
    }
    fn frame_counter(&self) -> Result<u32, EmuError> {
        Ok(self.frames)
    }
}

struct FakeInput {
    events: Rc<RefCell<Vec<&'static str>>>,
}
impl InputPoller for FakeInput {
    fn poll_keys(&mut self, state: &mut KeyState) -> io::Result<()> {
        self.events.borrow_mut().push("input");
        state.set_quit(true);
        Ok(())
    }
}

struct FakeRenderer {
    events: Rc<RefCell<Vec<&'static str>>>,
    pixels: usize,
}
impl Renderer for FakeRenderer {
    fn draw(&mut self, pixels: &[u8]) -> io::Result<()> {
        self.events.borrow_mut().push("render");
        self.pixels = pixels.len();
        Ok(())
    }
}

struct FakeAudio {
    events: Rc<RefCell<Vec<&'static str>>>,
    samples: usize,
}
impl AudioSink for FakeAudio {
    fn push(&mut self, samples: &[i16]) -> io::Result<()> {
        self.events.borrow_mut().push("audio");
        self.samples = samples.len();
        Ok(())
    }
}

struct FailingRenderer;
impl Renderer for FailingRenderer {
    fn draw(&mut self, _pixels: &[u8]) -> io::Result<()> {
        Err(io::Error::new(io::ErrorKind::BrokenPipe, "renderer failed"))
    }
}

struct FailingAudio;
impl AudioSink for FailingAudio {
    fn push(&mut self, _samples: &[i16]) -> io::Result<()> {
        Err(io::Error::new(io::ErrorKind::BrokenPipe, "audio failed"))
    }
}

struct FailingInput;
impl InputPoller for FailingInput {
    fn poll_keys(&mut self, _state: &mut KeyState) -> io::Result<()> {
        Err(io::Error::new(io::ErrorKind::Interrupted, "input failed"))
    }
}

fn fake_emu(events: Rc<RefCell<Vec<&'static str>>>) -> Emu<FakeCore> {
    Emu::from_core(FakeCore {
        events,
        pixels: vec![0; GBA_PIXELS * 4],
        frames: 0,
    })
}

/// The frame loop without a pacer: turn after turn until one asks to quit.
fn run_with_emu<C: CoreBackend, R: Renderer, I: InputPoller, A: AudioSink>(
    emu: &mut Emu<C>,
    renderer: &mut R,
    input: &mut I,
    audio: &mut A,
) -> Result<(), RunError> {
    let mut keys = KeyState::default();
    loop {
        if run_turn(emu, renderer, input, audio, &mut keys)? == NextFrame::Quit {
            return Ok(());
        }
    }
}

#[test]
fn loop_orders_input_core_render_audio_and_honors_quit() {
    let events = Rc::new(RefCell::new(Vec::new()));
    let core = FakeCore {
        events: events.clone(),
        pixels: vec![0; GBA_PIXELS * 4],
        frames: 0,
    };
    let mut emu = Emu::from_core(core);
    let mut input = FakeInput {
        events: events.clone(),
    };
    let mut renderer = FakeRenderer {
        events: events.clone(),
        pixels: 0,
    };
    let mut audio = FakeAudio {
        events: events.clone(),
        samples: 0,
    };

    run_with_emu(&mut emu, &mut renderer, &mut input, &mut audio).unwrap();

    assert_eq!(&*events.borrow(), &["input", "core", "render", "audio"]);
    assert_eq!(renderer.pixels, GBA_PIXELS * 4);
    assert_eq!(audio.samples, 2);
    assert_eq!(emu.frame_counter().unwrap(), 1);
}

#[test]
fn loop_propagates_input_errors_before_advancing_the_core() {
    let events = Rc::new(RefCell::new(Vec::new()));
    let core = FakeCore {
        events,
        pixels: vec![0; GBA_PIXELS * 4],
        frames: 0,
    };
    let mut emu = Emu::from_core(core);
    let mut input = FailingInput;
    let mut renderer = FakeRenderer {
        events: Rc::new(RefCell::new(Vec::new())),
        pixels: 0,
    };
    let mut audio = FakeAudio {
        events: Rc::new(RefCell::new(Vec::new())),
        samples: 0,
    };

    assert!(matches!(
        run_with_emu(&mut emu, &mut renderer, &mut input, &mut audio),
        Err(RunError::Io(error)) if error.kind() == io::ErrorKind::Interrupted
    ));
    assert_eq!(emu.frame_counter().unwrap(), 0);
}

#[test]
fn loop_propagates_renderer_errors_before_audio() {
    let events = Rc::new(RefCell::new(Vec::new()));
    let mut emu = fake_emu(events.clone());
    let mut input = FakeInput { events };
    let mut renderer = FailingRenderer;
    let mut audio = FakeAudio {
        events: Rc::new(RefCell::new(Vec::new())),
        samples: 0,
    };

    assert!(matches!(
        run_with_emu(&mut emu, &mut renderer, &mut input, &mut audio),
        Err(RunError::Io(error)) if error.kind() == io::ErrorKind::BrokenPipe
    ));
    assert_eq!(emu.frame_counter().unwrap(), 1);
    assert_eq!(audio.samples, 0);
}

#[test]
fn loop_propagates_audio_errors_after_rendering() {
    let events = Rc::new(RefCell::new(Vec::new()));
    let mut emu = fake_emu(events.clone());
    let mut input = FakeInput {
        events: events.clone(),
    };
    let mut renderer = FakeRenderer { events, pixels: 0 };
    let mut audio = FailingAudio;

    assert!(matches!(
        run_with_emu(&mut emu, &mut renderer, &mut input, &mut audio),
        Err(RunError::Io(error)) if error.kind() == io::ErrorKind::BrokenPipe
    ));
    assert_eq!(renderer.pixels, GBA_PIXELS * 4);
}

#[test]
fn a_core_error_leaves_the_renderer_and_the_audio_alone() {
    let events = Rc::new(RefCell::new(Vec::new()));
    let mut emu = fake_emu(events.clone());
    emu.core.pixels.truncate(4);
    let mut input = FakeInput { events: events.clone() };
    let mut renderer = FakeRenderer { events: events.clone(), pixels: 0 };
    let mut audio = FakeAudio { events: events.clone(), samples: 0 };
    let error = run_with_emu(&mut emu, &mut renderer, &mut input, &mut audio).unwrap_err();
    assert_eq!(
        error.message(),
        "emulator error: invalid video buffer size: expected 153600, got 4"
    );
    assert_eq!(&*events.borrow(), &["input", "core"]);
}

/// Holds turbo for one turn, nothing for the next, and then quits.
struct ScriptedInput(u32);
impl InputPoller for ScriptedInput {
    fn poll_keys(&mut self, state: &mut KeyState) -> io::Result<()> {
        state.set(KEY_TURBO, self.0 == 0);
        state.set_quit(self.0 == 2);
        self.0 += 1;
        Ok(())
    }
}

#[test]
fn each_turn_says_how_to_go_on() {
    let events = Rc::new(RefCell::new(Vec::new()));
    let mut emu = fake_emu(events.clone());
    let mut input = ScriptedInput(0);
    let mut renderer = FakeRenderer { events: events.clone(), pixels: 0 };
    let mut audio = FakeAudio { events, samples: 0 };
    let mut keys = KeyState::new();
    let mut answers = Vec::new();
    for _ in 0..3 {
        answers.push(
            run_turn(&mut emu, &mut renderer, &mut input, &mut audio, &mut keys).unwrap(),
        );
    }
    assert_eq!(answers, vec![NextFrame::Turbo, NextFrame::Paced, NextFrame::Quit]);
    assert_eq!(emu.frame_counter().unwrap(), 3);
}

#[test]
fn quitting_comes_before_turbo() {
    assert_eq!(next_frame(KeyState::from_bits(KEY_QUIT | KEY_TURBO)), NextFrame::Quit);
    assert_eq!(next_frame(KeyState::from_bits(KEY_TURBO | KEY_A)), NextFrame::Turbo);
    assert_eq!(next_frame(KeyState::from_bits(KEY_A)), NextFrame::Paced);
}

#[test]
fn loop_messages_name_their_source() {
    let error = RunError::from(EmuError::Core(CoreError::RomLoadFailed));
    assert_eq!(error.message(), "emulator error: failed to load ROM");
    let error = RunError::from(io::Error::new(io::ErrorKind::Other, "pipe closed"));
    assert_eq!(error.message(), "I/O error: pipe closed");
    assert_eq!(io_failure_message("gone"), "I/O error: gone");
}

#[test]
fn the_pause_follows_the_keys() {
    let mut pacer = FramePacer::new(100, 0);
    assert_eq!(pause_after(NextFrame::Paced, &mut pacer, 30), Pause::Sleep(70));
    assert_eq!(pause_after(NextFrame::Paced, &mut pacer, 130), Pause::Sleep(0));
    assert_eq!(pause_after(NextFrame::Quit, &mut pacer, 130), Pause::Stop);
    assert_eq!(pacer.next_tick, 100);
    assert_eq!(pause_after(NextFrame::Turbo, &mut pacer, 130), Pause::Skip);
    assert_eq!(pacer.next_tick, 230);
}

#[test]
fn a_recording_sink_gets_every_sample() {
    let events = Rc::new(RefCell::new(Vec::new()));
    let mut emu = fake_emu(events.clone());
    let mut input = ScriptedInput(0);
    let mut renderer = FakeRenderer { events, pixels: 0 };
    let mut audio = MockAudioOut::new();
    run_with_emu(&mut emu, &mut renderer, &mut input, &mut audio).unwrap();
    assert_eq!(audio.into_buffer(), vec![1, 2, 1, 2, 1, 2]);
}
