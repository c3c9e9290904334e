use termgba::emu::{check_audio, check_video, CoreBackend, CoreError, Emu, EmuError, GBA_PIXELS};
use termgba::{Frame, GbaButton, KeyState};

struct FakeCore {
    pixels: Vec<u8>,
    audio: Vec<i16>,
    keys: u32,
    frames: u32,
}

impl FakeCore {
    fn new() -> Self {
        Self {
            pixels: vec![0x42; GBA_PIXELS * 4],
            audio: vec![10, -10, 20, -20],
            keys: 0,
            frames: 0,
        }
    }
}

impl CoreBackend for FakeCore {
    fn run_frame(&mut self) -> Result<(), EmuError> {
        self.frames += 1;
        Ok(())
    }

    fn set_keys(&mut self, keys: u32) -> Result<(), EmuError> {
        self.keys = keys;
        Ok(())
    }

    fn video_buffer(&self) -> &[u8] {
        &self.pixels
    }

    fn read_audio_samples(&mut self, out: &mut [i16]) -> Result<usize, EmuError> {
        out[..self.audio.len()].copy_from_slice(&self.audio);
        Ok(self.audio.len() / 2)
    }

    fn audio_sample_rate(&self) -> Result<u32, EmuError> {
        Ok(32_768)
    }

    fn frame_counter(&self) -> Result<u32, EmuError> {
        Ok(self.frames)
    }
}

#[test]
fn fake_core_can_advance_and_produce_a_complete_frame() {
    let mut emu = Emu::from_core(FakeCore::new());
    let frame = emu.tick().unwrap();

    assert_eq!(frame.pixels.len(), Frame::PIXEL_BYTES);
    assert_eq!(frame.audio, &[10, -10, 20, -20]);
    assert!(frame.is_complete());
    assert_eq!(emu.frame_counter().unwrap(), 1);
}

#[test]
fn input_is_forwarded_without_frontend_quit_bit() {
    let mut core = FakeCore::new();
    let mut emu = Emu::from_core(core);
    let mut keys = KeyState::default();
    keys.set_button(GbaButton::A, true);
    keys.set_quit(true);
    emu.set_input(keys).unwrap();
    core = emu.core;

    assert_eq!(core.keys, GbaButton::A.mask() as u32);
}

#[test]
fn malformed_video_buffers_are_rejected() {
    let mut core = FakeCore::new();
    core.pixels.pop();
    let mut emu = Emu::from_core(core);

    assert!(matches!(
        emu.tick(),
        Err(EmuError::InvalidVideoBuffer { .. })
    ));
}

struct BadAudioCore(FakeCore);

impl CoreBackend for BadAudioCore {
    fn run_frame(&mut self) -> Result<(), EmuError> {
        self.0.run_frame()
    }
    fn set_keys(&mut self, keys: u32) -> Result<(), EmuError> {
        self.0.set_keys(keys)
    }
    fn video_buffer(&self) -> &[u8] {
        self.0.video_buffer()
    }
    fn read_audio_samples(&mut self, _out: &mut [i16]) -> Result<usize, EmuError> {
        Ok(3_000)
    }
    fn audio_sample_rate(&self) -> Result<u32, EmuError> {
        self.0.audio_sample_rate()
    }
    fn frame_counter(&self) -> Result<u32, EmuError> {
        self.0.frame_counter()
    }
}

#[test]
fn oversized_audio_buffers_are_rejected() {
    let mut emu = Emu::from_core(BadAudioCore(FakeCore::new()));
    assert!(matches!(
        emu.tick(),
        Err(EmuError::InvalidAudioBuffer { .. })
    ));
}

/// A core whose every call fails.
struct DeadCore;

impl CoreBackend for DeadCore {
    fn run_frame(&mut self) -> Result<(), EmuError> {
        Err(EmuError::Backend("out of order".to_string()))
    }
    fn set_keys(&mut self, _keys: u32) -> Result<(), EmuError> {
        Err(EmuError::from(CoreError::MissingFunction))
    }
    fn video_buffer(&self) -> &[u8] {
        &[]
    }
    fn read_audio_samples(&mut self, _out: &mut [i16]) -> Result<usize, EmuError> {
        Err(EmuError::Core(CoreError::MissingFunction))
    }
    fn audio_sample_rate(&self) -> Result<u32, EmuError> {
        Err(EmuError::Core(CoreError::InitFailed))
    }
    fn frame_counter(&self) -> Result<u32, EmuError> {
        Err(EmuError::Core(CoreError::CreateFailed))
    }
}

#[test]
fn core_errors_come_through() {
    let mut emu = Emu::from_core(DeadCore);
    assert_eq!(emu.tick().err().unwrap().message(), "out of order");
    assert_eq!(
        emu.set_input(KeyState::new()).unwrap_err().message(),
        "missing core vtable function"
    );
    assert_eq!(
        emu.audio_sample_rate().unwrap_err().message(),
        "failed to initialize GBA core"
    );
    assert_eq!(emu.frame_counter().unwrap_err().message(), "failed to create GBA core");
}

#[test]
fn the_sample_rate_is_the_core_s() {
    assert_eq!(Emu::from_core(FakeCore::new()).audio_sample_rate().unwrap(), 32_768);
}

#[test]
fn audio_is_counted_in_stereo_pairs() {
    assert_eq!(check_audio(0).unwrap(), 0);
    assert_eq!(check_audio(2048).unwrap(), 4096);
    assert_eq!(
        check_audio(2049).unwrap_err().message(),
        "invalid audio buffer size: maximum 4096 samples, got 4098"
    );
    assert!(matches!(
        check_audio(usize::MAX),
        Err(EmuError::InvalidAudioBuffer { actual_samples, .. }) if actual_samples == usize::MAX - 1
    ));
}

#[test]
fn a_framebuffer_has_one_size() {
    assert!(check_video(153_600).is_ok());
    assert_eq!(
        check_video(153_599).unwrap_err().message(),
        "invalid video buffer size: expected 153600, got 153599"
    );
}

#[test]
fn samples_beyond_the_count_are_dropped() {
    let mut core = FakeCore::new();
    core.audio = vec![1, 2, 3];
    let mut emu = Emu::from_core(core);
    assert_eq!(emu.tick().unwrap().audio, &[1, 2]);
}

#[test]
fn frames_with_odd_audio_or_few_pixels_are_incomplete() {
    let pixels = vec![0; Frame::PIXEL_BYTES];
    assert!(!Frame { pixels: &pixels, audio: &[1] }.is_complete());
    assert!(!Frame { pixels: &pixels[1..], audio: &[] }.is_complete());
    assert!(Frame { pixels: &pixels, audio: &[] }.is_complete());
    assert_eq!(Frame::WIDTH * Frame::HEIGHT, GBA_PIXELS);
}

#[test]
fn core_messages() {
    assert_eq!(CoreError::CreateFailed.message(), "failed to create GBA core");
    assert_eq!(CoreError::InitFailed.message(), "failed to initialize GBA core");
    assert_eq!(CoreError::InvalidPath.message(), "invalid ROM path");
    assert_eq!(CoreError::RomLoadFailed.message(), "failed to load ROM");
    assert_eq!(CoreError::MissingFunction.message(), "missing core vtable function");
}
