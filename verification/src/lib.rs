//! The logic of a terminal frontend for Game Boy Advance games.

pub mod audio;
pub mod control;
pub mod demo;
pub mod demo_args;
pub mod emu;
pub mod input;
pub mod pacer;
pub mod pattern;
pub mod player;
pub mod ppm;
pub mod render;
pub mod run;
pub mod text;
pub mod translator;

pub use audio::{AudioSink, MockAudioOut, RingBuffer};
pub use emu::{Emu as Emulator, Frame};
pub use input::{
    poll_keys, set_key_logging, GbaButton, InputPoller, KeyState, RawModeGuard, TerminalInput,
    KEY_A, KEY_B, KEY_DOWN, KEY_L, KEY_LEFT, KEY_QUIT, KEY_R, KEY_RIGHT, KEY_SELECT, KEY_START,
    KEY_TURBO, KEY_UP,
};
pub use run::RunError;
