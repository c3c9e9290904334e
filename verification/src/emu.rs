//! Single-threaded wrapper around an emulator core.

use vstd::prelude::*;

use crate::input::KeyState;
use crate::text;

verus! {

pub const GBA_WIDTH: usize = 240;

pub const GBA_HEIGHT: usize = 160;

/// Pixels of one frame.
pub const GBA_PIXELS: usize = 38_400;

/// Number of i16 values reserved for one frame of stereo audio.
pub const AUDIO_BUFFER_VALUES: usize = 4096;

/// Data produced by one emulated frame.
///
/// Both slices are borrowed from [`Emu`] and remain valid until the next call
/// to [`Emu::tick`]. The pixel bytes are the native 240x160 four-byte XBGR8
/// framebuffer of the core.
pub struct Frame<'a> {
    pub pixels: &'a [u8],
    pub audio: &'a [i16],
}

impl<'a> Frame<'a> {
    pub const WIDTH: usize = GBA_WIDTH;

    pub const HEIGHT: usize = GBA_HEIGHT;

    pub const PIXEL_BYTES: usize = GBA_PIXELS * 4;

    /// A full framebuffer together with whole stereo pairs.
    pub open spec fn complete(&self) -> bool {
        self.pixels@.len() == Self::PIXEL_BYTES && self.audio@.len() % 2 == 0
    }

    pub fn is_complete(&self) -> (r: bool)
        ensures
            r == self.complete(),
    {
        self.pixels.len() == Self::PIXEL_BYTES && self.audio.len() % 2 == 0
    }
}

/// Failures of the emulator core itself.
#[derive(Debug, Clone, Copy, PartialEq, Eq, Structural)]
pub enum CoreError {
    /// The core could not be allocated.
    CreateFailed,
    /// The core's initialization failed.
    InitFailed,
    /// The ROM path is not valid UTF-8 or holds a null byte.
    InvalidPath,
    /// The ROM file could not be loaded.
    RomLoadFailed,
    /// The core lacks a required function.
    MissingFunction,
}

impl CoreError {
    /// The text shown for this failure.
    pub open spec fn text(self) -> Seq<char> {
        match self {
            CoreError::CreateFailed => "failed to create GBA core"@,
            CoreError::InitFailed => "failed to initialize GBA core"@,
            CoreError::InvalidPath => "invalid ROM path"@,
            CoreError::RomLoadFailed => "failed to load ROM"@,
            CoreError::MissingFunction => "missing core vtable function"@,
        }
    }

    pub fn message(&self) -> (r: &'static str)
        ensures
            r@ == self.text(),
    {
        match self {
            CoreError::CreateFailed => "failed to create GBA core",
            CoreError::InitFailed => "failed to initialize GBA core",
            CoreError::InvalidPath => "invalid ROM path",
            CoreError::RomLoadFailed => "failed to load ROM",
            CoreError::MissingFunction => "missing core vtable function",
        }
    }
}

/// Errors raised while creating or advancing the emulator.
#[derive(Debug)]
pub enum EmuError {
    Core(CoreError),
    Backend(String),
    InvalidVideoBuffer { expected: usize, actual: usize },
    InvalidAudioBuffer { max_samples: usize, actual_samples: usize },
}

impl EmuError {
    /// The text shown for this error.
    pub open spec fn text(self) -> Seq<char> {
        match self {
            EmuError::Core(error) => error.text(),
            EmuError::Backend(error) => error@,
            EmuError::InvalidVideoBuffer { expected, actual } => {
                "invalid video buffer size: expected "@ + text::decimal(expected as nat) + ", got "@
                    + text::decimal(actual as nat)
            },
            EmuError::InvalidAudioBuffer { max_samples, actual_samples } => {
                "invalid audio buffer size: maximum "@ + text::decimal(max_samples as nat)
                    + " samples, got "@ + text::decimal(actual_samples as nat)
            },
        }
    }

    /// The message of this error.
    pub fn message(&self) -> (r: String)
        ensures
            r@ == self.text(),
    {
        let mut out = String::new();
        match self {
            EmuError::Core(error) => {
                out.append(error.message());
            },
            EmuError::Backend(error) => {
                out.append(error.as_str());
            },
            EmuError::InvalidVideoBuffer { expected, actual } => {
                out.append("invalid video buffer size: expected ");
                text::push_decimal(&mut out, *expected as u128);
                out.append(", got ");
                text::push_decimal(&mut out, *actual as u128);
            },
            EmuError::InvalidAudioBuffer { max_samples, actual_samples } => {
                out.append("invalid audio buffer size: maximum ");
                text::push_decimal(&mut out, *max_samples as u128);
                out.append(" samples, got ");
                text::push_decimal(&mut out, *actual_samples as u128);
            },
        }
        assert(out@ =~= self.text());
        out
    }
}

impl From<CoreError> for EmuError {
    fn from(error: CoreError) -> (r: Self) {
        EmuError::Core(error)
    }
}

impl vstd::std_specs::convert::FromSpecImpl<CoreError> for EmuError {
    open spec fn obeys_from_spec() -> bool {
        true
    }

    open spec fn from_spec(error: CoreError) -> Self {
        EmuError::Core(error)
    }
}

/// The minimal core API required by the frontend.
///
/// Keeping this boundary small lets the frame loop and the emulator adapter be
/// tested with a deterministic fake core.
///
/// Each relation names what one call of a method may do to a core. A core can
/// define it; by default it demands nothing. Contracts use the relations to
/// say which calls are made, in which order, and with which arguments.
pub trait CoreBackend: Sized {
    /// `run_frame` may turn `before` into `after` and return `outcome`.
    open spec fn runs_frame(before: Self, after: Self, outcome: Result<(), EmuError>) -> bool {
        true
    }

    /// `set_keys(keys)` may turn `before` into `after` and return `outcome`.
    open spec fn takes_keys(
        before: Self,
        keys: u32,
        after: Self,
        outcome: Result<(), EmuError>,
    ) -> bool {
        true
    }

    /// `video_buffer` may return `pixels`.
    open spec fn shows(&self, pixels: Seq<u8>) -> bool {
        true
    }

    /// `read_audio_samples` on a buffer that holds `given` may turn `before`
    /// into `after`, leave `filled` in the buffer and return `outcome`.
    open spec fn reads_audio(
        before: Self,
        given: Seq<i16>,
        after: Self,
        filled: Seq<i16>,
        outcome: Result<usize, EmuError>,
    ) -> bool {
        true
    }

    /// `audio_sample_rate` may return `outcome`.
    open spec fn has_sample_rate(&self, outcome: Result<u32, EmuError>) -> bool {
        true
    }

    /// `frame_counter` may return `outcome`.
    open spec fn counts_frames(&self, outcome: Result<u32, EmuError>) -> bool {
        true
    }

    fn run_frame(&mut self) -> (r: Result<(), EmuError>)
        ensures
            Self::runs_frame(*old(self), *final(self), r),
    ;

    fn set_keys(&mut self, keys: u32) -> (r: Result<(), EmuError>)
        ensures
            Self::takes_keys(*old(self), keys, *final(self), r),
    ;

    fn video_buffer(&self) -> (r: &[u8])
        ensures
            self.shows(r@),
    ;

    fn read_audio_samples(&mut self, out: &mut [i16]) -> (r: Result<usize, EmuError>)
        ensures
            final(out)@.len() == old(out)@.len(),
            Self::reads_audio(*old(self), old(out)@, *final(self), final(out)@, r),
    ;

    fn audio_sample_rate(&self) -> (r: Result<u32, EmuError>)
        ensures
            self.has_sample_rate(r),
    ;

    fn frame_counter(&self) -> (r: Result<u32, EmuError>)
        ensures
            self.counts_frames(r),
    ;
}

/// A run of `n` silent samples.
pub open spec fn silence(n: nat) -> Seq<i16> {
    Seq::new(n, |i: int| 0i16)
}

/// What a core's count of stereo pairs comes to: the number of samples to
/// keep, or the error for a count that the buffer cannot hold.
pub open spec fn audio_verdict(pairs: usize) -> Result<nat, EmuError> {
    if pairs > AUDIO_BUFFER_VALUES / 2 {
        Err(
            EmuError::InvalidAudioBuffer {
                max_samples: AUDIO_BUFFER_VALUES,
                actual_samples: pairs.wrapping_mul(2),
            },
        )
    } else {
        Ok((pairs * 2) as nat)
    }
}

/// Check the number of stereo pairs that a core claims to have written, and
/// give the number of samples.
pub fn check_audio(pairs: usize) -> (r: Result<usize, EmuError>)
    ensures
        match audio_verdict(pairs) {
            Ok(n) => r == Ok::<usize, EmuError>(n as usize) && n <= AUDIO_BUFFER_VALUES,
            Err(e) => r == Err::<usize, EmuError>(e),
        },
{
    if pairs > AUDIO_BUFFER_VALUES / 2 {
        return Err(
            EmuError::InvalidAudioBuffer {
                max_samples: AUDIO_BUFFER_VALUES,
                actual_samples: pairs.wrapping_mul(2),
            },
        );
    }
    Ok(pairs * 2)
}

/// The error for a framebuffer of a wrong size, if it is one.
pub open spec fn video_fault(bytes: usize) -> Option<EmuError> {
    if bytes != Frame::PIXEL_BYTES {
        Some(EmuError::InvalidVideoBuffer { expected: Frame::PIXEL_BYTES, actual: bytes })
    } else {
        None
    }
}

/// Check the size of a core's framebuffer.
pub fn check_video(bytes: usize) -> (r: Result<(), EmuError>)
    ensures
        match video_fault(bytes) {
            Some(e) => r == Err::<(), EmuError>(e),
            None => r is Ok,
        },
{
    if bytes != Frame::PIXEL_BYTES {
        return Err(EmuError::InvalidVideoBuffer { expected: Frame::PIXEL_BYTES, actual: bytes });
    }
    Ok(())
}

/// What one tick of a core may do. The core runs one frame, its audio is read
/// into a silent buffer, and its framebuffer is looked at, each step only if
/// the one before it succeeded. The outcome is the pixels and the audio of the
/// frame, or the first error.
pub open spec fn ticks<C: CoreBackend>(
    before: C,
    after: C,
    outcome: Result<(Seq<u8>, Seq<i16>), EmuError>,
) -> bool {
    exists|ran: C, run: Result<(), EmuError>| #[trigger]
        C::runs_frame(before, ran, run) && match run {
            Err(e) => after == ran && outcome == Err::<(Seq<u8>, Seq<i16>), EmuError>(e),
            Ok(_) => reads_frame(ran, after, outcome),
        }
}

/// The part of a tick that follows the core's own work.
pub open spec fn reads_frame<C: CoreBackend>(
    ran: C,
    after: C,
    outcome: Result<(Seq<u8>, Seq<i16>), EmuError>,
) -> bool {
    exists|filled: Seq<i16>, read: Result<usize, EmuError>| #[trigger]
        C::reads_audio(ran, silence(AUDIO_BUFFER_VALUES as nat), after, filled, read)
            && filled.len() == AUDIO_BUFFER_VALUES && match read {
            Err(e) => outcome == Err::<(Seq<u8>, Seq<i16>), EmuError>(e),
            Ok(pairs) => match audio_verdict(pairs) {
                Err(e) => outcome == Err::<(Seq<u8>, Seq<i16>), EmuError>(e),
                Ok(n) => looks_at_frame(after, filled.take(n as int), outcome),
            },
        }
}

/// The part of a tick that follows the reading of the audio.
pub open spec fn looks_at_frame<C: CoreBackend>(
    after: C,
    audio: Seq<i16>,
    outcome: Result<(Seq<u8>, Seq<i16>), EmuError>,
) -> bool {
    exists|pixels: Seq<u8>| #[trigger]
        after.shows(pixels) && pixels.len() <= usize::MAX && match video_fault(
            pixels.len() as usize,
        ) {
            Some(e) => outcome == Err::<(Seq<u8>, Seq<i16>), EmuError>(e),
            None => outcome == Ok::<(Seq<u8>, Seq<i16>), EmuError>((pixels, audio)),
        }
}

/// The contents of the frame in a result, or its error.
pub open spec fn frame_view(r: Result<Frame<'_>, EmuError>) -> Result<
    (Seq<u8>, Seq<i16>),
    EmuError,
> {
    match r {
        Ok(frame) => Ok((frame.pixels@, frame.audio@)),
        Err(e) => Err(e),
    }
}

/// An emulator core together with the audio of its last frame.
pub struct Emu<C> {
    pub core: C,
    pub audio: Vec<i16>,
}

impl<C: CoreBackend> Emu<C> {
    pub fn from_core(core: C) -> (r: Self)
        ensures
            r.core == core,
            r.audio@ == Seq::<i16>::empty(),
    {
        Emu { core, audio: Vec::with_capacity(AUDIO_BUFFER_VALUES) }
    }

    /// Advance the core by one native frame and return its video and audio.
    pub fn tick(&mut self) -> (r: Result<Frame<'_>, EmuError>)
        ensures
            ticks(old(self).core, final(self).core, frame_view(r)),
            r matches Ok(frame) ==> frame.complete() && frame.audio@ == final(self).audio@
                && frame.audio@.len() <= AUDIO_BUFFER_VALUES,
    {
        let ran = self.core.run_frame();
        let ghost core_ran = self.core;
        if let Err(e) = ran {
            assert(C::runs_frame(old(self).core, core_ran, Err(e)));
            return Err(e);
        }
        self.audio.clear();
        self.audio.resize(AUDIO_BUFFER_VALUES, 0);
        assert(self.audio@ =~= silence(AUDIO_BUFFER_VALUES as nat));
        let read = self.core.read_audio_samples(self.audio.as_mut_slice());
        let ghost filled = self.audio@;
        assert(C::reads_audio(
            core_ran,
            silence(AUDIO_BUFFER_VALUES as nat),
            self.core,
            filled,
            read,
        ));
        let pairs: usize = match read {
            Ok(pairs) => pairs,
            Err(e) => {
                return Err(e);
            },
        };
        let samples: usize = match check_audio(pairs) {
            Ok(samples) => samples,
            Err(e) => {
                return Err(e);
            },
        };
        self.audio.truncate(samples);
        assert(self.audio@ =~= filled.take(samples as int));

        let pixels = self.core.video_buffer();
        if let Err(e) = check_video(pixels.len()) {
            return Err(e);
        }
        Ok(Frame { pixels, audio: self.audio.as_slice() })
    }

    /// Set the currently pressed GBA buttons.
    pub fn set_input(&mut self, keys: KeyState) -> (r: Result<(), EmuError>)
        ensures
            C::takes_keys(old(self).core, keys.game_bits() as u32, final(self).core, r),
            final(self).audio == old(self).audio,
    {
        self.core.set_keys(keys.gba_bits() as u32)
    }

    pub fn audio_sample_rate(&self) -> (r: Result<u32, EmuError>)
        ensures
            self.core.has_sample_rate(r),
    {
        self.core.audio_sample_rate()
    }

    pub fn frame_counter(&self) -> (r: Result<u32, EmuError>)
        ensures
            self.core.counts_frames(r),
    {
        self.core.frame_counter()
    }
}

/// A tick that succeeds gives a full framebuffer and at most a buffer of whole
/// stereo pairs.
pub proof fn a_ticked_frame_is_complete<C: CoreBackend>(
    before: C,
    after: C,
    pixels: Seq<u8>,
    audio: Seq<i16>,
)
    requires
        ticks(before, after, Ok::<(Seq<u8>, Seq<i16>), EmuError>((pixels, audio))),
    ensures
        pixels.len() == Frame::PIXEL_BYTES,
        audio.len() % 2 == 0,
        audio.len() <= AUDIO_BUFFER_VALUES,
        after.shows(pixels),
{
}

/// A tick that succeeds ran the core and handed it a buffer of zeros for the
/// audio. If the core reported `p` stereo pairs, the frame has exactly `2 * p`
/// samples, each the one that the core left at the same index, and the pixels
/// that the core shows.
pub proof fn a_tick_gives_all_that_the_core_left<C: CoreBackend>(
    before: C,
    after: C,
    pixels: Seq<u8>,
    audio: Seq<i16>,
)
    requires
        ticks(before, after, Ok::<(Seq<u8>, Seq<i16>), EmuError>((pixels, audio))),
    ensures
        after.shows(pixels),
        pixels.len() == 240 * 160 * 4,
        exists|ran: C, given: Seq<i16>, filled: Seq<i16>, p: usize|
            {
                &&& #[trigger] C::runs_frame(before, ran, Ok(()))
                &&& #[trigger] C::reads_audio(ran, given, after, filled, Ok(p))
                &&& given.len() == AUDIO_BUFFER_VALUES
                &&& forall|i: int| 0 <= i < given.len() ==> #[trigger] given[i] == 0
                &&& filled.len() == AUDIO_BUFFER_VALUES
                &&& p <= AUDIO_BUFFER_VALUES / 2
                &&& audio.len() == 2 * p
                &&& forall|i: int| 0 <= i < 2 * p ==> #[trigger] audio[i] == filled[i]
            },
{
    let whole = Ok::<(Seq<u8>, Seq<i16>), EmuError>((pixels, audio));
    let (ran, run) = choose|ran: C, run: Result<(), EmuError>| #[trigger]
        C::runs_frame(before, ran, run) && match run {
            Err(e) => false,
            Ok(_) => reads_frame(ran, after, whole),
        };
    assert(run is Ok);
    assert(run->Ok_0 == ());
    let given = silence(AUDIO_BUFFER_VALUES as nat);
    let (filled, read) = choose|filled: Seq<i16>, read: Result<usize, EmuError>| #[trigger]
        C::reads_audio(ran, given, after, filled, read) && filled.len() == AUDIO_BUFFER_VALUES
            && match read {
            Err(e) => false,
            Ok(pairs) => match audio_verdict(pairs) {
                Err(e) => false,
                Ok(n) => looks_at_frame(after, filled.take(n as int), whole),
            },
        };
    let p = read->Ok_0;
    assert(C::runs_frame(before, ran, Ok(())));
    assert(C::reads_audio(ran, given, after, filled, Ok(p)));
}

/// A tick that fails does so for one of four reasons: the core failed to run,
/// it failed to give its audio, it reported more pairs than the buffer holds,
/// or its framebuffer has the wrong size.
pub proof fn a_tick_fails_for_a_reason<C: CoreBackend>(before: C, after: C, e: EmuError)
    requires
        ticks(before, after, Err::<(Seq<u8>, Seq<i16>), EmuError>(e)),
    ensures
        C::runs_frame(before, after, Err(e)) || exists|
            ran: C,
            given: Seq<i16>,
            filled: Seq<i16>,
            read: Result<usize, EmuError>,
        |
            {
                &&& #[trigger] C::runs_frame(before, ran, Ok(()))
                &&& #[trigger] C::reads_audio(ran, given, after, filled, read)
                &&& match read {
                    Err(error) => e == error,
                    Ok(p) => if p > AUDIO_BUFFER_VALUES / 2 {
                        e matches EmuError::InvalidAudioBuffer { max_samples, actual_samples }
                            && max_samples == AUDIO_BUFFER_VALUES && (2 * p <= usize::MAX
                            ==> actual_samples == 2 * p)
                    } else {
                        e matches EmuError::InvalidVideoBuffer { expected, actual } && expected
                            == 240 * 160 * 4 && actual != expected && exists|pixels: Seq<u8>|
                            #[trigger] after.shows(pixels) && pixels.len() == actual
                    },
                }
            },
{
    let failed = Err::<(Seq<u8>, Seq<i16>), EmuError>(e);
    let (ran, run) = choose|ran: C, run: Result<(), EmuError>| #[trigger]
        C::runs_frame(before, ran, run) && match run {
            Err(error) => after == ran && failed == Err::<(Seq<u8>, Seq<i16>), EmuError>(error),
            Ok(_) => reads_frame(ran, after, failed),
        };
    if run is Ok {
        assert(run->Ok_0 == ());
        assert(C::runs_frame(before, ran, Ok(())));
        let given = silence(AUDIO_BUFFER_VALUES as nat);
        let (filled, read) = choose|filled: Seq<i16>, read: Result<usize, EmuError>| #[trigger]
            C::reads_audio(ran, given, after, filled, read) && filled.len() == AUDIO_BUFFER_VALUES
                && match read {
                Err(error) => failed == Err::<(Seq<u8>, Seq<i16>), EmuError>(error),
                Ok(pairs) => match audio_verdict(pairs) {
                    Err(error) => failed == Err::<(Seq<u8>, Seq<i16>), EmuError>(error),
                    Ok(n) => looks_at_frame(after, filled.take(n as int), failed),
                },
            };
        assert(C::reads_audio(ran, given, after, filled, read));
        if let Ok(p) = read {
            if p > AUDIO_BUFFER_VALUES / 2 {
                if 2 * p <= usize::MAX {
                    vstd::arithmetic::div_mod::lemma_small_mod(
                        p as nat * 2,
                        (usize::MAX + 1) as nat,
                    );
                    assert(p.wrapping_mul(2) == 2 * p);
                }
            } else {
                let pixels = choose|pixels: Seq<u8>| #[trigger]
                    after.shows(pixels) && pixels.len() <= usize::MAX && match video_fault(
                        pixels.len() as usize,
                    ) {
                        Some(error) => failed == Err::<(Seq<u8>, Seq<i16>), EmuError>(error),
                        None => false,
                    };
                assert(after.shows(pixels));
            }
        }
    } else {
        assert(run == Err::<(), EmuError>(e));
    }
}

/// Up to half a buffer of stereo pairs is kept, two samples for each, and more
/// is refused; a framebuffer is taken if it has four bytes for each pixel.
pub proof fn whole_buffers_are_accepted(pairs: usize, bytes: usize)
    ensures
        pairs <= 2048 <==> audio_verdict(pairs) is Ok,
        audio_verdict(pairs) matches Ok(n) ==> n == 2 * pairs,
        bytes == 153_600 <==> video_fault(bytes) is None,
{
}

/// The messages for a wrong buffer show both of its sizes in full; those of
/// the core and the backend are handed on as they are.
pub proof fn messages_show_the_sizes(first: usize, second: usize, error: CoreError, backend: String)
    ensures
        exists|a: Seq<char>, b: Seq<char>|
            {
                &&& text::is_numeral(a) && #[trigger] text::digits_value(a) == first
                &&& text::is_numeral(b) && #[trigger] text::digits_value(b) == second
                &&& (EmuError::InvalidVideoBuffer { expected: first, actual: second }).text()
                    == "invalid video buffer size: expected "@ + a + ", got "@ + b
                &&& (EmuError::InvalidAudioBuffer { max_samples: first, actual_samples: second }).text()
                    == "invalid audio buffer size: maximum "@ + a + " samples, got "@ + b
            },
        EmuError::Core(error).text() == error.text(),
        EmuError::Backend(backend).text() == backend@,
{
    text::lemma_decimal(first as nat);
    text::lemma_decimal(second as nat);
    let (a, b) = (text::decimal(first as nat), text::decimal(second as nat));
    assert(text::digits_value(a) == first && text::digits_value(b) == second);
}

/// What a tick is said to give is the whole of the frame that it returns.
pub proof fn a_frame_is_seen_whole(r: Result<Frame<'_>, EmuError>)
    ensures
        match r {
            Ok(frame) => frame_view(r) is Ok && frame_view(r)->Ok_0.0 == frame.pixels@
                && frame_view(r)->Ok_0.1 == frame.audio@,
            Err(e) => frame_view(r) == Err::<(Seq<u8>, Seq<i16>), EmuError>(e),
        },
{
}

/// A frame is complete if it has four bytes for each of 240 by 160 pixels and
/// as many left as right samples.
pub proof fn a_complete_frame_has_whole_pixels_and_pairs(frame: Frame<'_>)
    ensures
        frame.complete() <==> frame.pixels@.len() == 4 * (240 * 160) && exists|pairs: nat|
            frame.audio@.len() == #[trigger] (2 * pairs),
{
    assert(frame.audio@.len() == 2 * (frame.audio@.len() / 2) + frame.audio@.len() % 2);
    if frame.complete() {
        let pairs: nat = frame.audio@.len() / 2;
        assert(frame.audio@.len() == 2 * pairs);
    }
}

/// The error for too many stereo pairs shows the size of the buffer and the
/// number of samples that was claimed, as far as a machine word holds it.
pub proof fn too_many_pairs_are_told(pairs: usize)
    requires
        pairs > 2048,
    ensures
        audio_verdict(pairs) matches Err(EmuError::InvalidAudioBuffer { max_samples, actual_samples })
            && max_samples == 4096 && actual_samples == (2 * pairs) % (usize::MAX + 1),
{
}

/// The error for a framebuffer of a wrong size shows the size that was due and
/// the one that came.
pub proof fn a_wrong_framebuffer_is_told(bytes: usize)
    requires
        bytes != 153_600,
    ensures
        video_fault(bytes) matches Some(EmuError::InvalidVideoBuffer { expected, actual }) && expected
            == 153_600 && actual == bytes,
{
}

/// An error of the core is kept as it is.
pub proof fn a_core_error_is_kept(error: CoreError)
    ensures
        <EmuError as vstd::std_specs::convert::FromSpec<CoreError>>::obeys_from_spec(),
        <EmuError as vstd::std_specs::convert::FromSpec<CoreError>>::from_spec(error)
            == EmuError::Core(error),
{
}

} // verus!
