//! The frame loop: input, core, video, audio.

use vstd::prelude::*;

use crate::audio::AudioSink;
use crate::emu::{CoreBackend, Emu, EmuError};
use crate::input::{InputPoller, KeyState, KEY_QUIT, KEY_TURBO};
use crate::pacer::FramePacer;
use crate::render::Renderer;

verus! {

/// The error of an input source, a renderer or an audio sink, carried through
/// unread.
#[verifier::external_type_specification]
#[verifier::external_body]
pub struct ExIoError(std::io::Error);

/// Errors returned by the integrated emulation loop.
#[derive(Debug)]
pub enum RunError {
    Emu(EmuError),
    Io(std::io::Error),
}

impl From<EmuError> for RunError {
    fn from(error: EmuError) -> (r: Self) {
        RunError::Emu(error)
    }
}

impl vstd::std_specs::convert::FromSpecImpl<EmuError> for RunError {
    open spec fn obeys_from_spec() -> bool {
        true
    }

    open spec fn from_spec(error: EmuError) -> Self {
        RunError::Emu(error)
    }
}

impl From<std::io::Error> for RunError {
    fn from(error: std::io::Error) -> (r: Self) {
        RunError::Io(error)
    }
}

impl vstd::std_specs::convert::FromSpecImpl<std::io::Error> for RunError {
    open spec fn obeys_from_spec() -> bool {
        true
    }

    open spec fn from_spec(error: std::io::Error) -> Self {
        RunError::Io(error)
    }
}

/// The message of an emulator error in the loop, given the error's own text.
pub open spec fn emu_failure(text: Seq<char>) -> Seq<char> {
    "emulator error: "@ + text
}

/// The message of an I/O error in the loop, given the error's own text.
pub open spec fn io_failure(text: Seq<char>) -> Seq<char> {
    "I/O error: "@ + text
}

/// The message of an I/O error in the loop.
pub fn io_failure_message(text: &str) -> (r: String)
    ensures
        r@ == io_failure(text@),
{
    let mut out = String::new();
    out.append("I/O error: ");
    out.append(text);
    assert(out@ =~= io_failure(text@));
    out
}

impl RunError {
    /// The message of this error. An I/O error is shown by its own text, which
    /// is the system's.
    pub fn message(&self) -> (r: String)
        ensures
            match *self {
                RunError::Emu(error) => r@ == emu_failure(error.text()),
                RunError::Io(error) => exists|text: String| #[trigger]
                    vstd::string::to_string_from_display_ensures::<std::io::Error>(&error, text)
                        && r@ == io_failure(text@),
            },
    {
        match self {
            RunError::Emu(error) => {
                let mut out = String::new();
                out.append("emulator error: ");
                out.append(error.message().as_str());
                assert(out@ =~= emu_failure(error.text()));
                out
            },
            RunError::Io(error) => {
                let text = error.to_string();
                io_failure_message(text.as_str())
            },
        }
    }
}

/// What follows a completed frame.
#[derive(Debug, Clone, Copy, PartialEq, Eq, Structural)]
pub enum NextFrame {
    /// The loop ends.
    Quit,
    /// The next frame starts at once, and the pacer forgets its deadline.
    Turbo,
    /// The next frame waits for the pacer.
    Paced,
}

/// What the keys ask for after a frame: quitting comes before turbo.
pub open spec fn next_after(keys: KeyState) -> NextFrame {
    if keys.pressed(KEY_QUIT) {
        NextFrame::Quit
    } else if keys.pressed(KEY_TURBO) {
        NextFrame::Turbo
    } else {
        NextFrame::Paced
    }
}

/// Decide what follows a completed frame.
pub fn next_frame(keys: KeyState) -> (r: NextFrame)
    ensures
        r == next_after(keys),
{
    if keys.quit_pressed() {
        NextFrame::Quit
    } else if keys.turbo_pressed() {
        NextFrame::Turbo
    } else {
        NextFrame::Paced
    }
}

/// What one turn of the loop may do to the core, the renderer, the input, the
/// audio sink and the keys, each given before and after the turn. The input is
/// polled, and the rest follows only if that succeeded.
pub open spec fn turn_runs<C: CoreBackend, R: Renderer, I: InputPoller, A: AudioSink>(
    core: C,
    core_after: C,
    renderer: R,
    renderer_after: R,
    input: I,
    input_after: I,
    audio: A,
    audio_after: A,
    keys: KeyState,
    keys_after: KeyState,
    outcome: Result<NextFrame, RunError>,
) -> bool {
    exists|polled: Result<(), std::io::Error>| #[trigger]
        I::polls(input, keys, input_after, keys_after, polled) && match polled {
            Err(e) => outcome == Err::<NextFrame, RunError>(RunError::Io(e)) && core_after == core
                && renderer_after == renderer && audio_after == audio,
            Ok(_) => core_runs(
                core,
                core_after,
                renderer,
                renderer_after,
                audio,
                audio_after,
                keys_after,
                outcome,
            ),
        }
}

/// The core gets the GBA buttons of the polled keys and ticks; the rest
/// follows only if both succeeded.
pub open spec fn core_runs<C: CoreBackend, R: Renderer, A: AudioSink>(
    core: C,
    core_after: C,
    renderer: R,
    renderer_after: R,
    audio: A,
    audio_after: A,
    keys: KeyState,
    outcome: Result<NextFrame, RunError>,
) -> bool {
    exists|keyed: C, sent: Result<(), EmuError>| #[trigger]
        C::takes_keys(core, keys.game_bits() as u32, keyed, sent) && match sent {
            Err(e) => outcome == Err::<NextFrame, RunError>(RunError::Emu(e)) && core_after == keyed
                && renderer_after == renderer && audio_after == audio,
            Ok(_) => exists|ticked: Result<(Seq<u8>, Seq<i16>), EmuError>| #[trigger]
                crate::emu::ticks(keyed, core_after, ticked) && match ticked {
                    Err(e) => outcome == Err::<NextFrame, RunError>(RunError::Emu(e))
                        && renderer_after == renderer && audio_after == audio,
                    Ok((pixels, samples)) => frame_shows(
                        renderer,
                        renderer_after,
                        audio,
                        audio_after,
                        keys,
                        pixels,
                        samples,
                        outcome,
                    ),
                },
        }
}

/// The frame's pixels are drawn and then its samples pushed, the latter only
/// if the former succeeded.
pub open spec fn frame_shows<R: Renderer, A: AudioSink>(
    renderer: R,
    renderer_after: R,
    audio: A,
    audio_after: A,
    keys: KeyState,
    pixels: Seq<u8>,
    samples: Seq<i16>,
    outcome: Result<NextFrame, RunError>,
) -> bool {
    exists|drawn: Result<(), std::io::Error>| #[trigger]
        R::draws(renderer, pixels, renderer_after, drawn) && match drawn {
            Err(e) => outcome == Err::<NextFrame, RunError>(RunError::Io(e)) && audio_after == audio,
            Ok(_) => exists|pushed: Result<(), std::io::Error>| #[trigger]
                A::accepts(audio, samples, audio_after, pushed) && match pushed {
                    Err(e) => outcome == Err::<NextFrame, RunError>(RunError::Io(e)),
                    Ok(_) => outcome == Ok::<NextFrame, RunError>(next_after(keys)),
                },
        }
}

/// Run one turn of the native GBA frame loop: poll the input, hand the GBA
/// buttons to the core, advance it by one frame, draw the frame and push its
/// audio. The first error ends the turn.
pub fn run_turn<C: CoreBackend, R: Renderer, I: InputPoller, A: AudioSink>(
    emu: &mut Emu<C>,
    renderer: &mut R,
    input: &mut I,
    audio: &mut A,
    keys: &mut KeyState,
) -> (r: Result<NextFrame, RunError>)
    ensures
        turn_runs(
            old(emu).core,
            final(emu).core,
            *old(renderer),
            *final(renderer),
            *old(input),
            *final(input),
            *old(audio),
            *final(audio),
            *old(keys),
            *final(keys),
            r,
        ),
{
    let polled = input.poll_keys(keys);
    assert(I::polls(*old(input), *old(keys), *input, *keys, polled));
    if let Err(e) = polled {
        return Err(RunError::Io(e));
    }
    let sent = emu.set_input(*keys);
    assert(C::takes_keys(old(emu).core, keys.game_bits() as u32, emu.core, sent));
    let ghost keyed = emu.core;
    if let Err(e) = sent {
        return Err(RunError::Emu(e));
    }
    let ticked = emu.tick();
    let ghost view = crate::emu::frame_view(ticked);
    match ticked {
        Err(e) => {
            assert(crate::emu::ticks(keyed, emu.core, view));
            Err(RunError::Emu(e))
        },
        Ok(frame) => {
            let drawn = renderer.draw(frame.pixels);
            assert(R::draws(*old(renderer), frame.pixels@, *renderer, drawn));
            if let Err(e) = drawn {
                assert(crate::emu::ticks(keyed, emu.core, view));
                return Err(RunError::Io(e));
            }
            let pushed = audio.push(frame.audio);
            assert(A::accepts(*old(audio), frame.audio@, *audio, pushed));
            assert(crate::emu::ticks(keyed, emu.core, view));
            if let Err(e) = pushed {
                return Err(RunError::Io(e));
            }
            Ok(next_frame(*keys))
        },
    }
}

/// What the loop does between two turns.
#[derive(Debug, Clone, Copy, PartialEq, Eq, Structural)]
pub enum Pause {
    /// The loop ends.
    Stop,
    /// The next turn follows at once.
    Skip,
    /// The loop sleeps that long, not at all if it is late, and then schedules
    /// the next frame.
    Sleep(u128),
}

/// Decide what the loop does after a turn that ended at time `now`. Turbo
/// drops the frame-rate limit and leaves no stale deadline behind.
pub fn pause_after(next: NextFrame, pacer: &mut FramePacer, now: u128) -> (r: Pause)
    requires
        next == NextFrame::Turbo ==> now + old(pacer).interval <= u128::MAX,
    ensures
        final(pacer).interval == old(pacer).interval,
        match next {
            NextFrame::Quit => r == Pause::Stop && final(pacer).next_tick == old(pacer).next_tick,
            NextFrame::Turbo => r == Pause::Skip && final(pacer).next_tick == now + old(
                pacer,
            ).interval,
            NextFrame::Paced => final(pacer).next_tick == old(pacer).next_tick && r == Pause::Sleep(
                crate::pacer::waiting(old(pacer).next_tick as int, now as int) as u128,
            ),
        },
{
    match next {
        NextFrame::Quit => Pause::Stop,
        NextFrame::Turbo => {
            pacer.skip_frame(now);
            Pause::Skip
        },
        NextFrame::Paced => match pacer.time_until_next_frame(now) {
            Some(nanos) => Pause::Sleep(nanos),
            None => Pause::Sleep(0),
        },
    }
}

// ---------------------------------------------------------------------------
// Laws of the loop
// ---------------------------------------------------------------------------

/// A turn whose input fails reports that error and touches neither the core,
/// nor the renderer, nor the audio sink.
pub proof fn an_input_error_stops_before_the_core<
    C: CoreBackend,
    R: Renderer,
    I: InputPoller,
    A: AudioSink,
>(
    core: C,
    core_after: C,
    renderer: R,
    renderer_after: R,
    input: I,
    input_after: I,
    audio: A,
    audio_after: A,
    keys: KeyState,
    keys_after: KeyState,
    outcome: Result<NextFrame, RunError>,
)
    requires
        turn_runs(
            core,
            core_after,
            renderer,
            renderer_after,
            input,
            input_after,
            audio,
            audio_after,
            keys,
            keys_after,
            outcome,
        ),
        forall|polled: Result<(), std::io::Error>| #[trigger]
            I::polls(input, keys, input_after, keys_after, polled) ==> polled is Err,
    ensures
        core_after == core,
        renderer_after == renderer,
        audio_after == audio,
        outcome matches Err(RunError::Io(_)),
{
}

/// A turn whose core fails leaves the renderer and the audio sink alone.
pub proof fn a_core_error_stops_before_the_renderer<
    C: CoreBackend,
    R: Renderer,
    I: InputPoller,
    A: AudioSink,
>(
    core: C,
    core_after: C,
    renderer: R,
    renderer_after: R,
    input: I,
    input_after: I,
    audio: A,
    audio_after: A,
    keys: KeyState,
    keys_after: KeyState,
    outcome: Result<NextFrame, RunError>,
)
    requires
        turn_runs(
            core,
            core_after,
            renderer,
            renderer_after,
            input,
            input_after,
            audio,
            audio_after,
            keys,
            keys_after,
            outcome,
        ),
        outcome matches Err(RunError::Emu(_)),
    ensures
        renderer_after == renderer,
        audio_after == audio,
{
}

/// A turn whose renderer fails leaves the audio sink alone and does not
/// succeed.
pub proof fn a_renderer_error_stops_before_the_audio<
    C: CoreBackend,
    R: Renderer,
    I: InputPoller,
    A: AudioSink,
>(
    core: C,
    core_after: C,
    renderer: R,
    renderer_after: R,
    input: I,
    input_after: I,
    audio: A,
    audio_after: A,
    keys: KeyState,
    keys_after: KeyState,
    outcome: Result<NextFrame, RunError>,
)
    requires
        turn_runs(
            core,
            core_after,
            renderer,
            renderer_after,
            input,
            input_after,
            audio,
            audio_after,
            keys,
            keys_after,
            outcome,
        ),
        forall|pixels: Seq<u8>, drawn: Result<(), std::io::Error>| #[trigger]
            R::draws(renderer, pixels, renderer_after, drawn) ==> drawn is Err,
    ensures
        audio_after == audio,
        outcome is Err,
{
}

/// A turn that succeeds went through all of its stages: the core got the GBA
/// buttons and ticked, and the renderer and the sink took the very pixels and
/// samples of that tick, which are a complete frame.
pub proof fn a_completed_turn_went_through_every_stage<
    C: CoreBackend,
    R: Renderer,
    I: InputPoller,
    A: AudioSink,
>(
    core: C,
    core_after: C,
    renderer: R,
    renderer_after: R,
    input: I,
    input_after: I,
    audio: A,
    audio_after: A,
    keys: KeyState,
    keys_after: KeyState,
    next: NextFrame,
)
    requires
        turn_runs(
            core,
            core_after,
            renderer,
            renderer_after,
            input,
            input_after,
            audio,
            audio_after,
            keys,
            keys_after,
            Ok::<NextFrame, RunError>(next),
        ),
    ensures
        next == next_after(keys_after),
        I::polls(input, keys, input_after, keys_after, Ok(())),
        exists|keyed: C, pixels: Seq<u8>, samples: Seq<i16>|
            {
                &&& #[trigger] C::takes_keys(core, keys_after.game_bits() as u32, keyed, Ok(()))
                &&& crate::emu::ticks(
                    keyed,
                    core_after,
                    Ok::<(Seq<u8>, Seq<i16>), EmuError>((pixels, samples)),
                )
                &&& pixels.len() == crate::emu::Frame::PIXEL_BYTES
                &&& samples.len() % 2 == 0
                &&& #[trigger] R::draws(renderer, pixels, renderer_after, Ok(()))
                &&& #[trigger] A::accepts(audio, samples, audio_after, Ok(()))
            },
{
    let polled = choose|polled: Result<(), std::io::Error>| #[trigger]
        I::polls(input, keys, input_after, keys_after, polled) && match polled {
            Err(e) => false,
            Ok(_) => core_runs(
                core,
                core_after,
                renderer,
                renderer_after,
                audio,
                audio_after,
                keys_after,
                Ok::<NextFrame, RunError>(next),
            ),
        };
    assert(polled is Ok);
    assert(polled->Ok_0 == ());
    let (keyed, sent) = choose|keyed: C, sent: Result<(), EmuError>| #[trigger]
        C::takes_keys(core, keys_after.game_bits() as u32, keyed, sent) && match sent {
            Err(e) => false,
            Ok(_) => exists|ticked: Result<(Seq<u8>, Seq<i16>), EmuError>| #[trigger]
                crate::emu::ticks(keyed, core_after, ticked) && match ticked {
                    Err(e) => false,
                    Ok((pixels, samples)) => frame_shows(
                        renderer,
                        renderer_after,
                        audio,
                        audio_after,
                        keys_after,
                        pixels,
                        samples,
                        Ok::<NextFrame, RunError>(next),
                    ),
                },
        };
    assert(sent is Ok);
    assert(sent->Ok_0 == ());
    let ticked = choose|ticked: Result<(Seq<u8>, Seq<i16>), EmuError>| #[trigger]
        crate::emu::ticks(keyed, core_after, ticked) && match ticked {
            Err(e) => false,
            Ok((pixels, samples)) => frame_shows(
                renderer,
                renderer_after,
                audio,
                audio_after,
                keys_after,
                pixels,
                samples,
                Ok::<NextFrame, RunError>(next),
            ),
        };
    let (pixels, samples) = ticked->Ok_0;
    crate::emu::a_ticked_frame_is_complete(keyed, core_after, pixels, samples);
    let drawn = choose|drawn: Result<(), std::io::Error>| #[trigger]
        R::draws(renderer, pixels, renderer_after, drawn) && drawn is Ok && exists|
            pushed: Result<(), std::io::Error>,
        | #[trigger]
            A::accepts(audio, samples, audio_after, pushed) && pushed is Ok;
    assert(drawn is Ok);
    assert(drawn->Ok_0 == ());
    let pushed = choose|pushed: Result<(), std::io::Error>| #[trigger]
        A::accepts(audio, samples, audio_after, pushed) && pushed is Ok;
    assert(pushed is Ok);
    assert(pushed->Ok_0 == ());
}

/// The loop ends after a frame exactly when the quit key is down, and turbo
/// matters only while it is not.
pub proof fn quit_ends_the_loop(keys: KeyState)
    ensures
        next_after(keys) == NextFrame::Quit <==> keys.pressed(KEY_QUIT),
        next_after(keys) == NextFrame::Turbo <==> keys.pressed(KEY_TURBO) && !keys.pressed(
            KEY_QUIT,
        ),
{
}

/// The loop goes on by two keys alone: it ends if quit is down, and skips the
/// wait if turbo is down and quit is not.
pub proof fn the_loop_goes_on_by_two_keys(keys: KeyState)
    ensures
        next_after(keys) == NextFrame::Quit <==> crate::input::has_bit(keys.0, 15),
        next_after(keys) == NextFrame::Turbo <==> crate::input::has_bit(keys.0, 14)
            && !crate::input::has_bit(keys.0, 15),
        next_after(keys) == NextFrame::Paced <==> !crate::input::has_bit(keys.0, 14)
            && !crate::input::has_bit(keys.0, 15),
{
    assert(1u16 << 15 == 0x8000 && 1u16 << 14 == 0x4000) by (bit_vector);
}

/// A failing turn hands on the very error of the stage that failed: of the
/// input, of the core when it took the keys or ticked, of the renderer, or of
/// the audio sink. The stages before it have been gone through, with the keys
/// of the poll and the pixels and samples of the tick, and none after it.
pub proof fn a_failing_turn_hands_on_the_error_of_its_stage<
    C: CoreBackend,
    R: Renderer,
    I: InputPoller,
    A: AudioSink,
>(
    core: C,
    core_after: C,
    renderer: R,
    renderer_after: R,
    input: I,
    input_after: I,
    audio: A,
    audio_after: A,
    keys: KeyState,
    keys_after: KeyState,
    error: RunError,
)
    requires
        turn_runs(
            core,
            core_after,
            renderer,
            renderer_after,
            input,
            input_after,
            audio,
            audio_after,
            keys,
            keys_after,
            Err::<NextFrame, RunError>(error),
        ),
    ensures
        match error {
            RunError::Emu(e) => {
                &&& I::polls(input, keys, input_after, keys_after, Ok(()))
                &&& renderer_after == renderer
                &&& audio_after == audio
                &&& C::takes_keys(core, keys_after.game_bits() as u32, core_after, Err(e))
                    || exists|keyed: C| #[trigger]
                    C::takes_keys(core, keys_after.game_bits() as u32, keyed, Ok(()))
                        && crate::emu::ticks(
                        keyed,
                        core_after,
                        Err::<(Seq<u8>, Seq<i16>), EmuError>(e),
                    )
            },
            RunError::Io(e) => {
                ||| I::polls(input, keys, input_after, keys_after, Err(e)) && core_after == core
                    && renderer_after == renderer && audio_after == audio
                ||| I::polls(input, keys, input_after, keys_after, Ok(())) && exists|
                    keyed: C,
                    pixels: Seq<u8>,
                    samples: Seq<i16>,
                |
                    {
                        &&& #[trigger] C::takes_keys(
                            core,
                            keys_after.game_bits() as u32,
                            keyed,
                            Ok(()),
                        )
                        &&& #[trigger] crate::emu::ticks(
                            keyed,
                            core_after,
                            Ok::<(Seq<u8>, Seq<i16>), EmuError>((pixels, samples)),
                        )
                        &&& (R::draws(renderer, pixels, renderer_after, Err(e)) && audio_after
                            == audio) || (R::draws(renderer, pixels, renderer_after, Ok(()))
                            && A::accepts(audio, samples, audio_after, Err(e)))
                    }
            },
        },
{
    let outcome = Err::<NextFrame, RunError>(error);
    let polled = choose|polled: Result<(), std::io::Error>| #[trigger]
        I::polls(input, keys, input_after, keys_after, polled) && match polled {
            Err(e) => outcome == Err::<NextFrame, RunError>(RunError::Io(e)) && core_after == core
                && renderer_after == renderer && audio_after == audio,
            Ok(_) => core_runs(
                core,
                core_after,
                renderer,
                renderer_after,
                audio,
                audio_after,
                keys_after,
                outcome,
            ),
        };
    if polled is Err {
        assert(polled == Err::<(), std::io::Error>(error->Io_0));
    } else {
        assert(polled->Ok_0 == ());
        assert(polled == Ok::<(), std::io::Error>(()));
        let (keyed, sent) = choose|keyed: C, sent: Result<(), EmuError>| #[trigger]
            C::takes_keys(core, keys_after.game_bits() as u32, keyed, sent) && match sent {
                Err(e) => outcome == Err::<NextFrame, RunError>(RunError::Emu(e)) && core_after
                    == keyed && renderer_after == renderer && audio_after == audio,
                Ok(_) => exists|ticked: Result<(Seq<u8>, Seq<i16>), EmuError>| #[trigger]
                    crate::emu::ticks(keyed, core_after, ticked) && match ticked {
                        Err(e) => outcome == Err::<NextFrame, RunError>(RunError::Emu(e))
                            && renderer_after == renderer && audio_after == audio,
                        Ok((pixels, samples)) => frame_shows(
                            renderer,
                            renderer_after,
                            audio,
                            audio_after,
                            keys_after,
                            pixels,
                            samples,
                            outcome,
                        ),
                    },
            };
        if sent is Err {
            assert(sent == Err::<(), EmuError>(error->Emu_0));
        } else {
            assert(sent->Ok_0 == ());
            assert(C::takes_keys(core, keys_after.game_bits() as u32, keyed, Ok(())));
            let ticked = choose|ticked: Result<(Seq<u8>, Seq<i16>), EmuError>| #[trigger]
                crate::emu::ticks(keyed, core_after, ticked) && match ticked {
                    Err(e) => outcome == Err::<NextFrame, RunError>(RunError::Emu(e))
                        && renderer_after == renderer && audio_after == audio,
                    Ok((pixels, samples)) => frame_shows(
                        renderer,
                        renderer_after,
                        audio,
                        audio_after,
                        keys_after,
                        pixels,
                        samples,
                        outcome,
                    ),
                };
            match ticked {
                Err(e) => {
                    assert(ticked == Err::<(Seq<u8>, Seq<i16>), EmuError>(error->Emu_0));
                },
                Ok((pixels, samples)) => {
                    assert(ticked == Ok::<(Seq<u8>, Seq<i16>), EmuError>((pixels, samples)));
                    let drawn = choose|drawn: Result<(), std::io::Error>| #[trigger]
                        R::draws(renderer, pixels, renderer_after, drawn) && match drawn {
                            Err(e) => outcome == Err::<NextFrame, RunError>(RunError::Io(e))
                                && audio_after == audio,
                            Ok(_) => exists|pushed: Result<(), std::io::Error>| #[trigger]
                                A::accepts(audio, samples, audio_after, pushed) && match pushed {
                                    Err(e) => outcome == Err::<NextFrame, RunError>(
                                        RunError::Io(e),
                                    ),
                                    Ok(_) => outcome == Ok::<NextFrame, RunError>(
                                        next_after(keys_after),
                                    ),
                                },
                        };
                    if drawn is Err {
                        assert(drawn == Err::<(), std::io::Error>(error->Io_0));
                    } else {
                        assert(drawn->Ok_0 == ());
                        let pushed = choose|pushed: Result<(), std::io::Error>| #[trigger]
                            A::accepts(audio, samples, audio_after, pushed) && match pushed {
                                Err(e) => outcome == Err::<NextFrame, RunError>(RunError::Io(e)),
                                Ok(_) => outcome == Ok::<NextFrame, RunError>(
                                    next_after(keys_after),
                                ),
                            };
                        assert(pushed == Err::<(), std::io::Error>(error->Io_0));
                    }
                },
            }
        }
    }
}

/// A message shows the whole text of its error behind its source.
pub proof fn messages_show_the_whole_text(text: Seq<char>)
    ensures
        emu_failure(text).skip(16) == text,
        emu_failure(text).take(16) == "emulator error: "@,
        io_failure(text).skip(11) == text,
        io_failure(text).take(11) == "I/O error: "@,
{
    reveal_strlit("emulator error: ");
    reveal_strlit("I/O error: ");
    assert(emu_failure(text).skip(16) =~= text);
    assert(emu_failure(text).take(16) =~= "emulator error: "@);
    assert(io_failure(text).skip(11) =~= text);
    assert(io_failure(text).take(11) =~= "I/O error: "@);
}

/// An error of the emulator or of the system is kept as it is.
pub proof fn an_error_is_kept(emu: EmuError, io: std::io::Error)
    ensures
        <RunError as vstd::std_specs::convert::FromSpec<EmuError>>::obeys_from_spec(),
        <RunError as vstd::std_specs::convert::FromSpec<EmuError>>::from_spec(emu) == RunError::Emu(
            emu,
        ),
        <RunError as vstd::std_specs::convert::FromSpec<std::io::Error>>::obeys_from_spec(),
        <RunError as vstd::std_specs::convert::FromSpec<std::io::Error>>::from_spec(io)
            == RunError::Io(io),
{
}

} // verus!
