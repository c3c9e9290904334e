//! Headless newline-delimited control endpoint.
//!
//! The endpoint has no renderer. It owns one emulator core, accepts
//! frame-accurate input packets, and answers with a deterministic checkpoint
//! of the framebuffer. A packet is one line in a small subset of JSON.

use vstd::prelude::*;
use vstd::slice::slice_subrange;

use crate::emu::{CoreBackend, Emu, EmuError, Frame};
use crate::input::{GbaButton, KeyState};
use crate::text;

verus! {

// ---------------------------------------------------------------------------
// Reading a packet
// ---------------------------------------------------------------------------

/// A field's name as it is written in a packet.
pub open spec fn quoted(name: Seq<char>) -> Seq<char> {
    seq!['"'] + name + seq!['"']
}

/// What follows the first `"name":` of a line, without white space around the
/// colon.
pub open spec fn field_of(line: Seq<char>, name: Seq<char>) -> Option<Seq<char>> {
    match text::find(line, quoted(name)) {
        None => None,
        Some(i) => {
            let rest = text::trim_start(line.skip(i + quoted(name).len()));
            if rest.len() > 0 && rest[0] == ':' {
                Some(text::trim_start(rest.drop_first()))
            } else {
                None
            }
        },
    }
}

/// The value of a string field, up to its closing quote or the end of the line.
pub open spec fn string_of(line: Seq<char>, name: Seq<char>) -> Option<Seq<char>> {
    match field_of(line, name) {
        Some(rest) => if rest.len() > 0 && rest[0] == '"' {
            Some(text::before(rest.drop_first(), '"'))
        } else {
            None
        },
        None => None,
    }
}

/// The value of a number field: the digits that it begins with.
pub open spec fn number_of(line: Seq<char>, name: Seq<char>) -> Option<nat> {
    match field_of(line, name) {
        Some(rest) => text::unsigned(
            rest.take(text::leading_digits(rest) as int),
            u64::MAX as nat,
        ),
        None => None,
    }
}

/// The quoted names inside the brackets of the `buttons` field; none if there
/// is no such field, and an error if the field is no array.
pub open spec fn names_of(line: Seq<char>) -> Result<Seq<Seq<char>>, Seq<char>> {
    match field_of(line, "buttons"@) {
        None => Ok(Seq::empty()),
        Some(rest) => if rest.len() > 0 && rest[0] == '[' {
            let pieces = text::split_on(text::before(rest.drop_first(), ']'), '"');
            Ok(Seq::new(pieces.len() / 2, |i: int| pieces[2 * i + 1]))
        } else {
            Err("buttons must be an array"@)
        },
    }
}

/// Where the field's value begins, in characters of the line.
fn find_field(line: &[char], name: &str) -> (r: Option<usize>)
    ensures
        match r {
            Some(i) => i <= line@.len() && field_of(line@, name@) == Some(line@.skip(i as int)),
            None => field_of(line@, name@) is None,
        },
{
    let mut marker: Vec<char> = Vec::new();
    marker.push('"');
    let mut name_chars = text::chars_of(name);
    marker.append(&mut name_chars);
    marker.push('"');
    assert(marker@ =~= quoted(name@));
    match text::find_text(line, marker.as_slice()) {
        None => None,
        Some(at) => {
            let ghost after = line@.skip(at + marker@.len());
            assert(line.len() <= usize::MAX);
            let colon = text::skip_spaces(line, at + marker.len());
            let ghost rest = text::trim_start(after);
            assert(line@.skip(colon as int) == rest);
            if colon < line.len() && line[colon] == ':' {
                assert(rest[0] == ':');
                assert(rest.drop_first() =~= line@.skip(colon + 1));
                Some(text::skip_spaces(line, colon + 1))
            } else {
                None
            }
        },
    }
}

/// What follows the first `"name":` of a line.
pub fn field<'a>(line: &'a str, name: &str) -> (r: Option<&'a str>)
    ensures
        match r {
            Some(rest) => field_of(line@, name@) == Some(rest@),
            None => field_of(line@, name@) is None,
        },
{
    let chars = text::chars_of(line);
    match find_field(chars.as_slice(), name) {
        Some(i) => {
            assert(line@.subrange(i as int, line@.len() as int) =~= line@.skip(i as int));
            Some(line.substring_char(i, chars.len()))
        },
        None => None,
    }
}

/// The value of a string field.
pub fn string_field(line: &str, name: &str) -> (r: Option<String>)
    ensures
        match r {
            Some(value) => string_of(line@, name@) == Some(value@),
            None => string_of(line@, name@) is None,
        },
{
    let chars = text::chars_of(line);
    match find_field(chars.as_slice(), name) {
        None => None,
        Some(i) => {
            let ghost rest = chars@.skip(i as int);
            if i < chars.len() && chars[i] == '"' {
                assert(rest.drop_first() =~= chars@.skip(i + 1));
                proof {
                    text::lemma_index_of(rest.drop_first(), '"');
                }
                let end = text::find_char(chars.as_slice(), i + 1, '"');
                let value = slice_subrange(chars.as_slice(), i + 1, end);
                assert(value@ =~= text::before(rest.drop_first(), '"'));
                Some(text::string_of(value))
            } else {
                None
            }
        },
    }
}

/// The value of a number field.
pub fn number_field(line: &str, name: &str) -> (r: Option<u64>)
    ensures
        match r {
            Some(value) => number_of(line@, name@) == Some(value as nat),
            None => number_of(line@, name@) is None,
        },
{
    let chars = text::chars_of(line);
    match find_field(chars.as_slice(), name) {
        None => None,
        Some(i) => {
            let ghost rest = chars@.skip(i as int);
            proof {
                text::lemma_leading_digits(rest);
            }
            let end = text::skip_digits(chars.as_slice(), i);
            let digits = slice_subrange(chars.as_slice(), i, end);
            assert(digits@ =~= rest.take(text::leading_digits(rest) as int));
            text::parse_unsigned(digits, u64::MAX)
        },
    }
}

/// The names in the `buttons` field.
pub fn button_names(line: &str) -> (r: Result<Vec<String>, String>)
    ensures
        match r {
            Ok(names) => names_of(line@) == Ok::<Seq<Seq<char>>, Seq<char>>(text::texts(names@)),
            Err(message) => names_of(line@) == Err::<Seq<Seq<char>>, Seq<char>>(message@),
        },
{
    let chars = text::chars_of(line);
    match find_field(chars.as_slice(), "buttons") {
        None => {
            let names: Vec<String> = Vec::new();
            assert(text::texts(names@) =~= Seq::<Seq<char>>::empty());
            Ok(names)
        },
        Some(i) => {
            let ghost rest = chars@.skip(i as int);
            if i < chars.len() && chars[i] == '[' {
                assert(rest.drop_first() =~= chars@.skip(i + 1));
                proof {
                    text::lemma_index_of(rest.drop_first(), ']');
                }
                let end = text::find_char(chars.as_slice(), i + 1, ']');
                let body = slice_subrange(chars.as_slice(), i + 1, end);
                assert(body@ =~= text::before(rest.drop_first(), ']'));
                let pieces = text::split_text(body, '"');
                let ghost all = text::split_on(body@, '"');
                let mut names: Vec<String> = Vec::new();
                let count: usize = pieces.len() / 2;
                let mut k: usize = 0;
                while k < count
                    invariant
                        count == pieces@.len() / 2,
                        pieces@.len() <= usize::MAX,
                        text::texts(pieces@) == all,
                        k == names@.len(),
                        k <= count,
                        forall|j: int|
                            0 <= j < names@.len() ==> (#[trigger] names@[j])@ == all[2 * j + 1],
                    decreases count - k,
                {
                    names.push(pieces[2 * k + 1].clone());
                    k = k + 1;
                }
                assert(text::texts(names@) =~= Seq::new(all.len() / 2, |j: int| all[2 * j + 1]));
                Ok(names)
            } else {
                Err("buttons must be an array".to_owned())
            }
        },
    }
}

// ---------------------------------------------------------------------------
// Buttons
// ---------------------------------------------------------------------------

/// The button with the given name.
pub open spec fn button_named(name: Seq<char>) -> Option<GbaButton> {
    if name == "a"@ {
        Some(GbaButton::A)
    } else if name == "b"@ {
        Some(GbaButton::B)
    } else if name == "select"@ {
        Some(GbaButton::Select)
    } else if name == "start"@ {
        Some(GbaButton::Start)
    } else if name == "right"@ {
        Some(GbaButton::Right)
    } else if name == "left"@ {
        Some(GbaButton::Left)
    } else if name == "up"@ {
        Some(GbaButton::Up)
    } else if name == "down"@ {
        Some(GbaButton::Down)
    } else if name == "r"@ {
        Some(GbaButton::R)
    } else if name == "l"@ {
        Some(GbaButton::L)
    } else {
        None
    }
}

fn button_of(name: &str) -> (r: Option<GbaButton>)
    ensures
        r == button_named(name@),
{
    if text::same_text(name, "a") {
        Some(GbaButton::A)
    } else if text::same_text(name, "b") {
        Some(GbaButton::B)
    } else if text::same_text(name, "select") {
        Some(GbaButton::Select)
    } else if text::same_text(name, "start") {
        Some(GbaButton::Start)
    } else if text::same_text(name, "right") {
        Some(GbaButton::Right)
    } else if text::same_text(name, "left") {
        Some(GbaButton::Left)
    } else if text::same_text(name, "up") {
        Some(GbaButton::Up)
    } else if text::same_text(name, "down") {
        Some(GbaButton::Down)
    } else if text::same_text(name, "r") {
        Some(GbaButton::R)
    } else if text::same_text(name, "l") {
        Some(GbaButton::L)
    } else {
        None
    }
}

/// The key bits after the named buttons went down, or the complaint about the
/// first name that is no button's.
pub open spec fn bits_with(bits: u16, names: Seq<Seq<char>>) -> Result<u16, Seq<char>>
    decreases names.len(),
{
    if names.len() == 0 {
        Ok(bits)
    } else {
        match button_named(names[0]) {
            Some(button) => bits_with(
                crate::input::with_key(bits, 1u16 << (button.index() as u16), true),
                names.drop_first(),
            ),
            None => Err("unknown button '"@ + names[0] + "'"@),
        }
    }
}

/// The key state with the named buttons down and nothing else.
pub fn button_state(names: &[String]) -> (r: Result<KeyState, String>)
    ensures
        match r {
            Ok(state) => bits_with(0, text::texts(names@)) == Ok::<u16, Seq<char>>(state.0),
            Err(message) => bits_with(0, text::texts(names@)) == Err::<u16, Seq<char>>(message@),
        },
{
    let mut state = KeyState::default();
    let mut i: usize = 0;
    let ghost all = text::texts(names@);
    assert(all.skip(0) =~= all);
    while i < names.len()
        invariant
            i <= names@.len(),
            all == text::texts(names@),
            bits_with(0, all) == bits_with(state.0, all.skip(i as int)),
        decreases names@.len() - i,
    {
        let name = names[i].as_str();
        assert(all.skip(i as int)[0] == name@);
        assert(all.skip(i as int).drop_first() =~= all.skip(i + 1));
        match button_of(name) {
            Some(button) => state.set_button(button, true),
            None => {
                let mut message = String::new();
                message.append("unknown button '");
                message.append(name);
                message.append("'");
                assert(message@ =~= "unknown button '"@ + name@ + "'"@);
                return Err(message);
            },
        }
        i = i + 1;
    }
    Ok(state)
}

// ---------------------------------------------------------------------------
// Packets
// ---------------------------------------------------------------------------

/// What a packet asks for.
#[derive(Debug)]
pub enum Command {
    /// An empty line: nothing is asked and nothing is answered.
    Blank,
    /// The packet cannot be carried out.
    Rejected { sequence: Option<u64>, message: String },
    /// Advance by some frames with the given keys down.
    Step { sequence: Option<u64>, frames: u32, keys: KeyState },
    /// End the session.
    Quit { sequence: Option<u64> },
}

/// The model of a [`Command`].
pub ghost enum Request {
    Blank,
    Rejected(Option<nat>, Seq<char>),
    Step(Option<nat>, nat, KeyState),
    Quit(Option<nat>),
}

/// A sequence number as a mathematical number.
pub open spec fn sequence_view(sequence: Option<u64>) -> Option<nat> {
    match sequence {
        Some(n) => Some(n as nat),
        None => None,
    }
}

impl View for Command {
    type V = Request;

    open spec fn view(&self) -> Request {
        match *self {
            Command::Blank => Request::Blank,
            Command::Rejected { sequence, message } => Request::Rejected(
                sequence_view(sequence),
                message@,
            ),
            Command::Step { sequence, frames, keys } => Request::Step(
                sequence_view(sequence),
                frames as nat,
                keys,
            ),
            Command::Quit { sequence } => Request::Quit(sequence_view(sequence)),
        }
    }
}

/// How many frames a step asks for: one by default, and the given number
/// reduced to 32 bits otherwise.
pub open spec fn frames_of(line: Seq<char>) -> nat {
    match number_of(line, "frames"@) {
        Some(n) => n % 0x1_0000_0000,
        None => 1,
    }
}

/// What a line asks for.
pub open spec fn request_of(line: Seq<char>) -> Request {
    let sequence = number_of(line, "sequence"@);
    if text::is_blank(line) {
        Request::Blank
    } else {
        match string_of(line, "op"@) {
            None => Request::Rejected(sequence, "missing op"@),
            Some(op) => if op == "step"@ {
                if frames_of(line) == 0 {
                    Request::Rejected(sequence, "frames must be greater than zero"@)
                } else {
                    match names_of(line) {
                        Err(message) => Request::Rejected(sequence, message),
                        Ok(names) => match bits_with(0, names) {
                            Err(message) => Request::Rejected(sequence, message),
                            Ok(bits) => Request::Step(sequence, frames_of(line), KeyState(bits)),
                        },
                    }
                }
            } else if op == "quit"@ {
                Request::Quit(sequence)
            } else {
                Request::Rejected(sequence, "unknown operation"@)
            },
        }
    }
}

/// Read a packet.
pub fn parse_command(line: &str) -> (r: Command)
    ensures
        r@ == request_of(line@),
        r matches Command::Step { frames, .. } ==> frames > 0,
{
    let chars = text::chars_of(line);
    if text::blank(chars.as_slice()) {
        return Command::Blank;
    }
    let sequence = number_field(line, "sequence");
    let op = match string_field(line, "op") {
        Some(op) => op,
        None => {
            return Command::Rejected { sequence, message: "missing op".to_owned() };
        },
    };
    if text::same_text(op.as_str(), "step") {
        let frames: u32 = match number_field(line, "frames") {
            Some(n) => (n % 0x1_0000_0000) as u32,
            None => 1,
        };
        if frames == 0 {
            return Command::Rejected {
                sequence,
                message: "frames must be greater than zero".to_owned(),
            };
        }
        let names = match button_names(line) {
            Ok(names) => names,
            Err(message) => {
                return Command::Rejected { sequence, message };
            },
        };
        match button_state(names.as_slice()) {
            Ok(keys) => Command::Step { sequence, frames, keys },
            Err(message) => Command::Rejected { sequence, message },
        }
    } else if text::same_text(op.as_str(), "quit") {
        Command::Quit { sequence }
    } else {
        Command::Rejected { sequence, message: "unknown operation".to_owned() }
    }
}

// ---------------------------------------------------------------------------
// Answers
// ---------------------------------------------------------------------------

/// A sequence number as it is written in an answer.
pub open spec fn sequence_text(sequence: Option<nat>) -> Seq<char> {
    match sequence {
        Some(n) => text::decimal(n),
        None => "null"@,
    }
}

/// A message with its quotes escaped.
pub open spec fn escaped(message: Seq<char>) -> Seq<char>
    decreases message.len(),
{
    if message.len() == 0 {
        Seq::empty()
    } else {
        escaped(message.drop_last()) + (if message.last() == '"' {
            seq!['\\', '"']
        } else {
            seq![message.last()]
        })
    }
}

/// The answer to a packet that cannot be carried out.
pub open spec fn error_line(sequence: Option<nat>, message: Seq<char>) -> Seq<char> {
    "{\"ok\":false,\"event\":\"error\",\"sequence\":"@ + sequence_text(sequence)
        + ",\"error\":\""@ + escaped(message) + "\"}"@
}

/// The answer to a step that ended with the given frame count, pixel bytes and
/// digest.
pub open spec fn step_line(
    sequence: Option<nat>,
    count: nat,
    bytes: nat,
    hash: Seq<char>,
) -> Seq<char> {
    "{\"ok\":true,\"event\":\"step\",\"sequence\":"@ + sequence_text(sequence)
        + ",\"frame\":{\"count\":"@ + text::decimal(count) + ",\"width\":"@ + text::decimal(
        Frame::WIDTH as nat,
    ) + ",\"height\":"@ + text::decimal(Frame::HEIGHT as nat) + ",\"pixel_bytes\":"@
        + text::decimal(bytes) + ",\"hash\":\""@ + hash + "\"}}"@
}

/// The answer to a request to quit.
pub open spec fn quit_line(sequence: Option<nat>) -> Seq<char> {
    "{\"ok\":true,\"event\":\"quit\",\"sequence\":"@ + sequence_text(sequence) + "}"@
}

fn push_sequence(out: &mut String, sequence: Option<u64>)
    ensures
        final(out)@ == old(out)@ + sequence_text(sequence_view(sequence)),
{
    match sequence {
        Some(n) => text::push_decimal(out, n as u128),
        None => out.append("null"),
    }
}

fn push_escaped(out: &mut String, message: &str)
    ensures
        final(out)@ == old(out)@ + escaped(message@),
{
    let chars = text::chars_of(message);
    let mut i: usize = 0;
    assert(old(out)@ + escaped(chars@.take(0)) =~= old(out)@);
    while i < chars.len()
        invariant
            i <= chars@.len(),
            out@ == old(out)@ + escaped(chars@.take(i as int)),
        decreases chars@.len() - i,
    {
        let c = chars[i];
        assert(chars@.take(i + 1).drop_last() =~= chars@.take(i as int));
        if c == '"' {
            text::push_char(out, '\\');
        }
        text::push_char(out, c);
        assert(out@ =~= old(out)@ + escaped(chars@.take(i + 1)));
        i = i + 1;
    }
    assert(chars@.take(i as int) =~= chars@);
}

/// The answer to a packet that cannot be carried out.
pub fn json_error(sequence: Option<u64>, message: &str) -> (r: String)
    ensures
        r@ == error_line(sequence_view(sequence), message@),
{
    let mut out = String::new();
    out.append("{\"ok\":false,\"event\":\"error\",\"sequence\":");
    push_sequence(&mut out, sequence);
    out.append(",\"error\":\"");
    push_escaped(&mut out, message);
    out.append("\"}");
    assert(out@ =~= error_line(sequence_view(sequence), message@));
    out
}

/// The answer to a completed step.
pub fn step_answer(sequence: Option<u64>, count: u32, bytes: usize, hash: &str) -> (r: String)
    ensures
        r@ == step_line(sequence_view(sequence), count as nat, bytes as nat, hash@),
{
    let mut out = String::new();
    out.append("{\"ok\":true,\"event\":\"step\",\"sequence\":");
    push_sequence(&mut out, sequence);
    out.append(",\"frame\":{\"count\":");
    text::push_decimal(&mut out, count as u128);
    out.append(",\"width\":");
    text::push_decimal(&mut out, Frame::WIDTH as u128);
    out.append(",\"height\":");
    text::push_decimal(&mut out, Frame::HEIGHT as u128);
    out.append(",\"pixel_bytes\":");
    text::push_decimal(&mut out, bytes as u128);
    out.append(",\"hash\":\"");
    out.append(hash);
    out.append("\"}}");
    assert(out@ =~= step_line(sequence_view(sequence), count as nat, bytes as nat, hash@));
    out
}

/// The answer to a request to quit.
pub fn quit_answer(sequence: Option<u64>) -> (r: String)
    ensures
        r@ == quit_line(sequence_view(sequence)),
{
    let mut out = String::new();
    out.append("{\"ok\":true,\"event\":\"quit\",\"sequence\":");
    push_sequence(&mut out, sequence);
    out.append("}");
    assert(out@ =~= quit_line(sequence_view(sequence)));
    out
}

// ---------------------------------------------------------------------------
// Checkpoints
// ---------------------------------------------------------------------------

/// The 64-bit FNV-1a hash.
pub open spec fn fnv1a(bytes: Seq<u8>) -> u64
    decreases bytes.len(),
{
    if bytes.len() == 0 {
        0xcbf2_9ce4_8422_2325
    } else {
        (fnv1a(bytes.drop_last()) ^ (bytes.last() as u64)).wrapping_mul(0x100_0000_01b3)
    }
}

/// The checkpoint of a framebuffer: its hash in sixteen hexadecimal digits.
pub open spec fn digest_of(pixels: Seq<u8>) -> Seq<char> {
    text::hexadecimal(fnv1a(pixels) as nat, 16, false)
}

/// The checkpoint of a framebuffer.
pub fn digest(pixels: &[u8]) -> (r: String)
    ensures
        r@ == digest_of(pixels@),
{
    let mut hash: u64 = 0xcbf2_9ce4_8422_2325;
    let mut i: usize = 0;
    while i < pixels.len()
        invariant
            i <= pixels@.len(),
            hash == fnv1a(pixels@.take(i as int)),
        decreases pixels@.len() - i,
    {
        assert(pixels@.take(i + 1).drop_last() =~= pixels@.take(i as int));
        hash = (hash ^ (pixels[i] as u64)).wrapping_mul(0x100_0000_01b3);
        i = i + 1;
    }
    assert(pixels@.take(i as int) =~= pixels@);
    let mut out = String::new();
    text::push_hexadecimal(&mut out, hash, 16, false);
    assert(out@ =~= digest_of(pixels@));
    out
}

/// What one frame of a step may do: the core gets the GBA buttons and ticks,
/// the latter only if the former succeeded. The outcome is the frame's pixels
/// or the first error.
pub open spec fn frame_steps<C: CoreBackend>(
    before: C,
    after: C,
    keys: KeyState,
    outcome: Result<Seq<u8>, EmuError>,
) -> bool {
    exists|keyed: C, sent: Result<(), EmuError>| #[trigger]
        C::takes_keys(before, keys.game_bits() as u32, keyed, sent) && match sent {
            Err(e) => after == keyed && outcome == Err::<Seq<u8>, EmuError>(e),
            Ok(_) => exists|ticked: Result<(Seq<u8>, Seq<i16>), EmuError>| #[trigger]
                crate::emu::ticks(keyed, after, ticked) && match ticked {
                    Err(e) => outcome == Err::<Seq<u8>, EmuError>(e),
                    Ok((pixels, _)) => outcome == Ok::<Seq<u8>, EmuError>(pixels),
                },
        }
}

/// `n` successful frames in a row may turn `before` into `after`.
pub open spec fn reaches<C: CoreBackend>(n: nat, before: C, after: C, keys: KeyState) -> bool
    decreases n,
{
    if n == 0 {
        after == before
    } else {
        exists|middle: C, pixels: Seq<u8>| #[trigger]
            frame_steps(middle, after, keys, Ok(pixels)) && reaches(
                (n - 1) as nat,
                before,
                middle,
                keys,
            )
    }
}

/// `n` successful frames in a row, at least one, may turn `before` into
/// `after`, and the last of them shows `pixels`.
pub open spec fn advances<C: CoreBackend>(
    n: nat,
    before: C,
    after: C,
    keys: KeyState,
    pixels: Seq<u8>,
) -> bool {
    n > 0 && exists|middle: C| #[trigger]
        frame_steps(middle, after, keys, Ok(pixels)) && reaches(
            (n - 1) as nat,
            before,
            middle,
            keys,
        )
}

/// A step fails with `e` in the frame after the first `done` ones.
pub open spec fn fails_after<C: CoreBackend>(
    done: nat,
    before: C,
    after: C,
    keys: KeyState,
    e: EmuError,
) -> bool {
    exists|middle: C| #[trigger]
        frame_steps(middle, after, keys, Err::<Seq<u8>, EmuError>(e)) && reaches(
            done,
            before,
            middle,
            keys,
        )
}

/// The frame counter after `n` more frames, in 32 bits.
pub open spec fn counted(count: u32, n: nat) -> nat {
    (count + n) as nat % 0x1_0000_0000
}

/// Advance one frame with the given keys, and give the size and the checkpoint
/// of its framebuffer.
fn step_frame<C: CoreBackend>(emu: &mut Emu<C>, keys: KeyState) -> (r: Result<
    (usize, String),
    EmuError,
>)
    ensures
        match r {
            Ok((bytes, hash)) => exists|pixels: Seq<u8>| #[trigger]
                frame_steps(old(emu).core, final(emu).core, keys, Ok(pixels)) && bytes
                    == pixels.len() && hash@ == digest_of(pixels),
            Err(e) => frame_steps(
                old(emu).core,
                final(emu).core,
                keys,
                Err::<Seq<u8>, EmuError>(e),
            ),
        },
{
    let sent = emu.set_input(keys);
    let ghost keyed = emu.core;
    assert(C::takes_keys(old(emu).core, keys.game_bits() as u32, keyed, sent));
    if let Err(e) = sent {
        return Err(e);
    }
    let ticked = emu.tick();
    let ghost view = crate::emu::frame_view(ticked);
    match ticked {
        Err(e) => {
            assert(crate::emu::ticks(keyed, emu.core, view));
            Err(e)
        },
        Ok(frame) => {
            let hash = digest(frame.pixels);
            let bytes: usize = frame.pixels.len();
            let ghost pixels = frame.pixels@;
            assert(crate::emu::ticks(keyed, emu.core, view));
            assert(frame_steps(old(emu).core, emu.core, keys, Ok(pixels)));
            Ok((bytes, hash))
        },
    }
}

/// Advance some frames with the given keys, counting each one, and give the
/// size and the checkpoint of the last framebuffer. The first error ends the
/// step.
pub fn step_frames<C: CoreBackend>(
    emu: &mut Emu<C>,
    keys: KeyState,
    frames: u32,
    frame_count: &mut u32,
) -> (r: Result<(usize, String), EmuError>)
    requires
        frames > 0,
    ensures
        match r {
            Ok((bytes, hash)) => *final(frame_count) == counted(*old(frame_count), frames as nat)
                && exists|pixels: Seq<u8>| #[trigger]
                advances(frames as nat, old(emu).core, final(emu).core, keys, pixels) && bytes
                    == pixels.len() && hash@ == digest_of(pixels),
            Err(e) => exists|done: nat| #[trigger]
                fails_after(done, old(emu).core, final(emu).core, keys, e) && done < frames
                    && *final(frame_count) == counted(*old(frame_count), done),
        },
{
    let mut hash = String::new();
    let mut bytes: usize = 0;
    let mut i: u32 = 0;
    let ghost mut shown: Seq<u8> = Seq::empty();
    while i < frames
        invariant
            i <= frames,
            frames > 0,
            reaches(i as nat, old(emu).core, emu.core, keys),
            i > 0 ==> advances(i as nat, old(emu).core, emu.core, keys, shown),
            *frame_count == counted(*old(frame_count), i as nat),
            i > 0 ==> bytes == shown.len() && hash@ == digest_of(shown),
        decreases frames - i,
    {
        let ghost core = emu.core;
        match step_frame(emu, keys) {
            Err(e) => {
                assert(fails_after(i as nat, old(emu).core, emu.core, keys, e));
                return Err(e);
            },
            Ok((frame_bytes, frame_hash)) => {
                proof {
                    let pixels = choose|pixels: Seq<u8>| #[trigger]
                        frame_steps(core, emu.core, keys, Ok(pixels)) && frame_bytes == pixels.len()
                            && frame_hash@ == digest_of(pixels);
                    shown = pixels;
                    assert(((i + 1) as nat - 1) as nat == i as nat);
                    assert(advances((i + 1) as nat, old(emu).core, emu.core, keys, shown));
                }
                bytes = frame_bytes;
                hash = frame_hash;
            },
        }
        *frame_count = frame_count.wrapping_add(1);
        i = i + 1;
    }
    Ok((bytes, hash))
}

// ---------------------------------------------------------------------------
// The session
// ---------------------------------------------------------------------------

/// What the endpoint writes for one line.
#[derive(Debug)]
pub enum Reply {
    /// Nothing.
    Silent,
    /// One line; the session goes on.
    Line(String),
    /// One line; the session ends.
    Last(String),
}

impl Reply {
    /// The line, if one is written.
    pub open spec fn line(self) -> Option<Seq<char>> {
        match self {
            Reply::Silent => None,
            Reply::Line(line) => Some(line@),
            Reply::Last(line) => Some(line@),
        }
    }
}

/// What carrying out a request may do to the core and the frame counter, and
/// what reply it gives.
pub open spec fn carries_out<C: CoreBackend>(
    request: Request,
    before: C,
    after: C,
    count: u32,
    count_after: u32,
    reply: Reply,
) -> bool {
    match request {
        Request::Blank => after == before && count_after == count && reply == Reply::Silent,
        Request::Rejected(sequence, message) => after == before && count_after == count
            && reply is Line && reply.line() == Some(error_line(sequence, message)),
        Request::Quit(sequence) => after == before && count_after == count && reply is Last
            && reply.line() == Some(quit_line(sequence)),
        Request::Step(sequence, frames, keys) => reply is Line && {
            ||| steps_through(sequence, frames, keys, before, after, count, count_after, reply)
            ||| exists|done: nat, e: EmuError| #[trigger]
                fails_after(done, before, after, keys, e) && done < frames && count_after
                    == counted(count, done) && reply.line() == Some(error_line(sequence, e.text()))
        },
    }
}

/// A step that goes through all of its frames, and its reply.
pub open spec fn steps_through<C: CoreBackend>(
    sequence: Option<nat>,
    frames: nat,
    keys: KeyState,
    before: C,
    after: C,
    count: u32,
    count_after: u32,
    reply: Reply,
) -> bool {
    exists|pixels: Seq<u8>| #[trigger]
        advances(frames, before, after, keys, pixels) && count_after == counted(count, frames)
            && reply.line() == Some(
            step_line(sequence, count_after as nat, pixels.len(), digest_of(pixels)),
        )
}

/// Carry out one request and answer it.
pub fn execute<C: CoreBackend>(emu: &mut Emu<C>, frame_count: &mut u32, command: Command) -> (r:
    Reply)
    requires
        command matches Command::Step { frames, .. } ==> frames > 0,
    ensures
        carries_out(
            command@,
            old(emu).core,
            final(emu).core,
            *old(frame_count),
            *final(frame_count),
            r,
        ),
{
    match command {
        Command::Blank => Reply::Silent,
        Command::Rejected { sequence, message } => Reply::Line(
            json_error(sequence, message.as_str()),
        ),
        Command::Quit { sequence } => Reply::Last(quit_answer(sequence)),
        Command::Step { sequence, frames, keys } => {
            match step_frames(emu, keys, frames, frame_count) {
                Ok((bytes, hash)) => Reply::Line(
                    step_answer(sequence, *frame_count, bytes, hash.as_str()),
                ),
                Err(e) => {
                    let message = e.message();
                    Reply::Line(json_error(sequence, message.as_str()))
                },
            }
        },
    }
}

/// Carry out one line and answer it.
pub fn answer_line<C: CoreBackend>(emu: &mut Emu<C>, frame_count: &mut u32, line: &str) -> (r:
    Reply)
    ensures
        carries_out(
            request_of(line@),
            old(emu).core,
            final(emu).core,
            *old(frame_count),
            *final(frame_count),
            r,
        ),
{
    let command = parse_command(line);
    execute(emu, frame_count, command)
}

// ---------------------------------------------------------------------------
// Laws of the endpoint
// ---------------------------------------------------------------------------

/// Only a step touches the core and the frame counter.
pub proof fn only_a_step_touches_the_core<C: CoreBackend>(
    request: Request,
    before: C,
    after: C,
    count: u32,
    count_after: u32,
    reply: Reply,
)
    requires
        carries_out(request, before, after, count, count_after, reply),
        !(request is Step),
    ensures
        after == before,
        count_after == count,
{
}

/// The session ends exactly when a line asks to quit, and only an empty line
/// goes unanswered.
pub proof fn only_quit_ends_the_session<C: CoreBackend>(
    request: Request,
    before: C,
    after: C,
    count: u32,
    count_after: u32,
    reply: Reply,
)
    requires
        carries_out(request, before, after, count, count_after, reply),
    ensures
        reply is Last <==> request is Quit,
        reply is Silent <==> request is Blank,
{
}

/// Stepping `n` frames and then `m` with the same keys is one way of stepping
/// `n + m`.
pub proof fn steps_add_up<C: CoreBackend>(
    n: nat,
    m: nat,
    before: C,
    middle: C,
    after: C,
    keys: KeyState,
)
    requires
        reaches(n, before, middle, keys),
        reaches(m, middle, after, keys),
    ensures
        reaches(n + m, before, after, keys),
    decreases m,
{
    if m > 0 {
        let (last, pixels) = choose|last: C, pixels: Seq<u8>| #[trigger]
            frame_steps(last, after, keys, Ok(pixels)) && reaches(
                (m - 1) as nat,
                middle,
                last,
                keys,
            );
        steps_add_up(n, (m - 1) as nat, before, middle, last, keys);
        assert((n + m - 1) as nat == n + (m - 1) as nat);
    }
}

/// Counting `n` frames and then `m` is counting `n + m`.
pub proof fn counts_add_up(count: u32, n: nat, m: nat)
    ensures
        counted(counted(count, n) as u32, m) == counted(count, n + m),
{
}

/// A packet can hold GBA buttons down and nothing else.
pub proof fn packets_press_only_gba_buttons(names: Seq<Seq<char>>, bits: u16)
    requires
        bits_with(0, names) == Ok::<u16, Seq<char>>(bits),
    ensures
        KeyState(bits).game_bits() == bits,
{
    assert(0u16 & 0x03ff == 0) by (bit_vector);
    lemma_bits_with(0, names, bits);
}

proof fn lemma_bits_with(start: u16, names: Seq<Seq<char>>, bits: u16)
    requires
        bits_with(start, names) == Ok::<u16, Seq<char>>(bits),
        start & 0x03ff == start,
    ensures
        bits & 0x03ff == bits,
    decreases names.len(),
{
    if names.len() > 0 {
        let i = button_named(names[0])->Some_0.index() as u16;
        let next = start | (1u16 << i);
        assert(next & 0x03ff == next) by (bit_vector)
            requires
                start & 0x03ff == start,
                i < 10,
                next == start | (1u16 << i),
        ;
        lemma_bits_with(next, names.drop_first(), bits);
    }
}

/// A checkpoint is always sixteen hexadecimal digits.
pub proof fn a_digest_is_sixteen_digits(pixels: Seq<u8>)
    ensures
        digest_of(pixels).len() == 16,
        forall|i: int|
            0 <= i < 16 ==> '0' <= #[trigger] digest_of(pixels)[i] <= '9' || 'a' <= digest_of(
                pixels,
            )[i] <= 'f',
{
    lemma_hexadecimal(fnv1a(pixels) as nat, 16);
}

proof fn lemma_hexadecimal(n: nat, width: nat)
    ensures
        text::hexadecimal(n, width, false).len() == width,
        forall|i: int|
            0 <= i < width ==> '0' <= #[trigger] text::hexadecimal(n, width, false)[i] <= '9' || 'a'
                <= text::hexadecimal(n, width, false)[i] <= 'f',
    decreases width,
{
    if width > 0 {
        lemma_hexadecimal(n / 16, (width - 1) as nat);
    }
}

/// In an answer's error text every quote of the message follows a backslash.
pub proof fn quotes_are_escaped(message: Seq<char>)
    ensures
        forall|i: int|
            0 <= i < escaped(message).len() && #[trigger] escaped(message)[i] == '"' ==> i > 0
                && escaped(message)[i - 1] == '\\',
    decreases message.len(),
{
    if message.len() > 0 {
        let start = escaped(message.drop_last());
        quotes_are_escaped(message.drop_last());
        assert forall|i: int|
            0 <= i < escaped(message).len() && #[trigger] escaped(message)[i] == '"' implies i > 0
            && escaped(message)[i - 1] == '\\' by {
            if i < start.len() {
                assert(start[i] == '"');
            }
        }
    }
}

proof fn lemma_found(s: Seq<char>, pattern: Seq<char>, i: int)
    requires
        text::is_first_occurrence(s, pattern, i),
    ensures
        text::find(s, pattern) == Some(i),
{
    let found = text::find(s, pattern)->Some_0;
    assert(text::is_first_occurrence(s, pattern, found));
    assert(!(found < i) && !(i < found));
}

/// The value of a field is what follows its name and a colon, if nothing
/// before looks like the start of the name.
proof fn lemma_field(head: Seq<char>, name: Seq<char>, value: Seq<char>)
    requires
        name.len() >= 2,
        head.len() >= name.len() + 3,
        head.skip(head.len() - name.len() - 3) == quoted(name) + seq![':'],
        forall|j: int|
            0 <= j < head.len() - name.len() - 3 ==> !(#[trigger] head[j] == '"' && head[j + 1]
                == name[0] && head[j + 2] == name[1]),
        value.len() > 0,
        !text::is_space(value[0]),
    ensures
        field_of(head + value, name) == Some(value),
{
    let marker = quoted(name);
    let line = head + value;
    let p = head.len() - marker.len() - 1;
    let end = head.skip(p);
    assert(marker[0] == '"' && marker[1] == name[0] && marker[2] == name[1]);
    assert forall|k: int| 0 <= k < marker.len() implies #[trigger] line.subrange(
        p,
        p + marker.len(),
    )[k] == marker[k] by {
        assert(line[p + k] == end[k]);
    }
    assert(line.subrange(p, p + marker.len()) =~= marker);
    assert forall|j: int| 0 <= j < p implies !text::occurs_at(line, marker, j) by {
        let here = line.subrange(j, j + marker.len());
        assert(here[0] == head[j] && here[1] == head[j + 1] && here[2] == head[j + 2]);
    }
    lemma_found(line, marker, p);

    let colon = line.skip(p + marker.len());
    assert(colon[0] == end[marker.len() as int]);
    assert(text::trim_start(colon) =~= colon);
    assert(colon.drop_first() =~= value);
    assert(text::trim_start(value) =~= value);
}

/// A number reads back from the field that it was written into.
proof fn lemma_number(head: Seq<char>, name: Seq<char>, n: nat, tail: Seq<char>)
    requires
        name.len() >= 2,
        head.len() >= name.len() + 3,
        head.skip(head.len() - name.len() - 3) == quoted(name) + seq![':'],
        forall|j: int|
            0 <= j < head.len() - name.len() - 3 ==> !(#[trigger] head[j] == '"' && head[j + 1]
                == name[0] && head[j + 2] == name[1]),
        tail.len() > 0,
        !text::is_digit(tail[0]),
        n <= u64::MAX,
    ensures
        number_of(head + text::decimal(n) + tail, name) == Some(n),
{
    let digits = text::decimal(n);
    let value = digits + tail;
    text::lemma_decimal(n);
    text::decimal_reads_back(n, u64::MAX as nat);
    assert(value[0] == digits[0]);
    lemma_field(head, name, value);
    assert(head + digits + tail =~= head + value);

    text::lemma_leading_digits(value);
    let k = text::leading_digits(value) as int;
    assert(value[digits.len() as int] == tail[0]);
    if k < digits.len() {
        assert(value[k] == digits[k]);
    }
    assert(value.take(k) =~= digits);
}

/// A sequence number that follows the first `"sequence":` reads back.
proof fn lemma_sequence(head: Seq<char>, sequence: Option<nat>, tail: Seq<char>)
    requires
        head.len() >= 11,
        head.skip(head.len() - 11) == quoted("sequence"@) + seq![':'],
        forall|j: int|
            0 <= j < head.len() - 11 ==> !(#[trigger] head[j] == '"' && head[j + 1] == 's'
                && head[j + 2] == 'e'),
        tail.len() > 0,
        !text::is_digit(tail[0]),
        sequence matches Some(n) ==> n <= u64::MAX,
    ensures
        number_of(head + sequence_text(sequence) + tail, "sequence"@) == sequence,
{
    reveal_strlit("sequence");
    reveal_strlit("null");
    match sequence {
        Some(n) => lemma_number(head, "sequence"@, n, tail),
        None => {
            let value = "null"@ + tail;
            assert(value[0] == 'n');
            lemma_field(head, "sequence"@, value);
            assert(head + "null"@ + tail =~= head + value);
            assert(value.take(0) =~= Seq::<char>::empty());
        },
    }
}

/// Every answer carries the sequence number of its packet, as a number field
/// of the same kind: none if the packet has none.
pub proof fn answers_carry_the_sequence_number<C: CoreBackend>(
    line: Seq<char>,
    before: C,
    after: C,
    count: u32,
    count_after: u32,
    reply: Reply,
)
    requires
        carries_out(request_of(line), before, after, count, count_after, reply),
    ensures
        reply.line() matches Some(answer) ==> number_of(answer, "sequence"@) == number_of(
            line,
            "sequence"@,
        ),
{
    let sequence = number_of(line, "sequence"@);
    match request_of(line) {
        Request::Blank => {},
        Request::Rejected(_, message) => lemma_error_sequence(sequence, message),
        Request::Quit(_) => lemma_quit_sequence(sequence),
        Request::Step(_, frames, keys) => {
            if steps_through(sequence, frames, keys, before, after, count, count_after, reply) {
                let pixels = choose|pixels: Seq<u8>| #[trigger]
                    advances(frames, before, after, keys, pixels) && count_after == counted(
                        count,
                        frames,
                    ) && reply.line() == Some(
                        step_line(sequence, count_after as nat, pixels.len(), digest_of(pixels)),
                    );
                lemma_step_sequence(
                    sequence,
                    count_after as nat,
                    pixels.len(),
                    digest_of(pixels),
                );
            } else {
                let (done, e) = choose|done: nat, e: EmuError| #[trigger]
                    fails_after(done, before, after, keys, e) && done < frames && count_after
                        == counted(count, done) && reply.line() == Some(
                        error_line(sequence, e.text()),
                    );
                lemma_error_sequence(sequence, e.text());
            }
        },
    }
}

proof fn lemma_error_sequence(sequence: Option<nat>, message: Seq<char>)
    requires
        sequence matches Some(n) ==> n <= u64::MAX,
    ensures
        number_of(error_line(sequence, message), "sequence"@) == sequence,
{
    reveal_strlit("{\"ok\":false,\"event\":\"error\",\"sequence\":");
    reveal_strlit(",\"error\":\"");
    reveal_strlit("sequence");
    let head = "{\"ok\":false,\"event\":\"error\",\"sequence\":"@;
    let tail = ",\"error\":\""@ + escaped(message) + "\"}"@;
    assert(head.skip(head.len() - 11) =~= quoted("sequence"@) + seq![':']);
    lemma_sequence(head, sequence, tail);
    assert(error_line(sequence, message) =~= head + sequence_text(sequence) + tail);
}

proof fn lemma_quit_sequence(sequence: Option<nat>)
    requires
        sequence matches Some(n) ==> n <= u64::MAX,
    ensures
        number_of(quit_line(sequence), "sequence"@) == sequence,
{
    reveal_strlit("{\"ok\":true,\"event\":\"quit\",\"sequence\":");
    reveal_strlit("}");
    reveal_strlit("sequence");
    let head = "{\"ok\":true,\"event\":\"quit\",\"sequence\":"@;
    assert(head.skip(head.len() - 11) =~= quoted("sequence"@) + seq![':']);
    lemma_sequence(head, sequence, "}"@);
}

proof fn lemma_step_sequence(sequence: Option<nat>, count: nat, bytes: nat, hash: Seq<char>)
    requires
        sequence matches Some(n) ==> n <= u64::MAX,
    ensures
        number_of(step_line(sequence, count, bytes, hash), "sequence"@) == sequence,
{
    reveal_strlit("{\"ok\":true,\"event\":\"step\",\"sequence\":");
    reveal_strlit(",\"frame\":{\"count\":");
    reveal_strlit("sequence");
    let head = "{\"ok\":true,\"event\":\"step\",\"sequence\":"@;
    let tail = ",\"frame\":{\"count\":"@ + text::decimal(count) + ",\"width\":"@ + text::decimal(
        Frame::WIDTH as nat,
    ) + ",\"height\":"@ + text::decimal(Frame::HEIGHT as nat) + ",\"pixel_bytes\":"@
        + text::decimal(bytes) + ",\"hash\":\""@ + hash + "\"}}"@;
    assert(head.skip(head.len() - 11) =~= quoted("sequence"@) + seq![':']);
    lemma_sequence(head, sequence, tail);
    assert(step_line(sequence, count, bytes, hash) =~= head + sequence_text(sequence) + tail);
}

/// A packet that asks for some frames, without buttons.
pub open spec fn step_packet(sequence: nat, frames: nat) -> Seq<char> {
    "{\"op\":\"step\",\"sequence\":"@ + text::decimal(sequence) + ",\"frames\":"@
        + text::decimal(frames) + "}"@
}

proof fn lemma_packet_op(sequence: nat, frames: nat)
    ensures
        string_of(step_packet(sequence, frames), "op"@) == Some("step"@),
        !text::is_blank(step_packet(sequence, frames)),
{
    reveal_strlit("{\"op\":\"step\",\"sequence\":");
    reveal_strlit("op");
    reveal_strlit("step");
    let start = "{\"op\":\"step\",\"sequence\":"@;
    let line = step_packet(sequence, frames);
    assert(line[0] == '{');
    assert(!text::is_space(line[0]));
    let rest = start.skip(6) + text::decimal(sequence) + ",\"frames\":"@ + text::decimal(frames)
        + "}"@;
    assert(line =~= start.take(6) + rest);
    assert(rest[0] == '"');
    assert(start.take(6).skip(1) =~= quoted("op"@) + seq![':']);
    lemma_field(start.take(6), "op"@, rest);
    let op = rest.drop_first();
    text::lemma_index_of(op, '"');
    assert(op[0] == 's' && op[1] == 't' && op[2] == 'e' && op[3] == 'p' && op[4] == '"');
    assert(text::before(op, '"') =~= "step"@);
}

proof fn lemma_packet_sequence(sequence: nat, frames: nat)
    requires
        sequence <= u64::MAX,
    ensures
        number_of(step_packet(sequence, frames), "sequence"@) == Some(sequence),
{
    reveal_strlit("{\"op\":\"step\",\"sequence\":");
    reveal_strlit(",\"frames\":");
    reveal_strlit("sequence");
    let start = "{\"op\":\"step\",\"sequence\":"@;
    let tail = ",\"frames\":"@ + text::decimal(frames) + "}"@;
    assert(step_packet(sequence, frames) =~= start + text::decimal(sequence) + tail);
    assert(start.skip(13) =~= quoted("sequence"@) + seq![':']);
    lemma_number(start, "sequence"@, sequence, tail);
}

proof fn lemma_packet_frames(sequence: nat, frames: nat)
    requires
        frames <= u64::MAX,
    ensures
        number_of(step_packet(sequence, frames), "frames"@) == Some(frames),
{
    reveal_strlit("{\"op\":\"step\",\"sequence\":");
    reveal_strlit(",\"frames\":");
    reveal_strlit("}");
    reveal_strlit("frames");
    let start = "{\"op\":\"step\",\"sequence\":"@;
    let digits = text::decimal(sequence);
    let head = start + digits + ",\"frames\":"@;
    let p = head.len() - 9;
    text::lemma_decimal(sequence);
    assert(head.skip(p) =~= quoted("frames"@) + seq![':']);
    assert forall|j: int| 0 <= j < p implies !(#[trigger] head[j] == '"' && head[j + 1] == 'f'
        && head[j + 2] == 'r') by {
        if start.len() <= j < start.len() + digits.len() {
            assert(text::is_digit(digits[j - start.len()]));
        }
    }
    lemma_number(head, "frames"@, frames, "}"@);
}

proof fn lemma_packet_buttons(sequence: nat, frames: nat)
    ensures
        names_of(step_packet(sequence, frames)) == Ok::<Seq<Seq<char>>, Seq<char>>(Seq::empty()),
{
    reveal_strlit("{\"op\":\"step\",\"sequence\":");
    reveal_strlit(",\"frames\":");
    reveal_strlit("}");
    reveal_strlit("buttons");
    let start = "{\"op\":\"step\",\"sequence\":"@;
    let (a, b) = (text::decimal(sequence), text::decimal(frames));
    let head = start + a + ",\"frames\":"@;
    let line = step_packet(sequence, frames);
    let marker = quoted("buttons"@);
    text::lemma_decimal(sequence);
    text::lemma_decimal(frames);
    assert forall|j: int| 0 <= j < line.len() && #[trigger] line[j] == '"' implies line[j + 1]
        != 'b' by {
        if start.len() <= j < start.len() + a.len() {
            assert(text::is_digit(a[j - start.len()]));
        } else if head.len() <= j < head.len() + b.len() {
            assert(text::is_digit(b[j - head.len()]));
        } else if j == head.len() - 1 || j == start.len() - 1 {
            assert(line[j] == ':');
        }
    }
    assert(marker[0] == '"' && marker[1] == 'b');
    assert forall|j: int| !text::is_first_occurrence(line, marker, j) by {
        if text::occurs_at(line, marker, j) {
            let here = line.subrange(j, j + marker.len());
            assert(here[0] == line[j] && here[1] == line[j + 1]);
        }
    }
}

/// A packet asks for as many frames as it says, under its own sequence number.
pub proof fn a_step_packet_reads_back(sequence: nat, frames: nat)
    requires
        sequence <= u64::MAX,
        0 < frames <= u32::MAX,
    ensures
        request_of(step_packet(sequence, frames)) == Request::Step(
            Some(sequence),
            frames,
            KeyState(0),
        ),
{
    lemma_packet_op(sequence, frames);
    lemma_packet_sequence(sequence, frames);
    lemma_packet_frames(sequence, frames);
    lemma_packet_buttons(sequence, frames);
}

// ---------------------------------------------------------------------------
// Laws of the packets' fields
// ---------------------------------------------------------------------------

/// A field's value is what follows the first quoted name and a colon, without
/// the white space on either side of the colon.
pub proof fn a_field_is_what_follows_its_name(
    front: Seq<char>,
    name: Seq<char>,
    spaces: Seq<char>,
    more_spaces: Seq<char>,
    value: Seq<char>,
)
    requires
        ({
            let line = front + (seq!['"'] + name + seq!['"']) + spaces + seq![':'] + more_spaces + value;
            forall|j: int|
                0 <= j < front.len() ==> #[trigger] line.subrange(j, j + name.len() + 2) != seq!['"']
                    + name + seq!['"']
        }),
        forall|i: int| 0 <= i < spaces.len() ==> text::is_space(#[trigger] spaces[i]),
        forall|i: int| 0 <= i < more_spaces.len() ==> text::is_space(#[trigger] more_spaces[i]),
        value.len() > 0 ==> !text::is_space(value[0]),
    ensures
        field_of(front + (seq!['"'] + name + seq!['"']) + spaces + seq![':'] + more_spaces + value, name) == Some(
            value,
        ),
{
    let marker = quoted(name);
    let line = front + marker + spaces + seq![':'] + more_spaces + value;
    let p = front.len() as int;
    assert(marker.len() == name.len() + 2);
    assert(line.subrange(p, p + marker.len()) =~= marker);
    assert forall|j: int| 0 <= j < p implies !text::occurs_at(line, marker, j) by {
        assert(line.subrange(j, j + name.len() + 2) != marker);
    }
    lemma_found(line, marker, p);
    let after_colon = more_spaces + value;
    let rest = seq![':'] + after_colon;
    assert(line.skip(p + marker.len()) =~= spaces + rest);
    text::trimming_drops_the_white_space_in_front(spaces, rest);
    assert(rest.drop_first() =~= after_colon);
    text::trimming_drops_the_white_space_in_front(more_spaces, value);
}

/// There is no field where the first quoted name is followed by anything but a
/// colon, or does not occur.
pub proof fn a_field_needs_its_colon(
    front: Seq<char>,
    name: Seq<char>,
    spaces: Seq<char>,
    rest: Seq<char>,
)
    requires
        ({
            let line = front + (seq!['"'] + name + seq!['"']) + spaces + rest;
            forall|j: int|
                0 <= j < front.len() ==> #[trigger] line.subrange(j, j + name.len() + 2) != seq!['"']
                    + name + seq!['"']
        }),
        forall|i: int| 0 <= i < spaces.len() ==> text::is_space(#[trigger] spaces[i]),
        rest.len() > 0 ==> !text::is_space(rest[0]) && rest[0] != ':',
    ensures
        field_of(front + (seq!['"'] + name + seq!['"']) + spaces + rest, name) is None,
{
    let marker = quoted(name);
    let line = front + marker + spaces + rest;
    let p = front.len() as int;
    assert(line.subrange(p, p + marker.len()) =~= marker);
    assert forall|j: int| 0 <= j < p implies !text::occurs_at(line, marker, j) by {
        assert(line.subrange(j, j + name.len() + 2) != marker);
    }
    lemma_found(line, marker, p);
    assert(line.skip(p + marker.len()) =~= spaces + rest);
    text::trimming_drops_the_white_space_in_front(spaces, rest);
}

/// A line without the quoted name has no such field.
pub proof fn a_missing_name_is_no_field(line: Seq<char>, name: Seq<char>)
    requires
        forall|j: int|
            0 <= j <= line.len() - name.len() - 2 ==> #[trigger] line.subrange(
                j,
                j + name.len() + 2,
            ) != seq!['"'] + name + seq!['"'],
    ensures
        field_of(line, name) is None,
{
    let marker = quoted(name);
    assert forall|j: int| !text::is_first_occurrence(line, marker, j) by {
        if text::occurs_at(line, marker, j) {
            assert(line.subrange(j, j + name.len() + 2) == marker);
        }
    }
}

/// A string field's value is what stands between its quotes, however long; a
/// field that begins with no quote is no string.
pub proof fn a_string_stands_between_quotes(
    line: Seq<char>,
    name: Seq<char>,
    string: Seq<char>,
    rest: Seq<char>,
)
    requires
        forall|i: int| 0 <= i < string.len() ==> #[trigger] string[i] != '"',
    ensures
        field_of(line, name) == Some(seq!['"'] + string + seq!['"'] + rest) ==> string_of(
            line,
            name,
        ) == Some(string),
        field_of(line, name) == Some(seq!['"'] + string) ==> string_of(line, name) == Some(string),
        field_of(line, name) is None ==> string_of(line, name) is None,
        (field_of(line, name) matches Some(value) && (value.len() == 0 || value[0] != '"'))
            ==> string_of(line, name) is None,
{
    text::the_first_place_is_found(string, '"', rest);
    assert((seq!['"'] + string + seq!['"'] + rest).drop_first() =~= string + seq!['"'] + rest);
    assert((seq!['"'] + string).drop_first() =~= string);
}

/// A number field's value is that of the digits it begins with, if it fits 64
/// bits; a field that begins with no digit is no number.
pub proof fn a_number_is_its_leading_digits(
    line: Seq<char>,
    name: Seq<char>,
    digits: Seq<char>,
    rest: Seq<char>,
)
    requires
        forall|i: int| 0 <= i < digits.len() ==> '0' <= #[trigger] digits[i] <= '9',
        rest.len() > 0 ==> !('0' <= rest[0] <= '9'),
        field_of(line, name) == Some(digits + rest),
    ensures
        number_of(line, name) == (if digits.len() > 0 && text::digits_value(digits)
            <= 0xffff_ffff_ffff_ffff {
            Some(text::digits_value(digits))
        } else {
            None
        }),
{
    text::digits_are_counted_up_to_the_first_other(digits, rest);
    assert((digits + rest).take(digits.len() as int) =~= digits);
    if digits.len() > 0 {
        text::numbers_are_read_by_their_digits(digits, u64::MAX as nat);
    }
}

/// A list of names as it stands in a packet: each in quotes, with `between`
/// after each but the last.
pub open spec fn name_list(names: Seq<Seq<char>>, between: Seq<char>) -> Seq<char>
    decreases names.len(),
{
    if names.len() == 0 {
        Seq::empty()
    } else if names.len() == 1 {
        seq!['"'] + names[0] + seq!['"']
    } else {
        seq!['"'] + names[0] + seq!['"'] + between + name_list(names.drop_first(), between)
    }
}

/// What stands between the quotes of a list of names, after the first quote.
spec fn list_pieces(names: Seq<Seq<char>>, between: Seq<char>) -> Seq<Seq<char>>
    decreases names.len(),
{
    if names.len() <= 1 {
        seq![names[0], Seq::empty()]
    } else {
        seq![names[0], between] + list_pieces(names.drop_first(), between)
    }
}

proof fn lemma_list_pieces(names: Seq<Seq<char>>, between: Seq<char>)
    requires
        names.len() > 0,
        forall|p: int, i: int|
            0 <= p < names.len() && 0 <= i < names[p].len() ==> #[trigger] names[p][i] != '"'
                && names[p][i] != ']',
        forall|i: int|
            0 <= i < between.len() ==> #[trigger] between[i] != '"' && between[i] != ']',
    ensures
        ({
            let pieces = list_pieces(names, between);
            &&& pieces.len() == 2 * names.len()
            &&& forall|i: int| 0 <= i < names.len() ==> #[trigger] pieces[2 * i] == names[i]
            &&& forall|p: int, i: int|
                0 <= p < pieces.len() && 0 <= i < pieces[p].len() ==> #[trigger] pieces[p][i] != '"'
            &&& name_list(names, between) == seq!['"'] + text::joined(pieces, '"')
            &&& forall|i: int|
                0 <= i < name_list(names, between).len() ==> #[trigger] name_list(
                    names,
                    between,
                )[i] != ']'
        }),
    decreases names.len(),
{
    let pieces = list_pieces(names, between);
    let list = name_list(names, between);
    let first = names[0];
    assert forall|i: int| 0 <= i < first.len() implies #[trigger] first[i] != '"' && first[i]
        != ']' by {
        assert(names[0][i] != '"' && names[0][i] != ']');
    }
    if names.len() == 1 {
        assert(pieces.drop_first() =~= seq![Seq::<char>::empty()]);
        assert(text::joined(pieces.drop_first(), '"') =~= Seq::<char>::empty());
        assert(list =~= seq!['"'] + text::joined(pieces, '"'));
    } else {
        let others = names.drop_first();
        let more = list_pieces(others, between);
        assert forall|p: int, i: int|
            0 <= p < others.len() && 0 <= i < others[p].len() implies #[trigger] others[p][i] != '"'
            && others[p][i] != ']' by {
            assert(others[p] == names[p + 1]);
            assert(names[p + 1][i] != '"' && names[p + 1][i] != ']');
        }
        lemma_list_pieces(others, between);
        assert forall|i: int| 0 <= i < names.len() implies #[trigger] pieces[2 * i] == names[i] by {
            if i > 0 {
                assert(pieces[2 * i] == more[2 * (i - 1)]);
            }
        }
        assert forall|p: int, i: int|
            0 <= p < pieces.len() && 0 <= i < pieces[p].len() implies #[trigger] pieces[p][i]
            != '"' by {
            if p >= 2 {
                assert(pieces[p] == more[p - 2]);
                assert(more[p - 2][i] != '"');
            }
        }
        assert(pieces.drop_first() =~= seq![between] + more);
        assert(pieces.drop_first().drop_first() =~= more);
        let quote = seq!['"'];
        assert(text::joined(pieces.drop_first(), '"') == between + quote + text::joined(more, '"'));
        assert(text::joined(pieces, '"') == first + quote + (between + quote + text::joined(
            more,
            '"',
        )));
        assert(list =~= quote + text::joined(pieces, '"'));
        let tail = name_list(others, between);
        assert forall|i: int| 0 <= i < list.len() implies #[trigger] list[i] != ']' by {
            let k = first.len() + 2 + between.len();
            if i >= k {
                assert(list[i] == tail[i - k]);
            } else if i >= first.len() + 2 {
                assert(list[i] == between[i - first.len() - 2]);
            } else if 1 <= i <= first.len() {
                assert(list[i] == first[i - 1]);
            }
        }
    }
}

proof fn lemma_names_of_list(
    line: Seq<char>,
    names: Seq<Seq<char>>,
    between: Seq<char>,
    rest: Seq<char>,
)
    requires
        forall|p: int, i: int|
            0 <= p < names.len() && 0 <= i < names[p].len() ==> #[trigger] names[p][i] != '"'
                && names[p][i] != ']',
        forall|i: int|
            0 <= i < between.len() ==> #[trigger] between[i] != '"' && between[i] != ']',
        field_of(line, "buttons"@) == Some(seq!['['] + name_list(names, between) + rest),
        rest.len() > 0 ==> rest[0] == ']',
    ensures
        names_of(line) == Ok::<Seq<Seq<char>>, Seq<char>>(names),
{
    let list = name_list(names, between);
    let value = seq!['['] + list + rest;
    assert(value.drop_first() =~= list + rest);
    if names.len() > 0 {
        lemma_list_pieces(names, between);
    }
    if rest.len() > 0 {
        text::the_first_place_is_found(list, ']', rest.drop_first());
        assert(list + rest =~= list + seq![']'] + rest.drop_first());
    } else {
        text::the_first_place_is_found(list, ']', Seq::empty());
        assert(list + rest =~= list);
    }
    assert(text::before(value.drop_first(), ']') == list);
    let pieces = text::split_on(list, '"');
    if names.len() == 0 {
        let none = seq![Seq::<char>::empty()];
        assert(text::joined(none, '"') =~= list);
        text::splitting_undoes_joining(none, '"');
        assert(Seq::new(pieces.len() / 2, |i: int| pieces[2 * i + 1]) =~= names);
    } else {
        let inner = list_pieces(names, between);
        let all = seq![Seq::<char>::empty()] + inner;
        assert(all.drop_first() =~= inner);
        assert(text::joined(all, '"') =~= list);
        assert forall|p: int, i: int|
            0 <= p < all.len() && 0 <= i < all[p].len() implies #[trigger] all[p][i] != '"' by {
            assert(p > 0);
            assert(all[p] == inner[p - 1]);
            assert(inner[p - 1][i] != '"');
        }
        text::splitting_undoes_joining(all, '"');
        assert(pieces == all);
        let found = Seq::new(pieces.len() / 2, |i: int| pieces[2 * i + 1]);
        assert forall|i: int| 0 <= i < names.len() implies #[trigger] found[i] == names[i] by {
            assert(all[2 * i + 1] == inner[2 * i]);
        }
        assert(found =~= names);
    }
}

/// A list of buttons reads back whole: for every list of names without quotes
/// and brackets, written into an array with any such text between them, the
/// names that come back are those of the list, all of them and in order,
/// whether or not the array is closed.
pub proof fn button_names_read_back(
    line: Seq<char>,
    names: Seq<Seq<char>>,
    between: Seq<char>,
    rest: Seq<char>,
)
    requires
        forall|p: int, i: int|
            0 <= p < names.len() && 0 <= i < names[p].len() ==> #[trigger] names[p][i] != '"'
                && names[p][i] != ']',
        forall|i: int|
            0 <= i < between.len() ==> #[trigger] between[i] != '"' && between[i] != ']',
    ensures
        field_of(line, "buttons"@) == Some(
            seq!['['] + name_list(names, between) + (seq![']'] + rest),
        ) ==> names_of(line) == Ok::<Seq<Seq<char>>, Seq<char>>(names),
        field_of(line, "buttons"@) == Some(seq!['['] + name_list(names, between)) ==> names_of(line)
            == Ok::<Seq<Seq<char>>, Seq<char>>(names),
        field_of(line, "buttons"@) is None ==> names_of(line) == Ok::<Seq<Seq<char>>, Seq<char>>(
            Seq::empty(),
        ),
        (field_of(line, "buttons"@) matches Some(value) && (value.len() == 0 || value[0] != '['))
            ==> names_of(line) == Err::<Seq<Seq<char>>, Seq<char>>("buttons must be an array"@),
{
    let list = seq!['['] + name_list(names, between);
    if field_of(line, "buttons"@) == Some(list + (seq![']'] + rest)) {
        lemma_names_of_list(line, names, between, seq![']'] + rest);
    }
    if field_of(line, "buttons"@) == Some(list) {
        assert(list + Seq::<char>::empty() =~= list);
        lemma_names_of_list(line, names, between, Seq::empty());
    }
}

/// The ten names of the buttons, in the order of their bits. No other text
/// names a button.
pub proof fn ten_names_name_a_button(name: Seq<char>)
    ensures
        button_named(name) == (if name == "a"@ {
            Some(GbaButton::A)
        } else if name == "b"@ {
            Some(GbaButton::B)
        } else if name == "select"@ {
            Some(GbaButton::Select)
        } else if name == "start"@ {
            Some(GbaButton::Start)
        } else if name == "right"@ {
            Some(GbaButton::Right)
        } else if name == "left"@ {
            Some(GbaButton::Left)
        } else if name == "up"@ {
            Some(GbaButton::Up)
        } else if name == "down"@ {
            Some(GbaButton::Down)
        } else if name == "r"@ {
            Some(GbaButton::R)
        } else if name == "l"@ {
            Some(GbaButton::L)
        } else {
            None
        }),
{
}

/// A packet holds exactly the listed buttons down, however many there are and
/// in whatever order. With a name that is no button's it is refused, and the
/// complaint is about the first such name.
pub proof fn exactly_the_listed_buttons_are_held(names: Seq<Seq<char>>)
    ensures
        match bits_with(0, names) {
            Ok(bits) => {
                &&& forall|j: int|
                    0 <= j < names.len() ==> button_named(#[trigger] names[j]) is Some
                &&& forall|i: int|
                    0 <= i < 16 ==> (#[trigger] crate::input::has_bit(bits, i) <==> exists|j: int|
                        0 <= j < names.len() && (button_named(#[trigger] names[j]) matches Some(
                            button,
                        ) && button.index() == i))
            },
            Err(message) => exists|j: int|
                {
                    &&& 0 <= j < names.len()
                    &&& button_named(#[trigger] names[j]) is None
                    &&& message == "unknown button '"@ + names[j] + "'"@
                    &&& forall|k: int| 0 <= k < j ==> button_named(#[trigger] names[k]) is Some
                },
        },
{
    assert forall|i: int| 0 <= i < 16 implies !#[trigger] crate::input::has_bit(0, i) by {
        let k = i as u16;
        assert(0u16 & (1u16 << k) == 0) by (bit_vector);
    }
    lemma_held(0, names);
}

proof fn lemma_held(start: u16, names: Seq<Seq<char>>)
    ensures
        match bits_with(start, names) {
            Ok(bits) => {
                &&& forall|j: int|
                    0 <= j < names.len() ==> button_named(#[trigger] names[j]) is Some
                &&& forall|i: int|
                    0 <= i < 16 ==> (#[trigger] crate::input::has_bit(bits, i) <==> (
                    crate::input::has_bit(start, i) || exists|j: int|
                        0 <= j < names.len() && (button_named(#[trigger] names[j]) matches Some(
                            button,
                        ) && button.index() == i)))
            },
            Err(message) => exists|j: int|
                {
                    &&& 0 <= j < names.len()
                    &&& button_named(#[trigger] names[j]) is None
                    &&& message == "unknown button '"@ + names[j] + "'"@
                    &&& forall|k: int| 0 <= k < j ==> button_named(#[trigger] names[k]) is Some
                },
        },
    decreases names.len(),
{
    if names.len() > 0 {
        let rest = names.drop_first();
        match button_named(names[0]) {
            None => {},
            Some(button) => {
                let b = button.index() as u16;
                let next = crate::input::with_key(start, 1u16 << b, true);
                assert forall|i: int| 0 <= i < 16 implies (#[trigger] crate::input::has_bit(next, i)
                    <==> crate::input::has_bit(start, i) || i == b) by {
                    let k = i as u16;
                    assert(((start | (1u16 << b)) & (1u16 << k) != 0) == (start & (1u16 << k) != 0
                        || k == b)) by (bit_vector)
                        requires
                            k < 16,
                            b < 16,
                    ;
                }
                lemma_held(next, rest);
                match bits_with(next, rest) {
                    Ok(bits) => {
                        assert forall|j: int| 0 <= j < names.len() implies button_named(
                            #[trigger] names[j],
                        ) is Some by {
                            if j > 0 {
                                assert(rest[j - 1] == names[j]);
                            }
                        }
                        assert forall|i: int| 0 <= i < 16 implies (
                        #[trigger] crate::input::has_bit(bits, i) <==> (crate::input::has_bit(
                            start,
                            i,
                        ) || exists|j: int|
                            0 <= j < names.len() && (button_named(#[trigger] names[j]) matches Some(
                                held,
                            ) && held.index() == i))) by {
                            if i == b {
                                assert(button_named(names[0])->Some_0.index() == i);
                            }
                            if exists|j: int|
                                0 <= j < rest.len() && (button_named(
                                    #[trigger] rest[j],
                                ) matches Some(held) && held.index() == i) {
                                let j = choose|j: int|
                                    0 <= j < rest.len() && (button_named(
                                        #[trigger] rest[j],
                                    ) matches Some(held) && held.index() == i);
                                assert(names[j + 1] == rest[j]);
                            }
                            if exists|j: int|
                                0 <= j < names.len() && (button_named(
                                    #[trigger] names[j],
                                ) matches Some(held) && held.index() == i) {
                                let j = choose|j: int|
                                    0 <= j < names.len() && (button_named(
                                        #[trigger] names[j],
                                    ) matches Some(held) && held.index() == i);
                                if j > 0 {
                                    assert(rest[j - 1] == names[j]);
                                }
                            }
                        }
                    },
                    Err(message) => {
                        let j = choose|j: int|
                            {
                                &&& 0 <= j < rest.len()
                                &&& button_named(#[trigger] rest[j]) is None
                                &&& message == "unknown button '"@ + rest[j] + "'"@
                                &&& forall|k: int|
                                    0 <= k < j ==> button_named(#[trigger] rest[k]) is Some
                            };
                        assert(names[j + 1] == rest[j]);
                        assert forall|k: int| 0 <= k < j + 1 implies button_named(
                            #[trigger] names[k],
                        ) is Some by {
                            if k > 0 {
                                assert(rest[k - 1] == names[k]);
                            }
                        }
                    },
                }
            },
        }
    }
}

proof fn lemma_packet_start(line: Seq<char>, sequence: nat, rest: Seq<char>)
    requires
        line == "{\"op\":\"step\",\"sequence\":"@ + text::decimal(sequence) + rest,
        sequence <= u64::MAX,
        rest.len() > 0,
        !text::is_digit(rest[0]),
    ensures
        !text::is_blank(line),
        string_of(line, "op"@) == Some("step"@),
        number_of(line, "sequence"@) == Some(sequence),
{
    reveal_strlit("{\"op\":\"step\",\"sequence\":");
    reveal_strlit("op");
    reveal_strlit("step");
    reveal_strlit("sequence");
    let start = "{\"op\":\"step\",\"sequence\":"@;
    assert(line[0] == '{');
    assert(!text::is_space(line[0]));
    let value = start.skip(6) + text::decimal(sequence) + rest;
    assert(line =~= start.take(6) + value);
    assert(value[0] == '"');
    assert(start.take(6).skip(1) =~= quoted("op"@) + seq![':']);
    lemma_field(start.take(6), "op"@, value);
    let op = value.drop_first();
    text::lemma_index_of(op, '"');
    assert(op[0] == 's' && op[1] == 't' && op[2] == 'e' && op[3] == 'p' && op[4] == '"');
    assert(text::before(op, '"') =~= "step"@);
    assert(start.skip(13) =~= quoted("sequence"@) + seq![':']);
    lemma_number(start, "sequence"@, sequence, rest);
}

proof fn lemma_packet_middle(line: Seq<char>, sequence: nat, frames: nat, rest: Seq<char>)
    requires
        line == "{\"op\":\"step\",\"sequence\":"@ + text::decimal(sequence) + ",\"frames\":"@
            + text::decimal(frames) + rest,
        frames <= u64::MAX,
        rest.len() > 0,
        !text::is_digit(rest[0]),
    ensures
        number_of(line, "frames"@) == Some(frames),
{
    reveal_strlit("{\"op\":\"step\",\"sequence\":");
    reveal_strlit(",\"frames\":");
    reveal_strlit("frames");
    let start = "{\"op\":\"step\",\"sequence\":"@;
    let digits = text::decimal(sequence);
    let head = start + digits + ",\"frames\":"@;
    let p = head.len() - 9;
    text::lemma_decimal(sequence);
    assert(head.skip(p) =~= quoted("frames"@) + seq![':']);
    assert forall|j: int| 0 <= j < p implies !(#[trigger] head[j] == '"' && head[j + 1] == 'f'
        && head[j + 2] == 'r') by {
        if start.len() <= j < start.len() + digits.len() {
            assert(text::is_digit(digits[j - start.len()]));
        }
    }
    lemma_number(head, "frames"@, frames, rest);
}

proof fn lemma_packet_end(line: Seq<char>, sequence: nat, frames: nat, value: Seq<char>)
    requires
        line == "{\"op\":\"step\",\"sequence\":"@ + text::decimal(sequence) + ",\"frames\":"@
            + text::decimal(frames) + ",\"buttons\":"@ + value,
        value.len() > 0,
        !text::is_space(value[0]),
    ensures
        field_of(line, "buttons"@) == Some(value),
{
    reveal_strlit("{\"op\":\"step\",\"sequence\":");
    reveal_strlit(",\"frames\":");
    reveal_strlit(",\"buttons\":");
    reveal_strlit("buttons");
    let start = "{\"op\":\"step\",\"sequence\":"@;
    let (a, b) = (text::decimal(sequence), text::decimal(frames));
    let middle = start + a + ",\"frames\":"@;
    let head = middle + b + ",\"buttons\":"@;
    let p = head.len() - 10;
    text::lemma_decimal(sequence);
    text::lemma_decimal(frames);
    assert(head.skip(p) =~= quoted("buttons"@) + seq![':']);
    assert forall|j: int| 0 <= j < p implies !(#[trigger] head[j] == '"' && head[j + 1] == 'b'
        && head[j + 2] == 'u') by {
        if start.len() <= j < start.len() + a.len() {
            assert(text::is_digit(a[j - start.len()]));
        } else if middle.len() <= j < middle.len() + b.len() {
            assert(text::is_digit(b[j - middle.len()]));
        }
    }
    lemma_field(head, "buttons"@, value);
}

/// A packet that asks for some frames with the listed buttons down.
pub open spec fn button_packet(sequence: nat, frames: nat, names: Seq<Seq<char>>) -> Seq<char> {
    "{\"op\":\"step\",\"sequence\":"@ + text::decimal(sequence) + ",\"frames\":"@ + text::decimal(
        frames,
    ) + ",\"buttons\":"@ + (seq!['['] + name_list(names, seq![',']) + (seq![']'] + seq!['}']))
}

/// A packet asks for as many frames as it says, under its own sequence number,
/// with exactly the listed buttons held down, however many there are.
pub proof fn a_button_packet_reads_back(sequence: nat, frames: nat, names: Seq<Seq<char>>)
    requires
        sequence <= u64::MAX,
        0 < frames <= u32::MAX,
        forall|p: int, i: int|
            0 <= p < names.len() && 0 <= i < names[p].len() ==> #[trigger] names[p][i] != '"'
                && names[p][i] != ']',
        forall|j: int| 0 <= j < names.len() ==> button_named(#[trigger] names[j]) is Some,
    ensures
        names_of(button_packet(sequence, frames, names)) == Ok::<Seq<Seq<char>>, Seq<char>>(names),
        request_of(button_packet(sequence, frames, names)) matches Request::Step(s, n, keys) && s
            == Some(sequence) && n == frames && forall|i: int|
            0 <= i < 16 ==> (#[trigger] crate::input::has_bit(keys.0, i) <==> exists|j: int|
                0 <= j < names.len() && (button_named(#[trigger] names[j]) matches Some(button)
                    && button.index() == i)),
{
    reveal_strlit(",\"frames\":");
    reveal_strlit(",\"buttons\":");
    let start = "{\"op\":\"step\",\"sequence\":"@;
    let (a, b) = (text::decimal(sequence), text::decimal(frames));
    let value = seq!['['] + name_list(names, seq![',']) + (seq![']'] + seq!['}']);
    let line = button_packet(sequence, frames, names);
    let rest = ",\"frames\":"@ + b + ",\"buttons\":"@ + value;
    assert(line =~= start + a + rest);
    lemma_packet_start(line, sequence, rest);
    let rest = ",\"buttons\":"@ + value;
    assert(line =~= start + a + ",\"frames\":"@ + b + rest);
    lemma_packet_middle(line, sequence, frames, rest);
    lemma_packet_end(line, sequence, frames, value);
    button_names_read_back(line, names, seq![','], seq!['}']);
    exactly_the_listed_buttons_are_held(names);
}

/// What a line asks for, by its fields: nothing if it is blank, a complaint
/// without an operation or with one that is unknown, a step with its frames
/// and keys, or the end.
pub proof fn a_line_asks_by_its_fields(line: Seq<char>)
    requires
        !text::is_blank(line),
    ensures
        ({
            let sequence = number_of(line, "sequence"@);
            let op = string_of(line, "op"@);
            let frames = match number_of(line, "frames"@) {
                Some(n) => n % 0x1_0000_0000,
                None => 1,
            };
            &&& op is None ==> request_of(line) == Request::Rejected(sequence, "missing op"@)
            &&& op == Some("quit"@) ==> request_of(line) is Quit && request_of(line)->Quit_0
                == sequence
            &&& op == Some("step"@) && frames == 0 ==> request_of(line) == Request::Rejected(
                sequence,
                "frames must be greater than zero"@,
            )
            &&& op == Some("step"@) && frames > 0 ==> match names_of(line) {
                Err(message) => request_of(line) == Request::Rejected(sequence, message),
                Ok(names) => match bits_with(0, names) {
                    Err(message) => request_of(line) == Request::Rejected(sequence, message),
                    Ok(bits) => request_of(line) == Request::Step(sequence, frames, KeyState(bits)),
                },
            }
            &&& op is Some && op != Some("step"@) && op != Some("quit"@) ==> request_of(line)
                == Request::Rejected(sequence, "unknown operation"@)
        }),
{
    reveal_strlit("step");
    reveal_strlit("quit");
    assert("step"@[0] != "quit"@[0]);
}

/// A blank line asks for nothing.
pub proof fn a_blank_line_asks_for_nothing(line: Seq<char>)
    requires
        forall|i: int| 0 <= i < line.len() ==> text::is_space(#[trigger] line[i]),
    ensures
        request_of(line) == Request::Blank,
{
}

// ---------------------------------------------------------------------------
// Laws of the answers and the checkpoints
// ---------------------------------------------------------------------------

/// Each character of a message is escaped by itself: a quote gets a backslash
/// in front, and every other character stays as it is.
pub proof fn characters_are_escaped_one_by_one(message: Seq<char>, more: Seq<char>, c: char)
    ensures
        escaped(Seq::<char>::empty()) == Seq::<char>::empty(),
        escaped(seq![c]) == (if c == '"' {
            seq!['\\', '"']
        } else {
            seq![c]
        }),
        escaped(message + more) == escaped(message) + escaped(more),
    decreases more.len(),
{
    reveal_with_fuel(escaped, 2);
    assert(seq![c].drop_last() =~= Seq::<char>::empty());
    assert(escaped(seq![c]) =~= (if c == '"' {
        seq!['\\', '"']
    } else {
        seq![c]
    }));
    if more.len() == 0 {
        assert(message + more =~= message);
        assert(escaped(message) + escaped(more) =~= escaped(message));
    } else {
        assert((message + more).drop_last() =~= message + more.drop_last());
        characters_are_escaped_one_by_one(message, more.drop_last(), c);
        assert(escaped(message + more) =~= escaped(message) + escaped(more));
    }
}

/// The hash is the 64-bit FNV-1a: it begins with the offset basis, and each
/// byte, in order from the first, is put in by an exclusive or and then
/// multiplied in by the prime, modulo 2^64.
pub proof fn the_hash_takes_the_bytes_in_order(bytes: Seq<u8>, b: u8)
    ensures
        fnv1a(Seq::<u8>::empty()) == 0xcbf2_9ce4_8422_2325u64,
        fnv1a(bytes.push(b)) == ((fnv1a(bytes) ^ (b as u64)) * 0x100_0000_01b3)
            % 0x1_0000_0000_0000_0000,
{
    assert(bytes.push(b).drop_last() =~= bytes);
}

/// A checkpoint shows the hash of the framebuffer digit by digit, in sixteen
/// lower-case hexadecimal digits, the last being the lowest.
pub proof fn a_checkpoint_shows_the_hash(pixels: Seq<u8>, i: int)
    requires
        0 <= i < 16,
    ensures
        digest_of(pixels).len() == 16,
        text::hex_digit_value(digest_of(pixels)[15 - i]) == Some(
            fnv1a(pixels) as int / vstd::arithmetic::power::pow(16, i as nat) % 16,
        ),
        !('A' <= digest_of(pixels)[15 - i] <= 'F'),
{
    text::hexadecimals_show_every_digit(fnv1a(pixels) as nat, 16, false, i);
}

/// A step of `n` frames is a chain of `n` frames, given as the cores between
/// them and the pixels of each: every frame begins where the one before it
/// ended, and the pixels of the step are those of the last.
pub proof fn a_step_is_a_chain_of_frames<C: CoreBackend>(
    n: nat,
    before: C,
    after: C,
    keys: KeyState,
    pixels: Seq<u8>,
) -> (chain: (Seq<C>, Seq<Seq<u8>>))
    requires
        advances(n, before, after, keys, pixels),
    ensures
        n > 0,
        chain.0.len() == n + 1,
        chain.1.len() == n,
        chain.0[0] == before,
        chain.0[n as int] == after,
        chain.1[n - 1] == pixels,
        forall|i: int|
            0 <= i < n ==> frame_steps(
                chain.0[i],
                chain.0[i + 1],
                keys,
                Ok::<Seq<u8>, EmuError>(#[trigger] chain.1[i]),
            ),
{
    let middle = choose|middle: C| #[trigger]
        frame_steps(middle, after, keys, Ok(pixels)) && reaches((n - 1) as nat, before, middle, keys);
    let (cores, shown) = lemma_chain((n - 1) as nat, before, middle, keys);
    lemma_longer_chain(cores, shown, middle, after, keys, pixels);
    (cores.push(after), shown.push(pixels))
}

proof fn lemma_longer_chain<C: CoreBackend>(
    cores: Seq<C>,
    shown: Seq<Seq<u8>>,
    middle: C,
    after: C,
    keys: KeyState,
    pixels: Seq<u8>,
)
    requires
        cores.len() == shown.len() + 1,
        cores.last() == middle,
        frame_steps(middle, after, keys, Ok::<Seq<u8>, EmuError>(pixels)),
        forall|i: int|
            0 <= i < shown.len() ==> frame_steps(
                cores[i],
                cores[i + 1],
                keys,
                Ok::<Seq<u8>, EmuError>(#[trigger] shown[i]),
            ),
    ensures
        forall|i: int|
            0 <= i < shown.len() + 1 ==> frame_steps(
                cores.push(after)[i],
                cores.push(after)[i + 1],
                keys,
                Ok::<Seq<u8>, EmuError>(#[trigger] shown.push(pixels)[i]),
            ),
{
    let (all, pictures) = (cores.push(after), shown.push(pixels));
    assert forall|i: int| 0 <= i < shown.len() + 1 implies frame_steps(
        all[i],
        all[i + 1],
        keys,
        Ok::<Seq<u8>, EmuError>(#[trigger] pictures[i]),
    ) by {
        if i < shown.len() {
            assert(pictures[i] == shown[i]);
            assert(all[i] == cores[i] && all[i + 1] == cores[i + 1]);
        }
    }
}

proof fn lemma_chain<C: CoreBackend>(n: nat, before: C, after: C, keys: KeyState) -> (chain: (
    Seq<C>,
    Seq<Seq<u8>>,
))
    requires
        reaches(n, before, after, keys),
    ensures
        chain.0.len() == n + 1,
        chain.1.len() == n,
        chain.0[0] == before,
        chain.0[n as int] == after,
        forall|i: int|
            0 <= i < n ==> frame_steps(
                chain.0[i],
                chain.0[i + 1],
                keys,
                Ok::<Seq<u8>, EmuError>(#[trigger] chain.1[i]),
            ),
    decreases n,
{
    if n == 0 {
        (seq![before], Seq::empty())
    } else {
        let (middle, pixels) = choose|middle: C, pixels: Seq<u8>| #[trigger]
            frame_steps(middle, after, keys, Ok(pixels)) && reaches(
                (n - 1) as nat,
                before,
                middle,
                keys,
            );
        let (cores, shown) = lemma_chain((n - 1) as nat, before, middle, keys);
        lemma_longer_chain(cores, shown, middle, after, keys, pixels);
        (cores.push(after), shown.push(pixels))
    }
}

/// A frame of a step hands the GBA buttons to the core and ticks it; its
/// pixels are those of the tick.
pub proof fn a_frame_of_a_step_is_a_tick<C: CoreBackend>(
    before: C,
    after: C,
    keys: KeyState,
    pixels: Seq<u8>,
)
    requires
        frame_steps(before, after, keys, Ok::<Seq<u8>, EmuError>(pixels)),
    ensures
        pixels.len() == 240 * 160 * 4,
        after.shows(pixels),
        exists|keyed: C, samples: Seq<i16>|
            {
                &&& #[trigger] C::takes_keys(before, keys.game_bits() as u32, keyed, Ok(()))
                &&& #[trigger] crate::emu::ticks(
                    keyed,
                    after,
                    Ok::<(Seq<u8>, Seq<i16>), EmuError>((pixels, samples)),
                )
            },
{
    let (keyed, sent) = choose|keyed: C, sent: Result<(), EmuError>| #[trigger]
        C::takes_keys(before, keys.game_bits() as u32, keyed, sent) && match sent {
            Err(e) => false,
            Ok(_) => exists|ticked: Result<(Seq<u8>, Seq<i16>), EmuError>| #[trigger]
                crate::emu::ticks(keyed, after, ticked) && match ticked {
                    Err(e) => false,
                    Ok((shown, _)) => shown == pixels,
                },
        };
    assert(sent is Ok);
    assert(sent->Ok_0 == ());
    let ticked = choose|ticked: Result<(Seq<u8>, Seq<i16>), EmuError>| #[trigger]
        crate::emu::ticks(keyed, after, ticked) && match ticked {
            Err(e) => false,
            Ok((shown, _)) => shown == pixels,
        };
    let samples = ticked->Ok_0.1;
    assert(ticked == Ok::<(Seq<u8>, Seq<i16>), EmuError>((pixels, samples)));
    crate::emu::a_ticked_frame_is_complete(keyed, after, pixels, samples);
    assert(C::takes_keys(before, keys.game_bits() as u32, keyed, Ok(())));
}

/// The counter goes up by the number of frames, and starts over after 32 bits.
pub proof fn frames_are_counted_one_by_one(count: u32, n: nat)
    ensures
        count + n <= u32::MAX ==> counted(count, n) == count + n,
        counted(count, 0) == count,
        counted(count, n + 1) == (if counted(count, n) == u32::MAX {
            0
        } else {
            counted(count, n) + 1
        }),
{
}

/// A failing step went through the frames before the one that failed, and that
/// one failed on taking the keys or in its tick.
pub proof fn a_failing_step_stops_at_its_frame<C: CoreBackend>(
    done: nat,
    before: C,
    after: C,
    keys: KeyState,
    e: EmuError,
) -> (chain: (Seq<C>, Seq<Seq<u8>>))
    requires
        fails_after(done, before, after, keys, e),
    ensures
        chain.0.len() == done + 1,
        chain.1.len() == done,
        chain.0[0] == before,
        forall|i: int|
            0 <= i < done ==> frame_steps(
                chain.0[i],
                chain.0[i + 1],
                keys,
                Ok::<Seq<u8>, EmuError>(#[trigger] chain.1[i]),
            ),
        C::takes_keys(chain.0[done as int], keys.game_bits() as u32, after, Err(e)) || exists|
            keyed: C,
        |
            #[trigger] C::takes_keys(
                chain.0[done as int],
                keys.game_bits() as u32,
                keyed,
                Ok(()),
            ) && crate::emu::ticks(keyed, after, Err::<(Seq<u8>, Seq<i16>), EmuError>(e)),
{
    let middle = choose|middle: C| #[trigger]
        frame_steps(middle, after, keys, Err::<Seq<u8>, EmuError>(e)) && reaches(
            done,
            before,
            middle,
            keys,
        );
    let failed = Err::<Seq<u8>, EmuError>(e);
    let (keyed, sent) = choose|keyed: C, sent: Result<(), EmuError>| #[trigger]
        C::takes_keys(middle, keys.game_bits() as u32, keyed, sent) && match sent {
            Err(error) => after == keyed && failed == Err::<Seq<u8>, EmuError>(error),
            Ok(_) => exists|ticked: Result<(Seq<u8>, Seq<i16>), EmuError>| #[trigger]
                crate::emu::ticks(keyed, after, ticked) && match ticked {
                    Err(error) => failed == Err::<Seq<u8>, EmuError>(error),
                    Ok((pixels, _)) => failed == Ok::<Seq<u8>, EmuError>(pixels),
                },
        };
    if sent is Ok {
        assert(sent->Ok_0 == ());
        assert(C::takes_keys(middle, keys.game_bits() as u32, keyed, Ok(())));
        let ticked = choose|ticked: Result<(Seq<u8>, Seq<i16>), EmuError>| #[trigger]
            crate::emu::ticks(keyed, after, ticked) && match ticked {
                Err(error) => failed == Err::<Seq<u8>, EmuError>(error),
                Ok((pixels, _)) => failed == Ok::<Seq<u8>, EmuError>(pixels),
            };
        assert(ticked == Err::<(Seq<u8>, Seq<i16>), EmuError>(e));
    } else {
        assert(sent == Err::<(), EmuError>(e));
    }
    lemma_chain(done, before, middle, keys)
}

/// What is answered: nothing to a blank line, the complaint to a packet that
/// cannot be carried out, the end to one that asks for it, and to a step the
/// frame that all of its frames led to, or the error that stopped it.
pub proof fn every_request_gets_its_answer<C: CoreBackend>(
    request: Request,
    before: C,
    after: C,
    count: u32,
    count_after: u32,
    reply: Reply,
)
    requires
        carries_out(request, before, after, count, count_after, reply),
    ensures
        request matches Request::Rejected(sequence, message) ==> (reply matches Reply::Line(line)
            && line@ == error_line(sequence, message)),
        request matches Request::Quit(sequence) ==> (reply matches Reply::Last(line) && line@
            == quit_line(sequence)),
        request matches Request::Step(sequence, frames, keys) ==> (reply matches Reply::Line(line)
            && ((exists|pixels: Seq<u8>| #[trigger]
            advances(frames, before, after, keys, pixels) && count_after == (count + frames)
                % 0x1_0000_0000 && line@ == step_line(
                sequence,
                count_after as nat,
                pixels.len(),
                digest_of(pixels),
            )) || (exists|done: nat, e: EmuError| #[trigger]
            fails_after(done, before, after, keys, e) && done < frames && count_after == (count
                + done) % 0x1_0000_0000 && line@ == error_line(sequence, e.text())))),
{
    if let Request::Step(sequence, frames, keys) = request {
        assert(reply.line() == Some(reply->Line_0@));
        if steps_through(sequence, frames, keys, before, after, count, count_after, reply) {
            let pixels = choose|pixels: Seq<u8>| #[trigger]
                advances(frames, before, after, keys, pixels) && count_after == counted(
                    count,
                    frames,
                ) && reply.line() == Some(
                    step_line(sequence, count_after as nat, pixels.len(), digest_of(pixels)),
                );
            assert(advances(frames, before, after, keys, pixels));
        } else {
            let (done, e) = choose|done: nat, e: EmuError| #[trigger]
                fails_after(done, before, after, keys, e) && done < frames && count_after
                    == counted(count, done) && reply.line() == Some(
                    error_line(sequence, e.text()),
                );
            assert(fails_after(done, before, after, keys, e));
        }
    }
}

/// No name that begins with `a` and `b` is quoted in `s`.
spec fn quotes_no(s: Seq<char>, a: char, b: char) -> bool {
    forall|j: int| 0 <= j < s.len() - 2 ==> !(#[trigger] s[j] == '"' && s[j + 1] == a && s[j + 2] == b)
}

proof fn lemma_quotes_no(x: Seq<char>, y: Seq<char>, a: char, b: char)
    requires
        quotes_no(x, a, b),
        quotes_no(y, a, b),
        x.len() >= 2,
        x[x.len() - 1] != '"',
        !(x[x.len() - 2] == '"' && x[x.len() - 1] == a),
    ensures
        quotes_no(x + y, a, b),
{
    let s = x + y;
    assert forall|j: int| 0 <= j < s.len() - 2 implies !(#[trigger] s[j] == '"' && s[j + 1] == a
        && s[j + 2] == b) by {
        if j < x.len() - 2 {
            assert(s[j] == x[j] && s[j + 1] == x[j + 1] && s[j + 2] == x[j + 2]);
        } else if j < x.len() {
            assert(s[j] == x[j]);
            if j == x.len() - 2 {
                assert(s[j + 1] == x[j + 1]);
            }
        } else {
            let k = j - x.len();
            assert(s[j] == y[k] && s[j + 1] == y[k + 1] && s[j + 2] == y[k + 2]);
        }
    }
}

/// Digits after a head quote nothing.
proof fn lemma_quotes_no_digits(x: Seq<char>, n: nat, a: char, b: char)
    requires
        quotes_no(x, a, b),
        x.len() >= 2,
        x[x.len() - 1] == ':',
        a != ':',
    ensures
        quotes_no(x + text::decimal(n), a, b),
        text::decimal(n).len() > 0,
        text::is_digit((x + text::decimal(n)).last()),
        text::is_digit((x + text::decimal(n))[x.len() + text::decimal(n).len() - 2])
            || (x + text::decimal(n))[x.len() + text::decimal(n).len() - 2] == ':',
{
    text::lemma_decimal(n);
    let y = text::decimal(n);
    assert forall|j: int| 0 <= j < y.len() - 2 implies !(#[trigger] y[j] == '"' && y[j + 1] == a
        && y[j + 2] == b) by {
        assert(text::is_digit(y[j]));
    }
    lemma_quotes_no(x, y, a, b);
    assert(text::is_digit(y.last()));
    if y.len() > 1 {
        assert(text::is_digit(y[y.len() - 2]));
    }
}

/// What stands before the frame count of a step's answer.
spec fn count_head(sequence: Option<nat>) -> Seq<char> {
    "{\"ok\":true,\"event\":\"step\",\"sequence\":"@ + sequence_text(sequence)
        + ",\"frame\":{\"count\":"@
}

/// What stands before the bytes of the framebuffer.
spec fn bytes_head(sequence: Option<nat>, count: nat) -> Seq<char> {
    count_head(sequence) + text::decimal(count) + ",\"width\":"@ + text::decimal(240)
        + ",\"height\":"@ + text::decimal(160) + ",\"pixel_bytes\":"@
}

proof fn lemma_count_head(sequence: Option<nat>, a: char, b: char)
    requires
        a != ':' && a != ',' && a != 'o' && a != 'e' && a != 's' && a != 'f' && a != 'c',
    ensures
        quotes_no(count_head(sequence), a, b),
        count_head(sequence).last() == ':',
        count_head(sequence).len() >= 8,
        forall|j: int|
            0 <= j < count_head(sequence).len() - 8 ==> !(#[trigger] count_head(sequence)[j] == '"'
                && count_head(sequence)[j + 1] == 'c'),
        count_head(sequence).skip(count_head(sequence).len() - 8) == quoted("count"@) + seq![':'],
{
    reveal_strlit("{\"ok\":true,\"event\":\"step\",\"sequence\":");
    reveal_strlit(",\"frame\":{\"count\":");
    reveal_strlit("null");
    reveal_strlit("count");
    let start = "{\"ok\":true,\"event\":\"step\",\"sequence\":"@;
    let middle = sequence_text(sequence);
    let head = count_head(sequence);
    if let Some(n) = sequence {
        text::lemma_decimal(n);
    }
    assert forall|i: int| 0 <= i < middle.len() implies #[trigger] middle[i] != '"' by {
        if let Some(n) = sequence {
            assert(text::is_digit(text::decimal(n)[i]));
        }
    }
    assert forall|j: int| 0 <= j < head.len() - 1 && #[trigger] head[j] == '"' implies head[j + 1]
        == ':' || head[j + 1] == ',' || head[j + 1] == 'o' || head[j + 1] == 'e' || head[j + 1]
        == 's' || head[j + 1] == 'f' || (head[j + 1] == 'c' && j == head.len() - 8) by {
        if start.len() <= j < start.len() + middle.len() {
            assert(head[j] == middle[j - start.len()]);
        }
    }
    assert(head.skip(head.len() - 8) =~= quoted("count"@) + seq![':']);
}

proof fn lemma_bytes_head(sequence: Option<nat>, count: nat)
    ensures
        ({
            let head = bytes_head(sequence, count);
            &&& head.len() >= 14
            &&& head.skip(head.len() - 14) == quoted("pixel_bytes"@) + seq![':']
            &&& forall|j: int|
                0 <= j < head.len() - 14 ==> !(#[trigger] head[j] == '"' && head[j + 1] == 'p'
                    && head[j + 2] == 'i')
            &&& quotes_no(head, 'h', 'a')
            &&& head.last() == ':'
        }),
{
    reveal_strlit(",\"width\":");
    reveal_strlit(",\"height\":");
    reveal_strlit(",\"pixel_bytes\":");
    reveal_strlit("pixel_bytes");
    lemma_before_bytes(sequence, count, 'p', 'i');
    lemma_before_bytes(sequence, count, 'h', 'a');
    let front = count_head(sequence) + text::decimal(count) + ",\"width\":"@ + text::decimal(240)
        + ",\"height\":"@ + text::decimal(160);
    let last = ",\"pixel_bytes\":"@;
    let head = bytes_head(sequence, count);
    assert(head =~= front + last);
    assert(head.skip(head.len() - 14) =~= quoted("pixel_bytes"@) + seq![':']);
    lemma_quotes_no(front, last, 'h', 'a');
    assert forall|j: int| 0 <= j < head.len() - 14 implies !(#[trigger] head[j] == '"' && head[j + 1]
        == 'p' && head[j + 2] == 'i') by {
        if j < front.len() - 2 {
            assert(head[j] == front[j] && head[j + 1] == front[j + 1] && head[j + 2] == front[j
                + 2]);
        } else if j < front.len() {
            assert(head[j] == front[j]);
        }
    }
}

proof fn lemma_before_bytes(sequence: Option<nat>, count: nat, a: char, b: char)
    requires
        (a == 'p' && b == 'i') || (a == 'h' && b == 'a'),
    ensures
        ({
            let front = count_head(sequence) + text::decimal(count) + ",\"width\":"@
                + text::decimal(240) + ",\"height\":"@ + text::decimal(160);
            &&& quotes_no(front, a, b)
            &&& front.len() >= 2
            &&& front.last() != '"'
            &&& front[front.len() - 2] != '"'
        }),
{
    reveal_strlit(",\"width\":");
    reveal_strlit(",\"height\":");
    let h = count_head(sequence);
    lemma_count_head(sequence, a, b);
    lemma_quotes_no_digits(h, count, a, b);
    let h1 = h + text::decimal(count);
    lemma_quotes_no(h1, ",\"width\":"@, a, b);
    let h2 = h1 + ",\"width\":"@;
    lemma_quotes_no_digits(h2, 240, a, b);
    let h3 = h2 + text::decimal(240);
    lemma_quotes_no(h3, ",\"height\":"@, a, b);
    let h4 = h3 + ",\"height\":"@;
    lemma_quotes_no_digits(h4, 160, a, b);
}

proof fn lemma_answer_count(sequence: Option<nat>, count: nat, bytes: nat, hash: Seq<char>)
    requires
        count <= u64::MAX,
    ensures
        number_of(step_line(sequence, count, bytes, hash), "count"@) == Some(count),
{
    lemma_count_head(sequence, 'h', 'a');
    reveal_strlit(",\"width\":");
    reveal_strlit("count");
    let first = count_head(sequence);
    let tail = ",\"width\":"@ + text::decimal(240) + ",\"height\":"@ + text::decimal(160)
        + ",\"pixel_bytes\":"@ + text::decimal(bytes) + ",\"hash\":\""@ + hash + "\"}}"@;
    assert(step_line(sequence, count, bytes, hash) =~= first + text::decimal(count) + tail);
    lemma_number(first, "count"@, count, tail);
}

proof fn lemma_answer_bytes(sequence: Option<nat>, count: nat, bytes: nat, hash: Seq<char>)
    requires
        bytes <= u64::MAX,
    ensures
        number_of(step_line(sequence, count, bytes, hash), "pixel_bytes"@) == Some(bytes),
{
    lemma_bytes_head(sequence, count);
    reveal_strlit(",\"hash\":\"");
    reveal_strlit("pixel_bytes");
    let second = bytes_head(sequence, count);
    let end = ",\"hash\":\""@ + hash + "\"}}"@;
    assert(step_line(sequence, count, bytes, hash) =~= second + text::decimal(bytes) + end);
    lemma_number(second, "pixel_bytes"@, bytes, end);
}

proof fn lemma_answer_hash(sequence: Option<nat>, count: nat, bytes: nat, hash: Seq<char>)
    requires
        forall|i: int| 0 <= i < hash.len() ==> #[trigger] hash[i] != '"',
    ensures
        string_of(step_line(sequence, count, bytes, hash), "hash"@) == Some(hash),
{
    let line = step_line(sequence, count, bytes, hash);
    lemma_bytes_head(sequence, count);
    let second = bytes_head(sequence, count);
    let third = second + text::decimal(bytes);
    lemma_quotes_no_digits(second, bytes, 'h', 'a');
    let label = seq![',', '"', 'h', 'a', 's', 'h', '"', ':'];
    let head = third + label;
    let value = seq!['"'] + hash + seq!['"'] + seq!['}', '}'];
    assert(line =~= head + value) by {
        reveal_strlit(",\"hash\":\"");
        reveal_strlit("\"}}");
        assert(",\"hash\":\""@ =~= label + seq!['"']);
        assert("\"}}"@ =~= seq!['"'] + seq!['}', '}']);
    }
    reveal_strlit("hash");
    assert(head.skip(head.len() - 7) =~= quoted("hash"@) + seq![':']);
    assert forall|j: int| 0 <= j < head.len() - 7 implies !(#[trigger] head[j] == '"' && head[j + 1]
        == 'h' && head[j + 2] == 'a') by {
        if j < third.len() - 2 {
            assert(head[j] == third[j] && head[j + 1] == third[j + 1] && head[j + 2] == third[j
                + 2]);
        } else if j < third.len() {
            assert(head[j] == third[j]);
        }
    }
    lemma_field(head, "hash"@, value);
    a_string_stands_between_quotes(line, "hash"@, hash, seq!['}', '}']);
}

/// The answer to a step carries its number, its frame count, the bytes of the
/// framebuffer and the checkpoint, each in the field of that name.
pub proof fn a_step_answer_reads_back(
    sequence: Option<nat>,
    count: nat,
    bytes: nat,
    hash: Seq<char>,
)
    requires
        count <= u64::MAX,
        bytes <= u64::MAX,
        sequence matches Some(n) ==> n <= u64::MAX,
        forall|i: int| 0 <= i < hash.len() ==> #[trigger] hash[i] != '"',
    ensures
        ({
            let line = step_line(sequence, count, bytes, hash);
            &&& number_of(line, "sequence"@) == sequence
            &&& number_of(line, "count"@) == Some(count)
            &&& number_of(line, "pixel_bytes"@) == Some(bytes)
            &&& string_of(line, "hash"@) == Some(hash)
        }),
{
    lemma_step_sequence(sequence, count, bytes, hash);
    lemma_answer_count(sequence, count, bytes, hash);
    lemma_answer_bytes(sequence, count, bytes, hash);
    lemma_answer_hash(sequence, count, bytes, hash);
}

/// The answer to a packet that cannot be carried out ends with the whole
/// message, escaped, as the text of its last field.
pub proof fn an_error_answer_ends_with_its_message(sequence: Option<nat>, message: Seq<char>)
    requires
        sequence matches Some(n) ==> n <= u64::MAX,
    ensures
        ({
            let line = error_line(sequence, message);
            let n = line.len() - escaped(message).len();
            &&& number_of(line, "sequence"@) == sequence
            &&& n >= 13
            &&& line.subrange(n - 2, line.len() - 2) == escaped(message)
            &&& line.subrange(n - 12, n - 2) == ",\"error\":\""@
            &&& line.skip(line.len() - 2) == seq!['"', '}']
        }),
{
    reveal_strlit("{\"ok\":false,\"event\":\"error\",\"sequence\":");
    reveal_strlit(",\"error\":\"");
    reveal_strlit("\"}");
    lemma_error_sequence(sequence, message);
    let line = error_line(sequence, message);
    let n = line.len() - escaped(message).len();
    assert(line.subrange(n - 2, line.len() - 2) =~= escaped(message));
    assert(line.subrange(n - 12, n - 2) =~= ",\"error\":\""@);
    assert(line.skip(line.len() - 2) =~= seq!['"', '}']);
}

/// A request is what its command says, with its number, its message, its
/// frames and its keys; a reply's line is the line it holds.
pub proof fn a_request_is_what_its_command_says(
    sequence: Option<u64>,
    text: String,
    frames: u32,
    keys: KeyState,
)
    ensures
        sequence matches Some(n) ==> sequence_view(sequence) == Some(n as nat),
        sequence is None ==> sequence_view(sequence) is None,
        Command::Blank@ == Request::Blank,
        (Command::Rejected { sequence, message: text })@ == Request::Rejected(
            sequence_view(sequence),
            text@,
        ),
        (Command::Step { sequence, frames, keys })@ == Request::Step(
            sequence_view(sequence),
            frames as nat,
            keys,
        ),
        (Command::Quit { sequence })@ == Request::Quit(sequence_view(sequence)),
        Reply::Silent.line() is None,
        Reply::Line(text).line() == Some(text@),
        Reply::Last(text).line() == Some(text@),
{
}

/// The answers hold their fields and nothing else.
pub proof fn answers_hold_nothing_else(
    sequence: Option<nat>,
    message: Seq<char>,
    count: nat,
    bytes: nat,
    hash: Seq<char>,
)
    ensures
        ({
            let number = match sequence {
                Some(n) => text::decimal(n),
                None => "null"@,
            };
            &&& quit_line(sequence) == "{\"ok\":true,\"event\":\"quit\",\"sequence\":"@ + number
                + "}"@
            &&& error_line(sequence, message)
                == "{\"ok\":false,\"event\":\"error\",\"sequence\":"@ + number
                + ",\"error\":\""@ + escaped(message) + "\"}"@
            &&& step_line(sequence, count, bytes, hash)
                == "{\"ok\":true,\"event\":\"step\",\"sequence\":"@ + number
                + ",\"frame\":{\"count\":"@ + text::decimal(count) + ",\"width\":"@ + text::decimal(
                240,
            ) + ",\"height\":"@ + text::decimal(160) + ",\"pixel_bytes\":"@ + text::decimal(bytes)
                + ",\"hash\":\""@ + hash + "\"}}"@
        }),
{
}

} // verus!
