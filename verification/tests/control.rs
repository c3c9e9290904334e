use termgba::control::{
    answer_line, button_names, button_state, digest, execute, field, json_error, number_field,
    parse_command, quit_answer, step_answer, step_frames, string_field, Command, Reply,
};
use termgba::emu::{CoreBackend, Emu, EmuError, GBA_PIXELS};
use termgba::{KeyState, KEY_A, KEY_B, KEY_L, KEY_UP};

/// Fails in the frame with the given number.
struct FakeCore {
    pixels: Vec<u8>,
    keys: Vec<u32>,
    frames: u32,
    fails_at: u32,
}

impl CoreBackend for FakeCore {
    fn run_frame(&mut self) -> Result<(), EmuError> {
        if self.frames == self.fails_at {
            return Err(EmuError::Backend("bad \"opcode\"".to_string()));
        }
        self.frames += 1;
        Ok(())
    }
    fn set_keys(&mut self, keys: u32) -> Result<(), EmuError> {
        self.keys.push(keys);
        Ok(())
    }
    fn video_buffer(&self) -> &[u8] {
        &self.pixels
    }
    fn read_audio_samples(&mut self, _out: &mut [i16]) -> Result<usize, EmuError> {
        Ok(0)
    }
    fn audio_sample_rate(&self) -> Result<u32, EmuError> {
        Ok(32_768)
    }
    fn frame_counter(&self) -> Result<u32, EmuError> {
        Ok(self.frames)
    }
}

fn fake_emu(fails_at: u32) -> Emu<FakeCore> {
    Emu::from_core(FakeCore {
        pixels: vec![0x42; GBA_PIXELS * 4],
        keys: Vec::new(),
        frames: 0,
        fails_at,
    })
}

fn line(reply: Reply) -> String {
    match reply {
        Reply::Line(line) => line,
        other => panic!("{other:?}"),
    }
}

fn rejection(packet: &str) -> (Option<u64>, String) {
    match parse_command(packet) {
        Command::Rejected { sequence, message } => (sequence, message),
        other => panic!("{other:?}"),
    }
}

#[test]
fn fields_are_found_past_white_space() {
    assert_eq!(field("{\"op\" : \"step\"}", "op"), Some("\"step\"}"));
    assert_eq!(field("\"op\"\t:\u{a0}1", "op"), Some("1"));
    assert_eq!(field("{\"op\" \"step\"}", "op"), None);
    assert_eq!(field("{\"o\":1}", "op"), None);
    assert_eq!(field("{\"op\":", "op"), Some(""));
    assert_eq!(field("{\"x\":\"op\",\"op\":1}", "op"), None);
}

#[test]
fn string_fields_end_at_the_next_quote() {
    assert_eq!(string_field("{\"op\":\"step\",\"x\":1}", "op").as_deref(), Some("step"));
    assert_eq!(string_field("{\"op\":\"st", "op").as_deref(), Some("st"));
    assert_eq!(string_field("{\"op\":\"\"}", "op").as_deref(), Some(""));
    assert_eq!(string_field("{\"op\":step}", "op"), None);
    assert_eq!(string_field("{\"op\":\"\u{e9}\u{1F3AE}\"}", "op").as_deref(), Some("\u{e9}\u{1F3AE}"));
}

#[test]
fn number_fields_are_leading_digits() {
    assert_eq!(number_field("{\"sequence\":17}", "sequence"), Some(17));
    assert_eq!(number_field("{\"sequence\":007.5}", "sequence"), Some(7));
    assert_eq!(number_field("{\"sequence\":18446744073709551615}", "sequence"), Some(u64::MAX));
    assert_eq!(number_field("{\"sequence\":18446744073709551616}", "sequence"), None);
    assert_eq!(number_field("{\"sequence\":-1}", "sequence"), None);
    assert_eq!(number_field("{\"sequence\":}", "sequence"), None);
}

#[test]
fn button_names_are_the_quoted_words_of_the_array() {
    assert_eq!(button_names("{}").unwrap(), Vec::<String>::new());
    assert_eq!(button_names("{\"buttons\":[]}").unwrap(), Vec::<String>::new());
    assert_eq!(button_names("{\"buttons\":[\"a\", \"up\"]}").unwrap(), vec!["a", "up"]);
    assert_eq!(button_names("{\"buttons\":[\"a\", \"up").unwrap(), vec!["a", "up"]);
    assert_eq!(button_names("{\"buttons\":\"a\"}").unwrap_err(), "buttons must be an array");
}

#[test]
fn buttons_are_pressed_by_name() {
    let names: Vec<String> = ["a", "b", "select", "start", "right", "left", "up", "down", "r", "l"]
        .iter()
        .map(|name| name.to_string())
        .collect();
    for (i, name) in names.iter().enumerate() {
        assert_eq!(button_state(&[name.clone()]).unwrap().bits(), 1 << i);
    }
    assert_eq!(button_state(&names).unwrap().bits(), KeyState::GBA_BUTTON_MASK);
    assert_eq!(button_state(&[]).unwrap().bits(), 0);
    assert_eq!(
        button_state(&["a".to_string(), "turbo".to_string()]).unwrap_err(),
        "unknown button 'turbo'"
    );
}

#[test]
fn packets_are_read_or_rejected() {
    assert!(matches!(parse_command(""), Command::Blank));
    assert!(matches!(parse_command(" \t\u{3000}"), Command::Blank));
    assert!(matches!(
        parse_command("{\"op\":\"quit\",\"sequence\":3}"),
        Command::Quit { sequence: Some(3) }
    ));
    assert!(matches!(
        parse_command("{\"op\":\"step\",\"buttons\":[\"l\",\"b\"]}"),
        Command::Step { sequence: None, frames: 1, keys } if keys.bits() == KEY_L | KEY_B
    ));
    assert!(matches!(
        parse_command("{\"op\":\"step\",\"frames\":4294967298,\"sequence\":9}"),
        Command::Step { sequence: Some(9), frames: 2, .. }
    ));
    assert_eq!(rejection("{\"sequence\":5}"), (Some(5), "missing op".to_string()));
    assert_eq!(rejection("{\"op\":\"jump\"}"), (None, "unknown operation".to_string()));
    assert_eq!(
        rejection("{\"op\":\"step\",\"frames\":0}"),
        (None, "frames must be greater than zero".to_string())
    );
    assert_eq!(
        rejection("{\"op\":\"step\",\"frames\":4294967296}"),
        (None, "frames must be greater than zero".to_string())
    );
    assert_eq!(
        rejection("{\"op\":\"step\",\"buttons\":1}"),
        (None, "buttons must be an array".to_string())
    );
    assert_eq!(
        rejection("{\"op\":\"step\",\"buttons\":[\"c\"]}"),
        (None, "unknown button 'c'".to_string())
    );
}

#[test]
fn answers_are_single_json_lines() {
    assert_eq!(
        json_error(Some(4), "say \"hi\""),
        r#"{"ok":false,"event":"error","sequence":4,"error":"say \"hi\""}"#
    );
    assert_eq!(
        json_error(None, ""),
        r#"{"ok":false,"event":"error","sequence":null,"error":""}"#
    );
    assert_eq!(
        step_answer(Some(1), 60, 153_600, "00ff"),
        r#"{"ok":true,"event":"step","sequence":1,"frame":{"count":60,"width":240,"height":160,"pixel_bytes":153600,"hash":"00ff"}}"#
    );
    assert_eq!(quit_answer(None), r#"{"ok":true,"event":"quit","sequence":null}"#);
    assert_eq!(
        quit_answer(Some(u64::MAX)),
        r#"{"ok":true,"event":"quit","sequence":18446744073709551615}"#
    );
}

#[test]
fn digests_are_fnv1a() {
    assert_eq!(digest(b""), "cbf29ce484222325");
    assert_eq!(digest(b"a"), "af63dc4c8601ec8c");
    assert_eq!(digest(&vec![0x42; 153_600]), "af6342b4fc0c2325");
    assert_eq!(digest(&vec![0; 153_600]), "1100fdb97cd50325");
}

#[test]
fn a_step_advances_counts_and_answers() {
    let mut emu = fake_emu(u32::MAX);
    let mut count = 0;
    let packet = "{\"op\":\"step\",\"frames\":3,\"buttons\":[\"a\",\"up\"],\"sequence\":8}";
    assert_eq!(
        line(answer_line(&mut emu, &mut count, packet)),
        r#"{"ok":true,"event":"step","sequence":8,"frame":{"count":3,"width":240,"height":160,"pixel_bytes":153600,"hash":"af6342b4fc0c2325"}}"#
    );
    assert_eq!(emu.core.keys, vec![(KEY_A | KEY_UP) as u32; 3]);
    assert_eq!(emu.core.frames, 3);
    assert_eq!(count, 3);
    line(answer_line(&mut emu, &mut count, "{\"op\":\"step\"}"));
    assert_eq!(count, 4);
    assert_eq!(emu.core.keys[3], 0);
}

#[test]
fn a_failing_step_keeps_the_frames_before_it() {
    let mut emu = fake_emu(2);
    let mut count = 10;
    assert_eq!(
        line(answer_line(&mut emu, &mut count, "{\"op\":\"step\",\"frames\":5}")),
        r#"{"ok":false,"event":"error","sequence":null,"error":"bad \"opcode\""}"#
    );
    assert_eq!(emu.core.frames, 2);
    assert_eq!(count, 12);
}

#[test]
fn only_steps_touch_the_core() {
    let mut emu = fake_emu(0);
    let mut count = 7;
    assert!(matches!(answer_line(&mut emu, &mut count, "   "), Reply::Silent));
    assert_eq!(
        line(answer_line(&mut emu, &mut count, "nonsense")),
        r#"{"ok":false,"event":"error","sequence":null,"error":"missing op"}"#
    );
    assert!(matches!(
        answer_line(&mut emu, &mut count, "{\"op\":\"quit\"}"),
        Reply::Last(last) if last == r#"{"ok":true,"event":"quit","sequence":null}"#
    ));
    assert_eq!(count, 7);
    assert!(emu.core.keys.is_empty());
}

#[test]
fn stepping_in_pieces_adds_up() {
    let mut emu = fake_emu(u32::MAX);
    let mut count = u32::MAX;
    let keys = KeyState::from_bits(KEY_A);
    let (bytes, hash) = step_frames(&mut emu, keys, 2, &mut count).unwrap();
    assert_eq!((bytes, hash.as_str()), (153_600, "af6342b4fc0c2325"));
    assert_eq!(count, 1);
    step_frames(&mut emu, keys, 3, &mut count).unwrap();
    assert_eq!(count, 4);
    assert_eq!(emu.core.frames, 5);
}

#[test]
fn a_command_can_be_carried_out_directly() {
    let mut emu = fake_emu(u32::MAX);
    let mut count = 0;
    let command = Command::Step { sequence: None, frames: 2, keys: KeyState::new() };
    assert!(line(execute(&mut emu, &mut count, command)).contains("\"count\":2"));
    let command = Command::Rejected { sequence: Some(1), message: "no".to_string() };
    assert!(line(execute(&mut emu, &mut count, command)).contains("\"error\":\"no\""));
    assert_eq!(count, 2);
}

#[test]
fn answers_carry_the_sequence_number_of_their_packet() {
    let mut emu = fake_emu(1);
    let mut count = 0;
    for packet in [
        "{\"op\":\"step\",\"sequence\":41}",
        "{\"op\":\"step\",\"sequence\":42}",
        "{\"op\":\"jump\",\"sequence\":18446744073709551615}",
        "{\"op\":\"quit\",\"sequence\":0}",
        "{\"op\":\"quit\"}",
    ] {
        let answer = match answer_line(&mut emu, &mut count, packet) {
            Reply::Line(answer) | Reply::Last(answer) => answer,
            Reply::Silent => panic!("no answer"),
        };
        assert_eq!(number_field(&answer, "sequence"), number_field(packet, "sequence"));
    }
}

#[test]
fn a_step_packet_asks_for_what_it_says() {
    assert!(matches!(
        parse_command("{\"op\":\"step\",\"sequence\":12,\"frames\":34}"),
        Command::Step { sequence: Some(12), frames: 34, keys } if keys == KeyState::new()
    ));
}
