//! Terminal key events to GBA key state.

use vstd::prelude::*;

use crate::text;

verus! {

/// Without key-release events, a button counts as held until this many
/// nanoseconds pass with no press or auto-repeat for it.
pub const HOLD_TIMEOUT: u128 = 200_000_000;

/// The number of bits in a [`KeyState`].
pub const KEY_BITS: usize = 16;

pub const KEY_A: u16 = 0x0001;

pub const KEY_B: u16 = 0x0002;

pub const KEY_SELECT: u16 = 0x0004;

pub const KEY_START: u16 = 0x0008;

pub const KEY_RIGHT: u16 = 0x0010;

pub const KEY_LEFT: u16 = 0x0020;

pub const KEY_UP: u16 = 0x0040;

pub const KEY_DOWN: u16 = 0x0080;

pub const KEY_R: u16 = 0x0100;

pub const KEY_L: u16 = 0x0200;

/// Turbo modifier (a frontend control, not sent to the GBA).
pub const KEY_TURBO: u16 = 0x4000;

/// Quit flag (not a GBA key, used by the main loop).
pub const KEY_QUIT: u16 = 0x8000;

/// GBA buttons in the bit order expected by mGBA.
#[derive(Debug, Clone, Copy, PartialEq, Eq, Structural)]
pub enum GbaButton {
    A,
    B,
    Select,
    Start,
    Right,
    Left,
    Up,
    Down,
    R,
    L,
}

impl GbaButton {
    /// The bit that stands for this button.
    pub open spec fn index(self) -> int {
        match self {
            GbaButton::A => 0,
            GbaButton::B => 1,
            GbaButton::Select => 2,
            GbaButton::Start => 3,
            GbaButton::Right => 4,
            GbaButton::Left => 5,
            GbaButton::Up => 6,
            GbaButton::Down => 7,
            GbaButton::R => 8,
            GbaButton::L => 9,
        }
    }

    /// The key mask with this button's bit alone.
    pub fn mask(self) -> (r: u16)
        ensures
            r == 1u16 << (self.index() as u16),
    {
        assert(1u16 << 0 == 0x0001 && 1u16 << 1 == 0x0002 && 1u16 << 2 == 0x0004 && 1u16 << 3
            == 0x0008 && 1u16 << 4 == 0x0010 && 1u16 << 5 == 0x0020 && 1u16 << 6 == 0x0040 && 1u16
            << 7 == 0x0080 && 1u16 << 8 == 0x0100 && 1u16 << 9 == 0x0200) by (bit_vector);
        match self {
            GbaButton::A => KEY_A,
            GbaButton::B => KEY_B,
            GbaButton::Select => KEY_SELECT,
            GbaButton::Start => KEY_START,
            GbaButton::Right => KEY_RIGHT,
            GbaButton::Left => KEY_LEFT,
            GbaButton::Up => KEY_UP,
            GbaButton::Down => KEY_DOWN,
            GbaButton::R => KEY_R,
            GbaButton::L => KEY_L,
        }
    }
}

/// GBA key bitmask matching the mGBA constants, with the frontend's own
/// controls in the upper bits.
#[derive(Clone, Copy, Debug, PartialEq, Eq, Structural)]
pub struct KeyState(pub u16);

/// Whether bit `i` of `bits` is set.
pub open spec fn has_bit(bits: u16, i: int) -> bool {
    bits & (1u16 << (i as u16)) != 0
}

/// `bits` with the bits of `key` switched on or off.
pub open spec fn with_key(bits: u16, key: u16, pressed: bool) -> u16 {
    if pressed {
        bits | key
    } else {
        bits & !key
    }
}

impl Default for KeyState {
    fn default() -> (r: Self)
        ensures
            r.0 == 0,
    {
        KeyState(0)
    }
}

impl KeyState {
    pub const GBA_BUTTON_MASK: u16 = 0x03ff;

    pub const QUIT_MASK: u16 = KEY_QUIT;

    pub const TURBO_MASK: u16 = KEY_TURBO;

    /// What the GBA sees of this state.
    pub open spec fn game_bits(self) -> u16 {
        self.0 & Self::GBA_BUTTON_MASK
    }

    /// Whether any key of the mask is down.
    pub open spec fn pressed(self, key: u16) -> bool {
        self.0 & key != 0
    }

    pub fn new() -> (r: Self)
        ensures
            r.0 == 0,
    {
        KeyState(0)
    }

    pub fn from_bits(bits: u16) -> (r: Self)
        ensures
            r.0 == bits,
    {
        KeyState(bits)
    }

    pub fn bits(&self) -> (r: u16)
        ensures
            r == self.0,
    {
        self.0
    }

    /// The bits that are GBA buttons, without the frontend's controls.
    pub fn gba_bits(&self) -> (r: u16)
        ensures
            r == self.game_bits(),
            forall|i: int|
                0 <= i < KEY_BITS ==> #[trigger] has_bit(r, i) == (i < 10 && has_bit(self.0, i)),
    {
        proof {
            lemma_game_bits(self.0);
        }
        self.0 & Self::GBA_BUTTON_MASK
    }

    pub fn is_pressed(&self, key: u16) -> (r: bool)
        ensures
            r == self.pressed(key),
            r == exists|i: int| 0 <= i < KEY_BITS && #[trigger] has_bit(self.0, i) && has_bit(key, i),
    {
        proof {
            lemma_common_bit(self.0, key);
        }
        (self.0 & key) != 0
    }

    /// Switch every key of the mask on or off, and leave the others alone.
    pub fn set(&mut self, key: u16, pressed: bool)
        ensures
            final(self).0 == with_key(old(self).0, key, pressed),
            forall|i: int|
                0 <= i < KEY_BITS ==> #[trigger] has_bit(final(self).0, i) == (if has_bit(key, i) {
                    pressed
                } else {
                    has_bit(old(self).0, i)
                }),
    {
        proof {
            lemma_with_key(self.0, key, pressed);
        }
        if pressed {
            self.0 = self.0 | key;
        } else {
            self.0 = self.0 & !key;
        }
        assert(self.0 == with_key(old(self).0, key, pressed));
    }

    pub fn quit_pressed(&self) -> (r: bool)
        ensures
            r == self.pressed(KEY_QUIT),
    {
        self.is_pressed(KEY_QUIT)
    }

    pub fn turbo_pressed(&self) -> (r: bool)
        ensures
            r == self.pressed(KEY_TURBO),
    {
        self.is_pressed(KEY_TURBO)
    }

    pub fn set_button(&mut self, button: GbaButton, pressed: bool)
        ensures
            final(self).0 == with_key(old(self).0, 1u16 << (button.index() as u16), pressed),
    {
        self.set(button.mask(), pressed);
    }

    pub fn set_quit(&mut self, pressed: bool)
        ensures
            final(self).0 == with_key(old(self).0, KEY_QUIT, pressed),
    {
        self.set(KEY_QUIT, pressed);
    }
}

// ---------------------------------------------------------------------------
// Laws of the key mask
// ---------------------------------------------------------------------------

proof fn lemma_game_bits(bits: u16)
    ensures
        forall|i: int|
            0 <= i < KEY_BITS ==> #[trigger] has_bit(bits & 0x03ff, i) == (i < 10 && has_bit(
                bits,
                i,
            )),
{
    assert forall|i: int| 0 <= i < KEY_BITS implies #[trigger] has_bit(bits & 0x03ff, i) == (i < 10
        && has_bit(bits, i)) by {
        let k = i as u16;
        assert(((bits & 0x03ff) & (1u16 << k) != 0) == (k < 10 && bits & (1u16 << k) != 0))
            by (bit_vector)
            requires
                k < 16,
        ;
    }
}

proof fn lemma_with_key(bits: u16, key: u16, pressed: bool)
    ensures
        forall|i: int|
            0 <= i < KEY_BITS ==> #[trigger] has_bit(with_key(bits, key, pressed), i) == (if has_bit(
                key,
                i,
            ) {
                pressed
            } else {
                has_bit(bits, i)
            }),
{
    assert forall|i: int| 0 <= i < KEY_BITS implies #[trigger] has_bit(
        with_key(bits, key, pressed),
        i,
    ) == (if has_bit(key, i) {
        pressed
    } else {
        has_bit(bits, i)
    }) by {
        let k = i as u16;
        let m = 1u16 << k;
        assert(((bits | key) & m != 0) == (key & m != 0 || bits & m != 0)) by (bit_vector);
        assert(((bits & !key) & m != 0) == (key & m == 0 && bits & m != 0)) by (bit_vector)
            requires
                m == 1u16 << k,
                k < 16,
        ;
    }
}

proof fn lemma_common_bit(a: u16, b: u16)
    ensures
        (a & b != 0) == exists|i: int| 0 <= i < KEY_BITS && #[trigger] has_bit(a, i) && has_bit(b, i),
{
    let both = a & b;
    if both != 0 {
        vstd::std_specs::bits::axiom_u16_trailing_zeros(both);
        let k = both.trailing_zeros() as u16;
        assert(a & (1u16 << k) != 0 && b & (1u16 << k) != 0) by (bit_vector)
            requires
                k < 16,
                ((a & b) >> k) & 1u16 == 1u16,
        ;
        assert(has_bit(a, k as int) && has_bit(b, k as int));
    } else if exists|i: int| 0 <= i < KEY_BITS && #[trigger] has_bit(a, i) && has_bit(b, i) {
        let i = choose|i: int| 0 <= i < KEY_BITS && #[trigger] has_bit(a, i) && has_bit(b, i);
        let k = i as u16;
        assert(a & b != 0) by (bit_vector)
            requires
                k < 16,
                a & (1u16 << k) != 0,
                b & (1u16 << k) != 0,
        ;
    }
}

/// Two key states with the same bits are the same state.
pub proof fn key_state_is_its_bits(a: KeyState, b: KeyState)
    requires
        forall|i: int| 0 <= i < KEY_BITS ==> #[trigger] has_bit(a.0, i) == has_bit(b.0, i),
    ensures
        a == b,
{
    let (x, y) = (a.0, b.0);
    let d = x ^ y;
    if d != 0 {
        vstd::std_specs::bits::axiom_u16_trailing_zeros(d);
        let k = d.trailing_zeros() as u16;
        assert((x & (1u16 << k) != 0) != (y & (1u16 << k) != 0)) by (bit_vector)
            requires
                k < 16,
                ((x ^ y) >> k) & 1u16 == 1u16,
        ;
        assert(has_bit(a.0, k as int) != has_bit(b.0, k as int));
    }
    assert(x == y) by (bit_vector)
        requires
            x ^ y == 0,
    ;
}

/// The frontend's controls never reach the GBA: switching quit or turbo does
/// not change what it sees, and it sees neither.
pub proof fn frontend_controls_stay_out_of_the_game(keys: KeyState, pressed: bool)
    ensures
        KeyState(with_key(keys.0, KEY_QUIT, pressed)).game_bits() == keys.game_bits(),
        KeyState(with_key(keys.0, KEY_TURBO, pressed)).game_bits() == keys.game_bits(),
        keys.game_bits() & KEY_QUIT == 0,
        keys.game_bits() & KEY_TURBO == 0,
{
    let b = keys.0;
    assert((b | 0x8000) & 0x03ff == b & 0x03ff && (b & !0x8000) & 0x03ff == b & 0x03ff && (b
        | 0x4000) & 0x03ff == b & 0x03ff && (b & !0x4000) & 0x03ff == b & 0x03ff && (b & 0x03ff)
        & 0x8000 == 0 && (b & 0x03ff) & 0x4000 == 0) by (bit_vector);
}

/// After a key was switched, asking for it gives what it was switched to.
pub proof fn a_set_key_reads_back(keys: KeyState, key: u16, pressed: bool)
    requires
        key != 0,
    ensures
        KeyState(with_key(keys.0, key, pressed)).pressed(key) == pressed,
{
    let b = keys.0;
    assert((b & !key) & key == 0) by (bit_vector);
    assert((b | key) & key != 0) by (bit_vector)
        requires
            key != 0,
    ;
}

/// Switching a key does not disturb a key that shares no bit with it.
pub proof fn disjoint_keys_are_independent(keys: KeyState, key: u16, other: u16, pressed: bool)
    requires
        key & other == 0,
    ensures
        KeyState(with_key(keys.0, key, pressed)).pressed(other) == keys.pressed(other),
{
    let b = keys.0;
    assert(((b | key) & other != 0) == (b & other != 0) && ((b & !key) & other != 0) == (b & other
        != 0)) by (bit_vector)
        requires
            key & other == 0,
    ;
}

/// Releasing a key that was up before it was pressed restores the state.
pub proof fn release_undoes_press(keys: KeyState, key: u16)
    requires
        !keys.pressed(key),
    ensures
        with_key(with_key(keys.0, key, true), key, false) == keys.0,
{
    let b = keys.0;
    assert((b | key) & !key == b) by (bit_vector)
        requires
            b & key == 0,
    ;
}

/// No two buttons share a bit.
pub proof fn buttons_have_their_own_bits(a: GbaButton, b: GbaButton)
    requires
        a != b,
    ensures
        (1u16 << (a.index() as u16)) & (1u16 << (b.index() as u16)) == 0,
{
    let (i, j) = (a.index() as u16, b.index() as u16);
    assert((1u16 << i) & (1u16 << j) == 0) by (bit_vector)
        requires
            i < 10,
            j < 10,
            i != j,
    ;
}

// ---------------------------------------------------------------------------
// Key events
// ---------------------------------------------------------------------------

/// The terminal keys that the frontend tells apart.
#[derive(Debug, Clone, Copy, PartialEq, Eq, Structural)]
pub enum KeyCode {
    Char(char),
    Enter,
    Tab,
    BackTab,
    Up,
    Down,
    Left,
    Right,
    Esc,
    /// Any other key.
    Other,
}

/// The modifiers held during a key event, as far as the frontend reads them.
#[derive(Debug, Clone, Copy, PartialEq, Eq, Structural)]
pub struct KeyModifiers {
    pub control: bool,
}

impl KeyModifiers {
    /// No modifier.
    pub fn empty() -> (r: Self)
        ensures
            !r.control,
    {
        KeyModifiers { control: false }
    }
}

/// What happened to a key.
#[derive(Debug, Clone, Copy, PartialEq, Eq, Structural)]
pub enum KeyEventKind {
    Press,
    Repeat,
    Release,
}

/// One key event of the terminal.
#[derive(Debug, Clone, Copy, PartialEq, Eq, Structural)]
pub struct KeyEvent {
    pub code: KeyCode,
    pub modifiers: KeyModifiers,
    pub kind: KeyEventKind,
}

/// The key bit that a terminal key stands for, or zero.
pub open spec fn key_of(code: KeyCode) -> u16 {
    match code {
        KeyCode::Char(c) => if c == 'z' {
            KEY_A
        } else if c == 'x' {
            KEY_B
        } else if c == 'a' {
            KEY_L
        } else if c == 's' {
            KEY_R
        } else if c == ' ' {
            KEY_TURBO
        } else if c == 'q' {
            KEY_QUIT
        } else {
            0
        },
        KeyCode::Enter => KEY_START,
        KeyCode::Tab | KeyCode::BackTab => KEY_SELECT,
        KeyCode::Up => KEY_UP,
        KeyCode::Down => KEY_DOWN,
        KeyCode::Left => KEY_LEFT,
        KeyCode::Right => KEY_RIGHT,
        KeyCode::Esc => KEY_QUIT,
        KeyCode::Other => 0,
    }
}

/// Map a terminal key to its key bit; zero for a key without a meaning.
pub fn map_key(code: KeyCode, _modifiers: KeyModifiers) -> (r: u16)
    ensures
        r == key_of(code),
{
    match code {
        KeyCode::Char('z') => KEY_A,
        KeyCode::Char('x') => KEY_B,
        KeyCode::Char('a') => KEY_L,
        KeyCode::Char('s') => KEY_R,
        KeyCode::Enter => KEY_START,
        KeyCode::BackTab | KeyCode::Tab => KEY_SELECT,
        KeyCode::Up => KEY_UP,
        KeyCode::Down => KEY_DOWN,
        KeyCode::Left => KEY_LEFT,
        KeyCode::Right => KEY_RIGHT,
        KeyCode::Char(' ') => KEY_TURBO,
        KeyCode::Char('q') | KeyCode::Esc => KEY_QUIT,
        _ => 0,
    }
}

/// The change that a key event makes: which key bit, and whether it went down
/// (a press or an auto-repeat) or up.
pub open spec fn change_of(event: KeyEvent) -> Option<(u16, bool)> {
    if key_of(event.code) == 0 {
        None
    } else {
        Some((key_of(event.code), event.kind != KeyEventKind::Release))
    }
}

/// What a key event changes; `None` for a key without a meaning.
pub fn key_change(event: KeyEvent) -> (r: Option<(u16, bool)>)
    ensures
        r == change_of(event),
{
    let pressed = match event.kind {
        KeyEventKind::Press | KeyEventKind::Repeat => true,
        KeyEventKind::Release => false,
    };
    let key = map_key(event.code, event.modifiers);
    if key != 0 {
        Some((key, pressed))
    } else {
        None
    }
}

/// The key bits after a run of events.
pub open spec fn bits_after(bits: u16, events: Seq<KeyEvent>) -> u16
    decreases events.len(),
{
    if events.len() == 0 {
        bits
    } else {
        let before = bits_after(bits, events.drop_last());
        match change_of(events.last()) {
            Some((key, pressed)) => with_key(before, key, pressed),
            None => before,
        }
    }
}

/// Update `state` with the keys that the pending events pressed and released.
pub fn poll_keys(state: &mut KeyState, events: &[KeyEvent])
    ensures
        final(state).0 == bits_after(old(state).0, events@),
{
    let mut i: usize = 0;
    while i < events.len()
        invariant
            i <= events@.len(),
            state.0 == bits_after(old(state).0, events@.take(i as int)),
        decreases events@.len() - i,
    {
        assert(events@.take(i + 1).drop_last() =~= events@.take(i as int));
        if let Some((key, pressed)) = key_change(events[i]) {
            state.set(key, pressed);
        }
        i = i + 1;
    }
    assert(events@.take(i as int) =~= events@);
}

// ---------------------------------------------------------------------------
// Held keys
// ---------------------------------------------------------------------------

/// When each key bit was last pressed or repeated, in nanoseconds of a
/// monotonic clock.
pub type LastSeen = Seq<Option<u128>>;

/// The last-seen times after a run of events at time `now`.
pub open spec fn seen_after(seen: LastSeen, events: Seq<KeyEvent>, now: u128) -> LastSeen
    decreases events.len(),
{
    if events.len() == 0 {
        seen
    } else {
        let before = seen_after(seen, events.drop_last(), now);
        match change_of(events.last()) {
            Some((key, pressed)) => before.update(
                key.trailing_zeros() as int,
                if pressed {
                    Some(now)
                } else {
                    None
                },
            ),
            None => before,
        }
    }
}

/// Whether a key last seen at `seen` has timed out at time `now`.
pub open spec fn timed_out(seen: Option<u128>, now: u128) -> bool {
    match seen {
        Some(t) => now - t >= HOLD_TIMEOUT,
        None => false,
    }
}

/// Adapter from the terminal's key events to a [`KeyState`].
///
/// Most terminals only report key presses (plus auto-repeat), never releases.
/// In that case a button is released once it goes [`HOLD_TIMEOUT`] without a
/// press or repeat event, so held keys do not stick down forever.
pub struct TerminalInput {
    release_events: bool,
    last_seen: [Option<u128>; KEY_BITS],
}

impl TerminalInput {
    /// Whether the terminal reports key releases.
    pub closed spec fn has_release_events(&self) -> bool {
        self.release_events
    }

    /// When each key bit was last pressed or repeated.
    pub closed spec fn seen(&self) -> LastSeen {
        self.last_seen@
    }

    pub fn new(release_events: bool) -> (r: Self)
        ensures
            r.has_release_events() == release_events,
            r.seen() == Seq::new(KEY_BITS as nat, |i: int| None::<u128>),
    {
        let r = TerminalInput { release_events, last_seen: [None; KEY_BITS] };
        assert(r.last_seen@ =~= Seq::new(KEY_BITS as nat, |i: int| None::<u128>));
        r
    }

    /// Update `state` with the events pending at time `now`, then release the
    /// keys that timed out if the terminal never reports releases.
    #[verifier::spinoff_prover]
    pub fn poll_keys(&mut self, state: &mut KeyState, events: &[KeyEvent], now: u128)
        ensures
            final(self).has_release_events() == old(self).has_release_events(),
            final(self).seen().len() == KEY_BITS,
            forall|i: int|
                0 <= i < KEY_BITS ==> #[trigger] final(self).seen()[i] == (if old(self).releases(
                    i,
                    events@,
                    now,
                ) {
                    None
                } else {
                    seen_after(old(self).seen(), events@, now)[i]
                }),
            forall|i: int|
                0 <= i < KEY_BITS ==> #[trigger] has_bit(final(state).0, i) == (has_bit(
                    bits_after(old(state).0, events@),
                    i,
                ) && !old(self).releases(i, events@, now)),
            old(self).has_release_events() ==> final(state).0 == bits_after(
                old(state).0,
                events@,
            ),
            // A key without an event is let go once it was last seen a hold
            // timeout ago, if the terminal reports no releases, and is left
            // alone otherwise.
            forall|i: int|
                0 <= i < KEY_BITS && (forall|j: int|
                    0 <= j < events@.len() ==> !#[trigger] has_bit(key_of(events@[j].code), i))
                    ==> (if !old(self).has_release_events() && (old(self).seen()[i] matches Some(t)
                    && t + HOLD_TIMEOUT <= now) {
                    !#[trigger] has_bit(final(state).0, i) && final(self).seen()[i] is None
                } else {
                    has_bit(final(state).0, i) == has_bit(old(state).0, i) && final(self).seen()[i]
                        == old(self).seen()[i]
                }),
            // A key with events is as its last event left it.
            forall|i: int, j: int|
                0 <= i < KEY_BITS && 0 <= j < events@.len() && #[trigger] has_bit(
                    key_of(events@[j].code),
                    i,
                ) && (forall|k: int|
                    j < k < events@.len() ==> !#[trigger] has_bit(key_of(events@[k].code), i))
                    ==> has_bit(final(state).0, i) == (events@[j].kind
                    != KeyEventKind::Release) && final(self).seen()[i] == (if events@[j].kind
                    != KeyEventKind::Release {
                    Some(now)
                } else {
                    None
                }),
    {
        let mut k: usize = 0;
        while k < events.len()
            invariant
                k <= events@.len(),
                self.release_events == old(self).release_events,
                self.last_seen@ == seen_after(old(self).seen(), events@.take(k as int), now),
                state.0 == bits_after(old(state).0, events@.take(k as int)),
            decreases events@.len() - k,
        {
            assert(events@.take(k + 1).drop_last() =~= events@.take(k as int));
            if let Some((key, pressed)) = key_change(events[k]) {
                state.set(key, pressed);
                proof {
                    vstd::std_specs::bits::axiom_u16_trailing_zeros(key);
                }
                let bit: usize = key.trailing_zeros() as usize;
                self.last_seen[bit] = if pressed {
                    Some(now)
                } else {
                    None
                };
            }
            k = k + 1;
        }
        assert(events@.take(k as int) =~= events@);

        if !self.release_events {
            let ghost seen = self.last_seen@;
            let ghost bits = state.0;
            let mut bit: usize = 0;
            while bit < KEY_BITS
                invariant
                    bit <= KEY_BITS,
                    !self.release_events,
                    seen.len() == KEY_BITS,
                    forall|i: int|
                        0 <= i < KEY_BITS ==> #[trigger] self.last_seen@[i] == (if i < bit && timed_out(
                            seen[i],
                            now,
                        ) {
                            None
                        } else {
                            seen[i]
                        }),
                    forall|i: int|
                        0 <= i < KEY_BITS ==> #[trigger] has_bit(state.0, i) == (has_bit(bits, i) && !(i
                            < bit && timed_out(seen[i], now))),
                decreases KEY_BITS - bit,
            {
                let expired = match self.last_seen[bit] {
                    Some(t) => now >= t && now - t >= HOLD_TIMEOUT,
                    None => false,
                };
                if expired {
                    self.last_seen[bit] = None;
                    proof {
                        lemma_one_bit(bit as u16);
                    }
                    state.set(1u16 << bit, false);
                }
                bit = bit + 1;
            }
        }
        proof {
            let (given, before) = (old(state).0, old(self).seen());
            assert forall|i: int|
                0 <= i < KEY_BITS && (forall|j: int|
                    0 <= j < events@.len() ==> !#[trigger] has_bit(
                        key_of(events@[j].code),
                        i,
                    )) implies (if !old(self).has_release_events() && (before[i] matches Some(t) && t
                + HOLD_TIMEOUT <= now) {
                !#[trigger] has_bit(state.0, i) && self.seen()[i] is None
            } else {
                has_bit(state.0, i) == has_bit(given, i) && self.seen()[i] == before[i]
            }) by {
                assert forall|j: int| 0 <= j < events@.len() implies !has_bit(
                    key_of((#[trigger] events@[j]).code),
                    i,
                ) by {
                    assert(!has_bit(key_of(events@[j].code), i));
                }
                other_keys_leave_a_key_alone(given, before, events@, now, i);
                assert(self.seen()[i] == self.last_seen@[i]);
            }
            assert forall|i: int, j: int|
                0 <= i < KEY_BITS && 0 <= j < events@.len() && #[trigger] has_bit(
                    key_of(events@[j].code),
                    i,
                ) && (forall|k: int|
                    j < k < events@.len() ==> !#[trigger] has_bit(
                        key_of(events@[k].code),
                        i,
                    )) implies has_bit(state.0, i) == (events@[j].kind
                != KeyEventKind::Release) && self.seen()[i] == (if events@[j].kind
                != KeyEventKind::Release {
                Some(now)
            } else {
                None
            }) by {
                let (earlier, later) = (events@.take(j), events@.skip(j + 1));
                assert(events@ =~= earlier.push(events@[j]) + later);
                assert forall|k: int| 0 <= k < later.len() implies !has_bit(
                    key_of((#[trigger] later[k]).code),
                    i,
                ) by {
                    assert(later[k] == events@[k + j + 1]);
                    assert(!has_bit(key_of(events@[k + j + 1].code), i));
                }
                the_last_event_of_a_key_counts(given, earlier, events@[j], later, i);
                the_last_event_of_a_key_is_remembered(before, earlier, events@[j], later, now, i);
                assert(self.seen()[i] == self.last_seen@[i]);
            }
        }
    }

    /// Whether polling `events` at time `now` ends with key bit `i` timed out.
    pub open spec fn releases(&self, i: int, events: Seq<KeyEvent>, now: u128) -> bool {
        !self.has_release_events() && timed_out(seen_after(self.seen(), events, now)[i], now)
    }
}

proof fn lemma_one_bit(k: u16)
    requires
        k < KEY_BITS,
    ensures
        forall|i: int| 0 <= i < KEY_BITS ==> (#[trigger] has_bit(1u16 << k, i) <==> i == k),
{
    assert forall|i: int| 0 <= i < KEY_BITS implies (#[trigger] has_bit(1u16 << k, i) <==> i
        == k) by {
        let j = i as u16;
        assert(((1u16 << k) & (1u16 << j) != 0) == (j == k)) by (bit_vector)
            requires
                k < 16,
                j < 16,
        ;
    }
}

/// A meaningful key stands for exactly one key bit, the one at which its last
/// press is remembered.
pub proof fn a_key_is_one_bit(code: KeyCode)
    requires
        key_of(code) != 0,
    ensures
        0 <= key_of(code).trailing_zeros() < KEY_BITS,
        key_of(code) == 1u16 << (key_of(code).trailing_zeros() as u16),
        forall|i: int|
            0 <= i < KEY_BITS ==> (#[trigger] has_bit(key_of(code), i) <==> i == key_of(
                code,
            ).trailing_zeros()),
{
    let key = key_of(code);
    vstd::std_specs::bits::axiom_u16_trailing_zeros(key);
    let k = key.trailing_zeros() as u16;
    assert(key == 1u16 << k) by (bit_vector)
        requires
            k < 16,
            (key >> k) & 1u16 == 1u16,
            key == 0x0001 || key == 0x0002 || key == 0x0004 || key == 0x0008 || key == 0x0010 || key
                == 0x0020 || key == 0x0040 || key == 0x0080 || key == 0x0100 || key == 0x0200 || key
                == 0x4000 || key == 0x8000,
    ;
    lemma_one_bit(k);
}

/// On a terminal that never reports releases, a key that was pressed or
/// repeated at one time and not since is let go exactly when the hold timeout
/// has passed, and at no earlier time.
pub proof fn a_press_holds_for_the_timeout(
    seen: LastSeen,
    earlier: Seq<KeyEvent>,
    press: KeyEvent,
    pressed_at: u128,
    now: u128,
)
    requires
        seen.len() == KEY_BITS,
        key_of(press.code) != 0,
        press.kind != KeyEventKind::Release,
    ensures
        ({
            let bit = key_of(press.code).trailing_zeros() as int;
            let after = seen_after(seen, earlier.push(press), pressed_at);
            &&& after[bit] == Some(pressed_at)
            &&& seen_after(after, Seq::empty(), now) == after
            &&& timed_out(after[bit], now) <==> now >= pressed_at + HOLD_TIMEOUT
        }),
{
    a_key_is_one_bit(press.code);
    lemma_seen_len(seen, earlier, pressed_at);
    assert(earlier.push(press).drop_last() =~= earlier);
}

proof fn lemma_seen_len(seen: LastSeen, events: Seq<KeyEvent>, now: u128)
    requires
        seen.len() == KEY_BITS,
    ensures
        seen_after(seen, events, now).len() == KEY_BITS,
    decreases events.len(),
{
    if events.len() > 0 {
        lemma_seen_len(seen, events.drop_last(), now);
        if key_of(events.last().code) != 0 {
            a_key_is_one_bit(events.last().code);
        }
    }
}

/// A released key is forgotten, so it cannot time out later.
pub proof fn a_release_is_forgotten(
    seen: LastSeen,
    earlier: Seq<KeyEvent>,
    release: KeyEvent,
    at: u128,
    now: u128,
)
    requires
        seen.len() == KEY_BITS,
        key_of(release.code) != 0,
        release.kind == KeyEventKind::Release,
    ensures
        !timed_out(
            seen_after(seen, earlier.push(release), at)[key_of(
                release.code,
            ).trailing_zeros() as int],
            now,
        ),
{
    a_key_is_one_bit(release.code);
    lemma_seen_len(seen, earlier, at);
    assert(earlier.push(release).drop_last() =~= earlier);
}

/// Polling twice is polling once with both runs of events.
pub proof fn events_accumulate(bits: u16, first: Seq<KeyEvent>, second: Seq<KeyEvent>)
    ensures
        bits_after(bits, first + second) == bits_after(bits_after(bits, first), second),
    decreases second.len(),
{
    if second.len() == 0 {
        assert(first + second =~= first);
    } else {
        assert((first + second).drop_last() =~= first + second.drop_last());
        events_accumulate(bits, first, second.drop_last());
    }
}

/// Events of other keys change neither a key bit nor when it was last seen.
pub proof fn other_keys_leave_a_key_alone(
    bits: u16,
    seen: LastSeen,
    events: Seq<KeyEvent>,
    now: u128,
    i: int,
)
    requires
        0 <= i < KEY_BITS,
        seen.len() == KEY_BITS,
        forall|j: int| 0 <= j < events.len() ==> !has_bit(key_of((#[trigger] events[j]).code), i),
    ensures
        has_bit(bits_after(bits, events), i) == has_bit(bits, i),
        seen_after(seen, events, now)[i] == seen[i],
    decreases events.len(),
{
    if events.len() > 0 {
        let earlier = events.drop_last();
        let last = events.last();
        assert(!has_bit(key_of(last.code), i));
        other_keys_leave_a_key_alone(bits, seen, earlier, now, i);
        lemma_seen_len(seen, earlier, now);
        if key_of(last.code) != 0 {
            a_key_is_one_bit(last.code);
            lemma_with_key(
                bits_after(bits, earlier),
                key_of(last.code),
                last.kind != KeyEventKind::Release,
            );
        }
    }
}

/// After a run of events a key bit is as the last event of its key left it:
/// down after a press or a repeat, and up after a release.
pub proof fn the_last_event_of_a_key_counts(
    bits: u16,
    earlier: Seq<KeyEvent>,
    event: KeyEvent,
    later: Seq<KeyEvent>,
    i: int,
)
    requires
        0 <= i < KEY_BITS,
        has_bit(key_of(event.code), i),
        forall|j: int| 0 <= j < later.len() ==> !has_bit(key_of((#[trigger] later[j]).code), i),
    ensures
        has_bit(bits_after(bits, earlier.push(event) + later), i) == (event.kind
            != KeyEventKind::Release),
{
    let key = key_of(event.code);
    let before = bits_after(bits, earlier);
    let after = bits_after(bits, earlier.push(event));
    if key == 0 {
        let k = i as u16;
        assert(0u16 & (1u16 << k) == 0) by (bit_vector);
    }
    assert(earlier.push(event).drop_last() =~= earlier);
    lemma_with_key(before, key, event.kind != KeyEventKind::Release);
    events_accumulate(bits, earlier.push(event), later);
    let seen = Seq::new(KEY_BITS as nat, |j: int| None::<u128>);
    other_keys_leave_a_key_alone(after, seen, later, 0, i);
}

/// After a run of events a key is remembered as its last event left it: seen
/// now after a press or a repeat, and forgotten after a release.
pub proof fn the_last_event_of_a_key_is_remembered(
    seen: LastSeen,
    earlier: Seq<KeyEvent>,
    event: KeyEvent,
    later: Seq<KeyEvent>,
    now: u128,
    i: int,
)
    requires
        0 <= i < KEY_BITS,
        seen.len() == KEY_BITS,
        has_bit(key_of(event.code), i),
        forall|j: int| 0 <= j < later.len() ==> !has_bit(key_of((#[trigger] later[j]).code), i),
    ensures
        seen_after(seen, earlier.push(event) + later, now)[i] == (if event.kind
            != KeyEventKind::Release {
            Some(now)
        } else {
            None
        }),
    decreases later.len(),
{
    let all = earlier.push(event) + later;
    if key_of(event.code) == 0 {
        let k = i as u16;
        assert(0u16 & (1u16 << k) == 0) by (bit_vector);
    }
    if later.len() == 0 {
        assert(all =~= earlier.push(event));
        assert(all.drop_last() =~= earlier);
        a_key_is_one_bit(event.code);
        lemma_seen_len(seen, earlier, now);
    } else {
        let last = later.last();
        assert(all.drop_last() =~= earlier.push(event) + later.drop_last());
        the_last_event_of_a_key_is_remembered(
            seen,
            earlier,
            event,
            later.drop_last(),
            now,
            i,
        );
        lemma_seen_len(seen, all.drop_last(), now);
        assert(!has_bit(key_of(last.code), i));
        if key_of(last.code) != 0 {
            a_key_is_one_bit(last.code);
        }
    }
}

/// What a poll lets go of, by times: a key without an event exactly if the
/// terminal reports no releases and the key was last seen at least the hold
/// timeout ago, and a key with an event never.
pub proof fn a_poll_lets_go_by_the_clock(
    input: TerminalInput,
    events: Seq<KeyEvent>,
    now: u128,
    i: int,
)
    requires
        0 <= i < KEY_BITS,
        input.seen().len() == KEY_BITS,
    ensures
        (forall|j: int| 0 <= j < events.len() ==> !has_bit(key_of((#[trigger] events[j]).code), i))
            ==> (input.releases(i, events, now) <==> !input.has_release_events() && (
        input.seen()[i] matches Some(t) && t + HOLD_TIMEOUT <= now)),
        (exists|j: int| 0 <= j < events.len() && has_bit(key_of((#[trigger] events[j]).code), i))
            ==> !input.releases(i, events, now),
    decreases events.len(),
{
    let seen = input.seen();
    if forall|j: int| 0 <= j < events.len() ==> !has_bit(key_of((#[trigger] events[j]).code), i) {
        other_keys_leave_a_key_alone(0, seen, events, now, i);
    } else {
        let last = events.last();
        let earlier = events.drop_last();
        lemma_seen_len(seen, earlier, now);
        if has_bit(key_of(last.code), i) {
            assert(events =~= earlier.push(last) + Seq::<KeyEvent>::empty());
            the_last_event_of_a_key_is_remembered(seen, earlier, last, Seq::empty(), now, i);
        } else {
            let j = choose|j: int|
                0 <= j < events.len() && has_bit(key_of((#[trigger] events[j]).code), i);
            assert(earlier[j] == events[j]);
            a_poll_lets_go_by_the_clock(input, earlier, now, i);
            if key_of(last.code) != 0 {
                a_key_is_one_bit(last.code);
            }
        }
    }
}

/// A bit of the mask is a binary digit of its number.
pub proof fn a_bit_is_a_binary_digit(bits: u16, i: int)
    requires
        0 <= i < KEY_BITS,
    ensures
        has_bit(bits, i) <==> (bits >> (i as u16)) % 2 == 1,
{
    let k = i as u16;
    assert((bits & (1u16 << k) != 0) == ((bits >> k) % 2 == 1)) by (bit_vector)
        requires
            k < 16,
    ;
}

/// The keys that mean something: ten for the buttons of the GBA and one more
/// for Select, one for turbo and two that quit. No other key has a meaning.
pub proof fn no_other_key_has_a_meaning(code: KeyCode)
    ensures
        key_of(code) == (match code {
            KeyCode::Char(c) => match c {
                'z' => 1u16,
                'x' => 2,
                's' => 256,
                'a' => 512,
                ' ' => 16384,
                'q' => 32768,
                _ => 0,
            },
            KeyCode::Tab => 4,
            KeyCode::BackTab => 4,
            KeyCode::Enter => 8,
            KeyCode::Right => 16,
            KeyCode::Left => 32,
            KeyCode::Up => 64,
            KeyCode::Down => 128,
            KeyCode::Esc => 32768,
            KeyCode::Other => 0,
        }),
{
}

/// Only the twelve key bits have a name of their own.
pub proof fn other_masks_are_unknown(key: u16)
    ensures
        key != 1 && key != 2 && key != 4 && key != 8 && key != 16 && key != 32 && key != 64 && key
            != 128 && key != 256 && key != 512 && key != 16384 && key != 32768 ==> name_of(key)
            == "UNKNOWN"@,
{
}

/// Non-blocking input source used by the core frame loop.
///
/// The relation names what one call may do. A source can define it; by
/// default it demands nothing.
pub trait InputPoller: Sized {
    /// `poll_keys` on the state `given` may turn `before` into `after`, leave
    /// `polled` as the state and return `outcome`.
    open spec fn polls(
        before: Self,
        given: KeyState,
        after: Self,
        polled: KeyState,
        outcome: Result<(), std::io::Error>,
    ) -> bool {
        true
    }

    fn poll_keys(&mut self, state: &mut KeyState) -> (r: Result<(), std::io::Error>)
        ensures
            Self::polls(*old(self), *old(state), *final(self), *final(state), r),
    ;
}

// ---------------------------------------------------------------------------
// Key log
// ---------------------------------------------------------------------------

/// The name of a key bit.
pub open spec fn name_of(key: u16) -> Seq<char> {
    if key == KEY_A {
        "A"@
    } else if key == KEY_B {
        "B"@
    } else if key == KEY_SELECT {
        "SELECT"@
    } else if key == KEY_START {
        "START"@
    } else if key == KEY_RIGHT {
        "RIGHT"@
    } else if key == KEY_LEFT {
        "LEFT"@
    } else if key == KEY_UP {
        "UP"@
    } else if key == KEY_DOWN {
        "DOWN"@
    } else if key == KEY_R {
        "R"@
    } else if key == KEY_L {
        "L"@
    } else if key == KEY_TURBO {
        "TURBO"@
    } else if key == KEY_QUIT {
        "QUIT"@
    } else {
        "UNKNOWN"@
    }
}

/// The name of a key bit, for logs.
pub fn key_name(key: u16) -> (r: &'static str)
    ensures
        r@ == name_of(key),
{
    match key {
        KEY_A => "A",
        KEY_B => "B",
        KEY_SELECT => "SELECT",
        KEY_START => "START",
        KEY_RIGHT => "RIGHT",
        KEY_LEFT => "LEFT",
        KEY_UP => "UP",
        KEY_DOWN => "DOWN",
        KEY_R => "R",
        KEY_L => "L",
        KEY_TURBO => "TURBO",
        KEY_QUIT => "QUIT",
        _ => "UNKNOWN",
    }
}

/// Whether key changes are logged. Off by default, because the log would draw
/// over the game screen.
#[derive(Debug, Clone, Copy, PartialEq, Eq, Structural)]
pub struct KeyLog {
    pub on: bool,
}

impl Default for KeyLog {
    fn default() -> (r: Self)
        ensures
            !r.on,
    {
        KeyLog { on: false }
    }
}

/// Switch the log of key changes on or off.
pub fn set_key_logging(log: &mut KeyLog, on: bool)
    ensures
        final(log).on == on,
{
    log.on = on;
}

/// The log line of a key change, without its line end: the time in
/// milliseconds with three decimals, the keys that are down after the change,
/// and the key that changed.
pub open spec fn log_line(bits: u16, key: u16, pressed: bool, micros: nat) -> Seq<char> {
    "[INPUT] t="@ + text::decimal(micros / 1000) + "."@ + text::padded_decimal(micros % 1000, 3)
        + "ms keys=0x"@ + text::hexadecimal(bits as nat, 4, true) + " "@ + (if pressed {
        "pressed"@
    } else {
        "released"@
    }) + "="@ + name_of(key)
}

/// The log lines of a run of events, one for each change, from the key bits
/// before it.
pub open spec fn log_lines(bits: u16, events: Seq<KeyEvent>, micros: nat) -> Seq<Seq<char>>
    decreases events.len(),
{
    if events.len() == 0 {
        Seq::empty()
    } else {
        let earlier = log_lines(bits, events.drop_last(), micros);
        match change_of(events.last()) {
            Some((key, pressed)) => earlier.push(
                log_line(bits_after(bits, events), key, pressed, micros),
            ),
            None => earlier,
        }
    }
}

impl KeyLog {
    /// The line to print for a key change, if the log is on; `state` is the
    /// state after the change, and the time is in microseconds.
    pub fn log_key_change(&self, state: KeyState, key: u16, pressed: bool, micros: u128) -> (r:
        Option<String>)
        ensures
            match r {
                Some(line) => self.on && line@ == log_line(state.0, key, pressed, micros as nat),
                None => !self.on,
            },
    {
        if !self.on {
            return None;
        }
        let mut line = String::new();
        line.append("[INPUT] t=");
        text::push_decimal(&mut line, micros / 1000);
        line.append(".");
        text::push_padded_decimal(&mut line, micros % 1000, 3);
        line.append("ms keys=0x");
        text::push_hexadecimal(&mut line, state.0 as u64, 4, true);
        line.append(" ");
        line.append(
            if pressed {
                "pressed"
            } else {
                "released"
            },
        );
        line.append("=");
        line.append(key_name(key));
        assert(line@ =~= log_line(state.0, key, pressed, micros as nat));
        Some(line)
    }

    /// The lines to print for a run of events, none if the log is off; `state`
    /// is the state before them.
    pub fn log_events(&self, state: KeyState, events: &[KeyEvent], micros: u128) -> (r: Vec<String>)
        ensures
            text::texts(r@) == (if self.on {
                log_lines(state.0, events@, micros as nat)
            } else {
                Seq::empty()
            }),
    {
        let mut lines: Vec<String> = Vec::new();
        let mut after = state;
        let mut i: usize = 0;
        assert(text::texts(lines@) =~= Seq::<Seq<char>>::empty());
        while i < events.len()
            invariant
                i <= events@.len(),
                after.0 == bits_after(state.0, events@.take(i as int)),
                text::texts(lines@) == (if self.on {
                    log_lines(state.0, events@.take(i as int), micros as nat)
                } else {
                    Seq::empty()
                }),
            decreases events@.len() - i,
        {
            let ghost before = text::texts(lines@);
            assert(events@.take(i + 1).drop_last() =~= events@.take(i as int));
            if let Some((key, pressed)) = key_change(events[i]) {
                after.set(key, pressed);
                if let Some(line) = self.log_key_change(after, key, pressed, micros) {
                    let ghost text = line@;
                    lines.push(line);
                    assert(text::texts(lines@) =~= before.push(text));
                }
            }
            i = i + 1;
        }
        assert(events@.take(i as int) =~= events@);
        lines
    }
}

/// A key that is logged as pressed is among the keys that are down, and one
/// that is logged as released is not.
pub proof fn the_log_shows_the_state_after_the_change(
    bits: u16,
    earlier: Seq<KeyEvent>,
    event: KeyEvent,
    micros: nat,
)
    requires
        key_of(event.code) != 0,
    ensures
        ({
            let key = key_of(event.code);
            let pressed = event.kind != KeyEventKind::Release;
            let after = bits_after(bits, earlier.push(event));
            &&& log_lines(bits, earlier.push(event), micros).last() == log_line(
                after,
                key,
                pressed,
                micros,
            )
            &&& KeyState(after).pressed(key) == pressed
        }),
{
    assert(earlier.push(event).drop_last() =~= earlier);
    a_set_key_reads_back(
        KeyState(bits_after(bits, earlier)),
        key_of(event.code),
        event.kind != KeyEventKind::Release,
    );
}

// ---------------------------------------------------------------------------
// Terminal modes
// ---------------------------------------------------------------------------

/// Whether the terminal will send key-release events. Some terminals do not
/// answer the query for it: automated runs skip it, and no answer (`None`)
/// means no.
pub fn terminal_reports_key_release(query_skipped: bool, answer: Option<bool>) -> (r: bool)
    ensures
        r == (!query_skipped && answer == Some(true)),
{
    if query_skipped {
        return false;
    }
    match answer {
        Some(supported) => supported,
        None => false,
    }
}

/// One change of the terminal's mode.
#[derive(Debug, Clone, Copy, PartialEq, Eq, Structural)]
pub enum TerminalStep {
    EnableRawMode,
    DisableRawMode,
    PushKeyboardFlags,
    PopKeyboardFlags,
    EnterAlternateScreen,
    LeaveAlternateScreen,
}

/// The modes of the terminal that the frontend changes.
pub ghost struct TerminalModes {
    pub raw: bool,
    pub alternate_screen: bool,
    /// How many sets of keyboard flags are stacked.
    pub keyboard_flags: int,
}

/// The modes after one step.
pub open spec fn after_step(modes: TerminalModes, step: TerminalStep) -> TerminalModes {
    match step {
        TerminalStep::EnableRawMode => TerminalModes { raw: true, ..modes },
        TerminalStep::DisableRawMode => TerminalModes { raw: false, ..modes },
        TerminalStep::PushKeyboardFlags => TerminalModes {
            keyboard_flags: modes.keyboard_flags + 1,
            ..modes
        },
        TerminalStep::PopKeyboardFlags => TerminalModes {
            keyboard_flags: modes.keyboard_flags - 1,
            ..modes
        },
        TerminalStep::EnterAlternateScreen => TerminalModes { alternate_screen: true, ..modes },
        TerminalStep::LeaveAlternateScreen => TerminalModes { alternate_screen: false, ..modes },
    }
}

/// The modes after a sequence of steps.
pub open spec fn after_steps(modes: TerminalModes, steps: Seq<TerminalStep>) -> TerminalModes
    decreases steps.len(),
{
    if steps.len() == 0 {
        modes
    } else {
        after_step(after_steps(modes, steps.drop_last()), steps.last())
    }
}

/// The steps that take the terminal over. Raw mode comes first: the terminal
/// answers the query for key releases in raw mode only. Flags ask for
/// key-release events where the terminal supports them.
pub open spec fn entering(release_events: bool) -> Seq<TerminalStep> {
    if release_events {
        seq![
            TerminalStep::EnableRawMode,
            TerminalStep::PushKeyboardFlags,
            TerminalStep::EnterAlternateScreen,
        ]
    } else {
        seq![TerminalStep::EnableRawMode, TerminalStep::EnterAlternateScreen]
    }
}

/// The steps that give the terminal back.
pub open spec fn leaving(release_events: bool) -> Seq<TerminalStep> {
    if release_events {
        seq![
            TerminalStep::PopKeyboardFlags,
            TerminalStep::DisableRawMode,
            TerminalStep::LeaveAlternateScreen,
        ]
    } else {
        seq![TerminalStep::DisableRawMode, TerminalStep::LeaveAlternateScreen]
    }
}

/// What is needed to take the terminal over and to give it back.
#[derive(Debug, Clone, Copy, PartialEq, Eq, Structural)]
pub struct RawModeGuard {
    pub release_events: bool,
}

impl RawModeGuard {
    pub fn new(release_events: bool) -> (r: Self)
        ensures
            r.release_events == release_events,
    {
        RawModeGuard { release_events }
    }

    /// Whether the terminal will send key-release events.
    pub fn reports_key_release(&self) -> (r: bool)
        ensures
            r == self.release_events,
    {
        self.release_events
    }

    /// The steps that take the terminal over, in order.
    pub fn enter_steps(&self) -> (r: Vec<TerminalStep>)
        ensures
            r@ == entering(self.release_events),
    {
        let mut steps: Vec<TerminalStep> = Vec::new();
        steps.push(TerminalStep::EnableRawMode);
        if self.release_events {
            steps.push(TerminalStep::PushKeyboardFlags);
        }
        steps.push(TerminalStep::EnterAlternateScreen);
        assert(steps@ =~= entering(self.release_events));
        steps
    }

    /// The steps that give the terminal back, in order.
    pub fn leave_steps(&self) -> (r: Vec<TerminalStep>)
        ensures
            r@ == leaving(self.release_events),
    {
        let mut steps: Vec<TerminalStep> = Vec::new();
        if self.release_events {
            steps.push(TerminalStep::PopKeyboardFlags);
        }
        steps.push(TerminalStep::DisableRawMode);
        steps.push(TerminalStep::LeaveAlternateScreen);
        assert(steps@ =~= leaving(self.release_events));
        steps
    }
}

/// Giving the terminal back undoes taking it over, if it was neither in raw
/// mode nor on the alternate screen.
pub proof fn leaving_undoes_entering(modes: TerminalModes, release_events: bool)
    requires
        !modes.raw,
        !modes.alternate_screen,
    ensures
        after_steps(after_steps(modes, entering(release_events)), leaving(release_events)) == modes,
        after_steps(modes, entering(release_events)).raw,
        after_steps(modes, entering(release_events)).alternate_screen,
{
    reveal_with_fuel(after_steps, 4);
    let enter = entering(release_events);
    let leave = leaving(release_events);
    if release_events {
        assert(enter.drop_last() =~= seq![
            TerminalStep::EnableRawMode,
            TerminalStep::PushKeyboardFlags,
        ]);
        assert(enter.drop_last().drop_last() =~= seq![TerminalStep::EnableRawMode]);
        assert(leave.drop_last() =~= seq![
            TerminalStep::PopKeyboardFlags,
            TerminalStep::DisableRawMode,
        ]);
        assert(leave.drop_last().drop_last() =~= seq![TerminalStep::PopKeyboardFlags]);
    } else {
        assert(enter.drop_last() =~= seq![TerminalStep::EnableRawMode]);
        assert(leave.drop_last() =~= seq![TerminalStep::DisableRawMode]);
    }
}

/// A log line shows the time, the keys and the key that changed in full: the
/// milliseconds before the dot, the microseconds in three digits after it, and
/// each of the sixteen key bits in the four hexadecimal digits.
pub proof fn a_log_line_shows_everything(bits: u16, key: u16, pressed: bool, micros: nat)
    ensures
        exists|whole: Seq<char>, part: Seq<char>, mask: Seq<char>|
            {
                &&& text::is_numeral(whole) && #[trigger] text::digits_value(whole) == micros / 1000
                &&& text::is_numeral(part) && part.len() == 3 && #[trigger] text::digits_value(part)
                    == micros % 1000
                &&& #[trigger] mask.len() == 4
                &&& forall|i: int|
                    0 <= i < 4 ==> text::hex_digit_value(#[trigger] mask[3 - i]) == Some(
                        bits as int / vstd::arithmetic::power::pow(16, i as nat) % 16,
                    )
                &&& log_line(bits, key, pressed, micros) == "[INPUT] t="@ + whole + "."@ + part
                    + "ms keys=0x"@ + mask + " "@ + (if pressed {
                    "pressed"@
                } else {
                    "released"@
                }) + "="@ + name_of(key)
            },
{
    let whole = text::decimal(micros / 1000);
    let part = text::padded_decimal(micros % 1000, 3);
    let mask = text::hexadecimal(bits as nat, 4, true);
    text::lemma_decimal(micros / 1000);
    assert(vstd::arithmetic::power::pow(10, 3) == 1000) by {
        vstd::arithmetic::power::lemma_pow1(10);
        vstd::arithmetic::power::lemma_pow_adds(10, 1, 1);
        vstd::arithmetic::power::lemma_pow_adds(10, 1, 2);
    }
    text::padded_decimals_keep_the_value(micros % 1000, 3);
    assert(text::is_numeral(part)) by {
        assert forall|i: int| 0 <= i < part.len() implies text::is_digit(#[trigger] part[i]) by {
            assert('0' <= part[i] <= '9');
        }
    }
    assert forall|i: int| 0 <= i < 4 implies text::hex_digit_value(#[trigger] mask[3 - i]) == Some(
        bits as int / vstd::arithmetic::power::pow(16, i as nat) % 16,
    ) by {
        text::hexadecimals_show_every_digit(bits as nat, 4, true, i);
    }
    text::hexadecimals_show_every_digit(bits as nat, 4, true, 0);
    assert(mask.len() == 4);
    assert(text::digits_value(whole) == micros / 1000 && text::digits_value(part) == micros % 1000);
}

/// A run of events is logged with one line for each change and none for other
/// events, in order; each line shows the keys after its own event.
pub proof fn every_change_is_logged_in_order(
    bits: u16,
    events: Seq<KeyEvent>,
    event: KeyEvent,
    micros: nat,
)
    ensures
        log_lines(bits, Seq::empty(), micros).len() == 0,
        key_of(event.code) == 0 ==> log_lines(bits, events.push(event), micros) == log_lines(
            bits,
            events,
            micros,
        ),
        key_of(event.code) != 0 ==> log_lines(bits, events.push(event), micros) == log_lines(
            bits,
            events,
            micros,
        ).push(
            log_line(
                bits_after(bits, events.push(event)),
                key_of(event.code),
                event.kind != KeyEventKind::Release,
                micros,
            ),
        ),
{
    assert(events.push(event).drop_last() =~= events);
}

/// An event of a key with a meaning changes that key, down by a press or a
/// repeat and up by a release; any other event changes nothing.
pub proof fn an_event_changes_its_own_key(event: KeyEvent)
    ensures
        key_of(event.code) == 0 <==> change_of(event) is None,
        change_of(event) matches Some((key, pressed)) ==> key == key_of(event.code) && (pressed
            <==> event.kind == KeyEventKind::Press || event.kind == KeyEventKind::Repeat),
{
}

/// Each step changes one mode of the terminal and leaves the others alone.
pub proof fn a_step_changes_one_mode(modes: TerminalModes, step: TerminalStep)
    ensures
        ({
            let after = after_step(modes, step);
            &&& after.raw == (step == TerminalStep::EnableRawMode || (modes.raw && step
                != TerminalStep::DisableRawMode))
            &&& after.alternate_screen == (step == TerminalStep::EnterAlternateScreen || (
            modes.alternate_screen && step != TerminalStep::LeaveAlternateScreen))
            &&& after.keyboard_flags - modes.keyboard_flags == (if step
                == TerminalStep::PushKeyboardFlags {
                1int
            } else if step == TerminalStep::PopKeyboardFlags {
                -1
            } else {
                0
            })
        }),
{
}

/// Taking the terminal over starts with raw mode and asks for key releases
/// exactly where the terminal reports them; giving it back starts by dropping
/// that request again.
pub proof fn releases_are_asked_for_where_they_are_reported(
    modes: TerminalModes,
    release_events: bool,
)
    ensures
        entering(release_events)[0] == TerminalStep::EnableRawMode,
        entering(release_events).last() == TerminalStep::EnterAlternateScreen,
        after_steps(modes, entering(release_events)).keyboard_flags == modes.keyboard_flags + (
        if release_events {
            1int
        } else {
            0
        }),
        leaving(release_events)[0] == TerminalStep::PopKeyboardFlags <==> release_events,
        leaving(release_events).last() == TerminalStep::LeaveAlternateScreen,
{
    reveal_with_fuel(after_steps, 4);
    let enter = entering(release_events);
    assert(enter[0] == TerminalStep::EnableRawMode);
    if release_events {
        assert(enter.drop_last() =~= seq![
            TerminalStep::EnableRawMode,
            TerminalStep::PushKeyboardFlags,
        ]);
        assert(enter.drop_last().drop_last() =~= seq![TerminalStep::EnableRawMode]);
    } else {
        assert(enter.drop_last() =~= seq![TerminalStep::EnableRawMode]);
    }
}

} // verus!
