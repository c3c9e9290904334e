//! The command line of the player.
//!
//! An argument that is no valid text is given as `None`: it can still be the
//! path of the ROM.

use vstd::prelude::*;

use crate::render::RenderMode;
use crate::text;

verus! {

/// What to play, and how. The ROM is given by the index of its path on the
/// command line; a renderer that is not given is detected.
#[derive(Debug, Clone, Copy, PartialEq, Eq, Structural)]
pub struct PlayerOpts {
    pub rom: usize,
    pub mode: Option<RenderMode>,
    pub mute: bool,
}

/// What a command line asks for.
#[derive(Debug, Clone, Copy, PartialEq, Eq, Structural)]
pub enum PlayerRequest {
    Help,
    Play(PlayerOpts),
}

/// Why a command line is refused; the indices tell the argument.
#[derive(Debug, Clone, Copy, PartialEq, Eq, Structural)]
pub enum PlayerArgError {
    ModeNeedsValue,
    UnknownMode(usize),
    UnknownOption(usize),
    SecondRom,
    MissingRom,
}

/// The texts of arguments.
pub open spec fn texts(args: Seq<Option<String>>) -> Seq<Option<Seq<char>>> {
    args.map_values(
        |arg: Option<String>|
            match arg {
                Some(s) => Some(s@),
                None => None,
            },
    )
}

/// The renderer that a value asks for; `Some(None)` leaves it to detection.
pub open spec fn mode_named(value: Option<Seq<char>>) -> Option<Option<RenderMode>> {
    if value == Some("auto"@) {
        Some(None)
    } else if value == Some("halfblock"@) {
        Some(Some(RenderMode::HalfBlock))
    } else if value == Some("kitty"@) {
        Some(Some(RenderMode::Kitty))
    } else {
        None
    }
}

/// What the arguments from index `i` on ask for, after `rom`, `mode` and
/// `mute` were found before them. An option may be repeated, and the last
/// value counts.
pub open spec fn request_from(
    args: Seq<Option<Seq<char>>>,
    i: int,
    rom: Option<usize>,
    mode: Option<RenderMode>,
    mute: bool,
) -> Result<PlayerRequest, PlayerArgError>
    decreases args.len() - i,
{
    if i >= args.len() {
        match rom {
            Some(rom) => Ok(PlayerRequest::Play(PlayerOpts { rom, mode, mute })),
            None => Err(PlayerArgError::MissingRom),
        }
    } else if args[i] == Some("-h"@) || args[i] == Some("--help"@) {
        Ok(PlayerRequest::Help)
    } else if args[i] == Some("--mute"@) {
        request_from(args, i + 1, rom, mode, true)
    } else if args[i] == Some("--mode"@) {
        if i + 1 >= args.len() {
            Err(PlayerArgError::ModeNeedsValue)
        } else {
            match mode_named(args[i + 1]) {
                Some(named) => request_from(args, i + 2, rom, named, mute),
                None => Err(PlayerArgError::UnknownMode((i + 1) as usize)),
            }
        }
    } else if args[i] is Some && args[i]->0.len() > 0 && args[i]->0[0] == '-' {
        Err(PlayerArgError::UnknownOption(i as usize))
    } else if rom is Some {
        Err(PlayerArgError::SecondRom)
    } else {
        request_from(args, i + 1, Some(i as usize), mode, mute)
    }
}

/// What a command line asks for.
pub open spec fn request_of(args: Seq<Option<Seq<char>>>) -> Result<PlayerRequest, PlayerArgError> {
    request_from(args, 0, None, None, false)
}

// ---------------------------------------------------------------------------
// Operations
// ---------------------------------------------------------------------------

/// Whether an argument is the given text.
fn is_text(arg: &Option<String>, text: &str) -> (r: bool)
    ensures
        r == (match *arg {
            Some(s) => s@ == text@,
            None => false,
        }),
{
    match arg {
        Some(s) => text::same_text(s.as_str(), text),
        None => false,
    }
}

/// Whether an argument is a text that starts with a dash.
fn is_option(arg: &Option<String>) -> (r: bool)
    ensures
        r == (match *arg {
            Some(s) => s@.len() > 0 && s@[0] == '-',
            None => false,
        }),
{
    match arg {
        Some(s) => {
            let chars = text::chars_of(s.as_str());
            chars.len() > 0 && chars[0] == '-'
        },
        None => false,
    }
}

/// The renderer that a value asks for; `Some(None)` leaves it to detection.
pub fn mode_of(value: &Option<String>) -> (r: Option<Option<RenderMode>>)
    ensures
        r == mode_named(
            match *value {
                Some(s) => Some(s@),
                None => None,
            },
        ),
{
    if is_text(value, "auto") {
        Some(None)
    } else if is_text(value, "halfblock") {
        Some(Some(RenderMode::HalfBlock))
    } else if is_text(value, "kitty") {
        Some(Some(RenderMode::Kitty))
    } else {
        None
    }
}

/// Read a command line, given without the program's name.
pub fn parse_args(args: &[Option<String>]) -> (r: Result<PlayerRequest, PlayerArgError>)
    ensures
        r == request_of(texts(args@)),
{
    let ghost all = texts(args@);
    let mut rom: Option<usize> = None;
    let mut mode: Option<RenderMode> = None;
    let mut mute = false;
    let mut i: usize = 0;
    while i < args.len()
        invariant
            i <= args@.len(),
            all == texts(args@),
            request_of(all) == request_from(all, i as int, rom, mode, mute),
        decreases args@.len() - i,
    {
        let arg = &args[i];
        assert(args@.len() <= usize::MAX);
        assert(all[i as int] == match args@[i as int] {
            Some(s) => Some(s@),
            None => None,
        });
        if is_text(arg, "-h") || is_text(arg, "--help") {
            return Ok(PlayerRequest::Help);
        }
        if is_text(arg, "--mute") {
            mute = true;
        } else if is_text(arg, "--mode") {
            i = i + 1;
            if i >= args.len() {
                return Err(PlayerArgError::ModeNeedsValue);
            }
            let value = &args[i];
            assert(all[i as int] == match args@[i as int] {
                Some(s) => Some(s@),
                None => None,
            });
            match mode_of(value) {
                Some(named) => {
                    mode = named;
                },
                None => {
                    return Err(PlayerArgError::UnknownMode(i));
                },
            }
        } else if is_option(arg) {
            return Err(PlayerArgError::UnknownOption(i));
        } else if rom.is_some() {
            return Err(PlayerArgError::SecondRom);
        } else {
            rom = Some(i);
        }
        i = i + 1;
    }
    match rom {
        Some(rom) => Ok(PlayerRequest::Play(PlayerOpts { rom, mode, mute })),
        None => Err(PlayerArgError::MissingRom),
    }
}

impl PlayerArgError {
    /// The message of this error, given the argument that it speaks of as it
    /// is to be shown.
    pub open spec fn text(&self, arg: Seq<char>) -> Seq<char> {
        match *self {
            PlayerArgError::ModeNeedsValue => "--mode needs a value"@,
            PlayerArgError::UnknownMode(_) => "unknown mode "@ + arg,
            PlayerArgError::UnknownOption(_) => "unknown option "@ + arg,
            PlayerArgError::SecondRom => "only one ROM path may be given"@,
            PlayerArgError::MissingRom => "missing ROM path"@,
        }
    }

    /// The message of this error, given the argument that it speaks of as it
    /// is to be shown.
    pub fn message(&self, arg: &str) -> (r: String)
        ensures
            r@ == self.text(arg@),
    {
        match self {
            PlayerArgError::ModeNeedsValue => "--mode needs a value".to_owned(),
            PlayerArgError::UnknownMode(_) => {
                let mut out = String::new();
                out.append("unknown mode ");
                out.append(arg);
                assert(out@ =~= self.text(arg@));
                out
            },
            PlayerArgError::UnknownOption(_) => {
                let mut out = String::new();
                out.append("unknown option ");
                out.append(arg);
                assert(out@ =~= self.text(arg@));
                out
            },
            PlayerArgError::SecondRom => "only one ROM path may be given".to_owned(),
            PlayerArgError::MissingRom => "missing ROM path".to_owned(),
        }
    }
}

/// The ROM to play and an argument that is refused are on the command line,
/// and the ROM is no option.
pub proof fn the_rom_is_an_argument(args: Seq<Option<Seq<char>>>)
    requires
        args.len() <= usize::MAX,
    ensures
        match request_of(args) {
            Ok(PlayerRequest::Play(opts)) => opts.rom < args.len() && !(args[opts.rom as int] matches Some(
                s,
            ) && s.len() > 0 && s[0] == '-'),
            Ok(PlayerRequest::Help) => true,
            Err(PlayerArgError::UnknownMode(i)) => 0 < i < args.len(),
            Err(PlayerArgError::UnknownOption(i)) => i < args.len(),
            Err(_) => true,
        },
{
    lemma_request_from(args, 0, None, None, false);
}

proof fn lemma_request_from(
    args: Seq<Option<Seq<char>>>,
    i: int,
    rom: Option<usize>,
    mode: Option<RenderMode>,
    mute: bool,
)
    requires
        0 <= i <= args.len() <= usize::MAX,
        rom matches Some(at) ==> at < args.len() && !(args[at as int] matches Some(s) && s.len() > 0
            && s[0] == '-'),
    ensures
        match request_from(args, i, rom, mode, mute) {
            Ok(PlayerRequest::Play(opts)) => opts.rom < args.len() && !(args[opts.rom as int] matches Some(
                s,
            ) && s.len() > 0 && s[0] == '-'),
            Ok(PlayerRequest::Help) => true,
            Err(PlayerArgError::UnknownMode(i)) => 0 < i < args.len(),
            Err(PlayerArgError::UnknownOption(i)) => i < args.len(),
            Err(_) => true,
        },
    decreases args.len() - i,
{
    if i < args.len() {
        if args[i] == Some("--mute"@) {
            lemma_request_from(args, i + 1, rom, mode, true);
        } else if args[i] == Some("--mode"@) {
            if i + 1 < args.len() {
                if let Some(named) = mode_named(args[i + 1]) {
                    lemma_request_from(args, i + 2, rom, named, mute);
                }
            }
        } else if args[i] != Some("-h"@) && args[i] != Some("--help"@) && rom is None && !(
        args[i] is Some && args[i]->0.len() > 0 && args[i]->0[0] == '-') {
            lemma_request_from(args, i + 1, Some(i as usize), mode, mute);
        }
    }
}

/// The values that name a renderer; every other value is refused.
pub proof fn three_values_name_a_mode(value: Option<Seq<char>>)
    ensures
        mode_named(value) is Some <==> value == Some("auto"@) || value == Some("halfblock"@) || value
            == Some("kitty"@),
        mode_named(value) == Some(None::<RenderMode>) <==> value == Some("auto"@),
        mode_named(value) == Some(Some(RenderMode::HalfBlock)) <==> value == Some("halfblock"@),
        mode_named(value) == Some(Some(RenderMode::Kitty)) <==> value == Some("kitty"@),
{
    lemma_words();
}

proof fn lemma_words()
    ensures
        "auto"@[0] == 'a' && "halfblock"@[0] == 'h' && "kitty"@[0] == 'k',
        "auto"@.len() > 0 && "halfblock"@.len() > 0 && "kitty"@.len() > 0,
        "-h"@[0] == '-' && "--help"@[0] == '-' && "--mute"@[0] == '-' && "--mode"@[0] == '-',
        "-h"@.len() == 2 && "--help"@.len() == 6 && "--mute"@.len() == 6 && "--mode"@.len() == 6,
        "--help"@[2] == 'h' && "--mute"@[3] == 'u' && "--mode"@[3] == 'o' && "--mute"@[2] == 'm'
            && "--mode"@[2] == 'm',
{
    reveal_strlit("auto");
    reveal_strlit("halfblock");
    reveal_strlit("kitty");
    reveal_strlit("-h");
    reveal_strlit("--help");
    reveal_strlit("--mute");
    reveal_strlit("--mode");
}

/// What is played, by the whole command line. It is mute if and only if that
/// is asked for anywhere. The renderer is the one of the last `--mode`, or is
/// left open without one. The ROM is the one argument that is neither an
/// option nor the value of one.
pub proof fn a_command_line_is_read_whole(args: Seq<Option<Seq<char>>>, opts: PlayerOpts)
    requires
        args.len() <= usize::MAX,
        request_of(args) == Ok::<PlayerRequest, PlayerArgError>(PlayerRequest::Play(opts)),
    ensures
        opts.mute <==> exists|j: int| 0 <= j < args.len() && #[trigger] args[j] == Some("--mute"@),
        (forall|j: int| 0 <= j < args.len() ==> #[trigger] args[j] != Some("--mode"@)) ==> opts.mode
            is None,
        forall|j: int|
            0 <= j < args.len() && #[trigger] args[j] == Some("--mode"@) && (forall|k: int|
                j < k < args.len() ==> #[trigger] args[k] != Some("--mode"@)) ==> j + 1 < args.len()
                && mode_named(args[j + 1]) == Some(opts.mode),
        opts.rom < args.len(),
        !(args[opts.rom as int] matches Some(s) && s.len() > 0 && s[0] == '-'),
        forall|j: int|
            0 <= j < args.len() && j != opts.rom ==> #[trigger] args[j] == Some("--mute"@) || args[j]
                == Some("--mode"@) || (j > 0 && args[j - 1] == Some("--mode"@)),
{
    lemma_mute(args, 0, None, None, false);
    lemma_no_mode(args, 0, None, None, false);
    assert forall|j: int|
        0 <= j < args.len() && #[trigger] args[j] == Some("--mode"@) && (forall|k: int|
            j < k < args.len() ==> #[trigger] args[k] != Some("--mode"@)) implies j + 1 < args.len()
        && mode_named(args[j + 1]) == Some(opts.mode) by {
        lemma_last_mode(args, 0, None, None, false, j);
    }
    lemma_rom(args, 0, None, None, false);
    the_rom_is_an_argument(args);
}

/// The usage is shown only if it is asked for.
pub proof fn help_is_asked_for(args: Seq<Option<Seq<char>>>)
    requires
        args.len() <= usize::MAX,
        request_of(args) == Ok::<PlayerRequest, PlayerArgError>(PlayerRequest::Help),
    ensures
        exists|j: int|
            0 <= j < args.len() && (#[trigger] args[j] == Some("-h"@) || args[j] == Some(
                "--help"@,
            )),
{
    lemma_reason(args, 0, None, None, false);
}

/// A command line is refused for a reason that stands on it: a `--mode`
/// without a value or with one that names no renderer, an option that is not
/// known, two arguments that could be the ROM, or none.
pub proof fn a_refusal_has_its_reason(args: Seq<Option<Seq<char>>>, error: PlayerArgError)
    requires
        args.len() <= usize::MAX,
        request_of(args) == Err::<PlayerRequest, PlayerArgError>(error),
    ensures
        match error {
            PlayerArgError::ModeNeedsValue => args.len() > 0 && args.last() == Some("--mode"@),
            PlayerArgError::UnknownMode(k) => 0 < k < args.len() && args[k - 1] == Some("--mode"@)
                && mode_named(args[k as int]) is None,
            PlayerArgError::UnknownOption(k) => k < args.len() && (args[k as int] matches Some(s)
                && s.len() > 0 && s[0] == '-' && s != "-h"@ && s != "--help"@ && s != "--mute"@ && s
                != "--mode"@),
            PlayerArgError::SecondRom => exists|j: int, k: int|
                {
                    &&& 0 <= j < k < args.len()
                    &&& !(#[trigger] args[j] matches Some(s) && s.len() > 0 && s[0] == '-')
                    &&& !(#[trigger] args[k] matches Some(s) && s.len() > 0 && s[0] == '-')
                },
            PlayerArgError::MissingRom => forall|j: int|
                0 <= j < args.len() ==> #[trigger] args[j] == Some("--mute"@) || args[j] == Some(
                    "--mode"@,
                ) || (j > 0 && args[j - 1] == Some("--mode"@)),
        },
{
    lemma_reason(args, 0, None, None, false);
    lemma_rom(args, 0, None, None, false);
}

proof fn lemma_mute(
    args: Seq<Option<Seq<char>>>,
    i: int,
    rom: Option<usize>,
    mode: Option<RenderMode>,
    mute: bool,
)
    requires
        0 <= i <= args.len() <= usize::MAX,
    ensures
        request_from(args, i, rom, mode, mute) matches Ok(PlayerRequest::Play(opts)) ==> (opts.mute
            <==> mute || exists|j: int|
            i <= j < args.len() && #[trigger] args[j] == Some("--mute"@)),
    decreases args.len() - i,
{
    lemma_words();
    if i < args.len() {
        let here = args[i];
        if here == Some("-h"@) || here == Some("--help"@) {
        } else if here == Some("--mute"@) {
            lemma_mute(args, i + 1, rom, mode, true);
        } else if here == Some("--mode"@) {
            if i + 1 < args.len() {
                three_values_name_a_mode(args[i + 1]);
                if let Some(named) = mode_named(args[i + 1]) {
                    lemma_mute(args, i + 2, rom, named, mute);
                }
            }
        } else if here is Some && here->0.len() > 0 && here->0[0] == '-' {
        } else if rom is Some {
        } else {
            lemma_mute(args, i + 1, Some(i as usize), mode, mute);
        }
    }
}

proof fn lemma_no_mode(
    args: Seq<Option<Seq<char>>>,
    i: int,
    rom: Option<usize>,
    mode: Option<RenderMode>,
    mute: bool,
)
    requires
        0 <= i <= args.len() <= usize::MAX,
    ensures
        request_from(args, i, rom, mode, mute) matches Ok(PlayerRequest::Play(opts)) ==> ((forall|
            j: int,
        |
            i <= j < args.len() ==> #[trigger] args[j] != Some("--mode"@)) ==> opts.mode == mode),
    decreases args.len() - i,
{
    lemma_words();
    if i < args.len() {
        let here = args[i];
        if here == Some("-h"@) || here == Some("--help"@) {
        } else if here == Some("--mute"@) {
            lemma_no_mode(args, i + 1, rom, mode, true);
        } else if here == Some("--mode"@) {
            if i + 1 < args.len() {
                three_values_name_a_mode(args[i + 1]);
                if let Some(named) = mode_named(args[i + 1]) {
                    lemma_no_mode(args, i + 2, rom, named, mute);
                }
            }
        } else if here is Some && here->0.len() > 0 && here->0[0] == '-' {
        } else if rom is Some {
        } else {
            lemma_no_mode(args, i + 1, Some(i as usize), mode, mute);
        }
    }
}

proof fn lemma_last_mode(
    args: Seq<Option<Seq<char>>>,
    i: int,
    rom: Option<usize>,
    mode: Option<RenderMode>,
    mute: bool,
    last: int,
)
    requires
        0 <= i <= args.len() <= usize::MAX,
        i <= last < args.len(),
        args[last] == Some("--mode"@),
        forall|k: int| last < k < args.len() ==> #[trigger] args[k] != Some("--mode"@),
    ensures
        request_from(args, i, rom, mode, mute) matches Ok(PlayerRequest::Play(opts)) ==> last + 1
            < args.len() && mode_named(args[last + 1]) == Some(opts.mode),
    decreases args.len() - i,
{
    lemma_words();
    let here = args[i];
    if here == Some("--mute"@) {
        lemma_last_mode(args, i + 1, rom, mode, true, last);
    } else if here == Some("--mode"@) {
        if i + 1 < args.len() {
            three_values_name_a_mode(args[i + 1]);
            if let Some(named) = mode_named(args[i + 1]) {
                if i == last {
                    lemma_no_mode(args, i + 2, rom, named, mute);
                } else {
                    assert(last != i + 1);
                    lemma_last_mode(args, i + 2, rom, named, mute, last);
                }
            }
        }
    } else if here != Some("-h"@) && here != Some("--help"@) && !(here is Some && here->0.len() > 0
        && here->0[0] == '-') && rom is None {
        lemma_last_mode(args, i + 1, Some(i as usize), mode, mute, last);
    }
}

proof fn lemma_rom(
    args: Seq<Option<Seq<char>>>,
    i: int,
    rom: Option<usize>,
    mode: Option<RenderMode>,
    mute: bool,
)
    requires
        0 <= i <= args.len() <= usize::MAX,
    ensures
        match request_from(args, i, rom, mode, mute) {
            Ok(PlayerRequest::Play(opts)) => {
                &&& rom matches Some(r) ==> opts.rom == r
                &&& forall|j: int|
                    i <= j < args.len() && j != opts.rom ==> #[trigger] args[j] == Some("--mute"@)
                        || args[j] == Some("--mode"@) || (j > i && args[j - 1] == Some("--mode"@))
            },
            Err(PlayerArgError::MissingRom) => rom is None && forall|j: int|
                i <= j < args.len() ==> #[trigger] args[j] == Some("--mute"@) || args[j] == Some(
                    "--mode"@,
                ) || (j > i && args[j - 1] == Some("--mode"@)),
            _ => true,
        },
    decreases args.len() - i,
{
    lemma_words();
    if i < args.len() {
        let here = args[i];
        if here == Some("-h"@) || here == Some("--help"@) {
        } else if here == Some("--mute"@) {
            lemma_rom(args, i + 1, rom, mode, true);
        } else if here == Some("--mode"@) {
            if i + 1 < args.len() {
                three_values_name_a_mode(args[i + 1]);
                if let Some(named) = mode_named(args[i + 1]) {
                    lemma_rom(args, i + 2, rom, named, mute);
                }
            }
        } else if here is Some && here->0.len() > 0 && here->0[0] == '-' {
        } else if rom is Some {
        } else {
            lemma_rom(args, i + 1, Some(i as usize), mode, mute);
        }
    }
}

proof fn lemma_reason(
    args: Seq<Option<Seq<char>>>,
    i: int,
    rom: Option<usize>,
    mode: Option<RenderMode>,
    mute: bool,
)
    requires
        0 <= i <= args.len() <= usize::MAX,
        rom matches Some(r) ==> r < i && !(args[r as int] matches Some(s) && s.len() > 0 && s[0]
            == '-'),
    ensures
        match request_from(args, i, rom, mode, mute) {
            Ok(PlayerRequest::Help) => exists|j: int|
                i <= j < args.len() && (#[trigger] args[j] == Some("-h"@) || args[j] == Some(
                    "--help"@,
                )),
            Err(PlayerArgError::ModeNeedsValue) => i < args.len() && args.last() == Some("--mode"@),
            Err(PlayerArgError::UnknownMode(k)) => i < k < args.len() && args[k - 1] == Some(
                "--mode"@,
            ) && mode_named(args[k as int]) is None,
            Err(PlayerArgError::UnknownOption(k)) => i <= k < args.len() && (
            args[k as int] matches Some(s) && s.len() > 0 && s[0] == '-' && s != "-h"@ && s
                != "--help"@ && s != "--mute"@ && s != "--mode"@),
            Err(PlayerArgError::SecondRom) => exists|j: int, k: int|
                {
                    &&& 0 <= j < k < args.len()
                    &&& !(#[trigger] args[j] matches Some(s) && s.len() > 0 && s[0] == '-')
                    &&& !(#[trigger] args[k] matches Some(s) && s.len() > 0 && s[0] == '-')
                },
            _ => true,
        },
    decreases args.len() - i,
{
    lemma_words();
    if i < args.len() {
        let here = args[i];
        if here == Some("-h"@) || here == Some("--help"@) {
        } else if here == Some("--mute"@) {
            lemma_reason(args, i + 1, rom, mode, true);
        } else if here == Some("--mode"@) {
            if i + 1 < args.len() {
                three_values_name_a_mode(args[i + 1]);
                if let Some(named) = mode_named(args[i + 1]) {
                    lemma_reason(args, i + 2, rom, named, mute);
                }
            }
        } else if here is Some && here->0.len() > 0 && here->0[0] == '-' {
        } else if rom is Some {
            let r = rom->0 as int;
            assert(!(args[r] matches Some(s) && s.len() > 0 && s[0] == '-'));
        } else {
            lemma_reason(args, i + 1, Some(i as usize), mode, mute);
        }
    }
}

/// A complaint about an argument shows it whole, as it was given.
pub proof fn complaints_show_the_argument(i: usize, arg: Seq<char>)
    ensures
        PlayerArgError::UnknownMode(i).text(arg).take(13) == "unknown mode "@,
        PlayerArgError::UnknownMode(i).text(arg).skip(13) == arg,
        PlayerArgError::UnknownOption(i).text(arg).take(15) == "unknown option "@,
        PlayerArgError::UnknownOption(i).text(arg).skip(15) == arg,
{
    reveal_strlit("unknown mode ");
    reveal_strlit("unknown option ");
    assert(PlayerArgError::UnknownMode(i).text(arg).take(13) =~= "unknown mode "@);
    assert(PlayerArgError::UnknownMode(i).text(arg).skip(13) =~= arg);
    assert(PlayerArgError::UnknownOption(i).text(arg).take(15) =~= "unknown option "@);
    assert(PlayerArgError::UnknownOption(i).text(arg).skip(15) =~= arg);
}

/// The texts of arguments are all of them, one by one and in order; an argument
/// that is no text has none.
pub proof fn all_arguments_have_their_text(args: Seq<Option<String>>)
    ensures
        texts(args).len() == args.len(),
        forall|i: int|
            0 <= i < args.len() ==> #[trigger] texts(args)[i] == (match args[i] {
                Some(s) => Some(s@),
                None => None,
            }),
{
}

} // verus!
