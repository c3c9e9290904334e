//! The command line of the plain frontend, which takes nothing but a ROM.

use vstd::prelude::*;

use crate::text;

verus! {

/// The usage of the plain frontend.
pub const USAGE: &'static str = "Usage: terminal_gba_translator <ROM.gba>\n\nControls:\n  z       A\n  x       B\n  arrows  D-pad\n  Enter   Start\n  Tab     Select\n  a / s   L / R\n  q/Esc   Quit\n";

/// The message for a command line with several arguments.
pub open spec fn rom_expected() -> Seq<char> {
    "expected exactly one ROM path\n\n"@ + USAGE@
}

/// Whether a command line asks for the usage.
pub open spec fn asks_for_help(args: Seq<Seq<char>>) -> bool {
    args.len() == 0 || (args.len() == 1 && (args[0] == "--help"@ || args[0] == "-h"@))
}

/// Read a command line, given without the program's name: the path of the
/// ROM, or `None` if the usage is asked for.
pub fn parse_args(args: &[String]) -> (r: Result<Option<String>, String>)
    ensures
        match r {
            Ok(None) => asks_for_help(text::texts(args@)),
            Ok(Some(rom)) => args@.len() == 1 && rom@ == args@[0]@ && !asks_for_help(
                text::texts(args@),
            ),
            Err(message) => args@.len() > 1 && message@ == rom_expected(),
        },
{
    if args.len() == 0 {
        return Ok(None);
    }
    if args.len() == 1 {
        let arg = &args[0];
        assert(text::texts(args@)[0] == arg@);
        if text::same_text(arg.as_str(), "--help") || text::same_text(arg.as_str(), "-h") {
            return Ok(None);
        }
        return Ok(Some(arg.clone()));
    }
    let mut message = String::new();
    message.append("expected exactly one ROM path\n\n");
    message.append(USAGE);
    assert(message@ =~= rom_expected());
    Err(message)
}

/// The usage is asked for by no argument at all or by one of two words alone.
/// Any other single argument is the ROM, and several are refused.
pub proof fn a_single_other_word_is_the_rom(word: Seq<char>, more: Seq<Seq<char>>)
    ensures
        asks_for_help(Seq::empty()),
        asks_for_help(seq![word]) <==> word == "--help"@ || word == "-h"@,
        more.len() > 0 ==> !asks_for_help(seq![word] + more),
        rom_expected().skip(31) == USAGE@,
        rom_expected().take(31) == "expected exactly one ROM path\n\n"@,
{
    reveal_strlit("expected exactly one ROM path\n\n");
    assert(rom_expected().skip(31) =~= USAGE@);
    assert(rom_expected().take(31) =~= "expected exactly one ROM path\n\n"@);
}

} // verus!
