//! The command line of the renderer demo.
//!
//! Reading it alternates with work that lies outside of the library: an image
//! is loaded and a frame rate is read while the later arguments still wait.
//! So the arguments are taken one option at a time, and each step says what
//! the caller has to do before the next.

use vstd::prelude::*;

use crate::demo::parse_size;
use crate::pattern::{Pattern, FRAME_BYTES};
use crate::render::{ColorDepth, KittyStrategy, RenderMode, TermSize};
use crate::text;

verus! {

/// The options of the demo but for the frame rate and the image. A renderer
/// option that is not given is detected.
#[derive(Debug, Clone, Copy, PartialEq, Eq, Structural)]
pub struct DemoOpts {
    pub mode: Option<RenderMode>,
    pub strategy: Option<KittyStrategy>,
    pub depth: Option<ColorDepth>,
    pub compress: bool,
    pub pattern: Pattern,
    pub frames: Option<u64>,
    pub bench: bool,
    pub size: TermSize,
}

impl Default for DemoOpts {
    fn default() -> (r: Self)
        ensures
            r == (DemoOpts {
                mode: None,
                strategy: None,
                depth: None,
                compress: true,
                pattern: Pattern::Sprite,
                frames: None,
                bench: false,
                size: TermSize { cols: 160, rows: 50, px_width: 1600, px_height: 1000 },
            }),
    {
        DemoOpts {
            mode: None,
            strategy: None,
            depth: None,
            compress: true,
            pattern: Pattern::Sprite,
            frames: None,
            bench: false,
            size: TermSize { cols: 160, rows: 50, px_width: 1600, px_height: 1000 },
        }
    }
}

/// What an option leaves to be done.
#[derive(Debug)]
pub enum ArgStep {
    /// Nothing; the next option can be read.
    Next,
    /// The usage is to be shown, and that is all.
    Help,
    /// The image at this path is to be loaded.
    LoadImage(String),
    /// The frame rate is to be read from this text.
    ReadRate(String),
    /// There is no option left.
    Done,
}

/// The model of reading one option: what is left to be done, or why the
/// command line is refused.
pub ghost enum ArgEffect {
    Next,
    Help,
    LoadImage(Seq<char>),
    ReadRate(Seq<char>),
    Done,
    Refused(Seq<char>),
}

/// The effect that a step's result stands for.
pub open spec fn effect_of(r: Result<ArgStep, String>) -> ArgEffect {
    match r {
        Ok(ArgStep::Next) => ArgEffect::Next,
        Ok(ArgStep::Help) => ArgEffect::Help,
        Ok(ArgStep::LoadImage(path)) => ArgEffect::LoadImage(path@),
        Ok(ArgStep::ReadRate(rate)) => ArgEffect::ReadRate(rate@),
        Ok(ArgStep::Done) => ArgEffect::Done,
        Err(message) => ArgEffect::Refused(message@),
    }
}

/// Whether an option is followed by a value.
pub open spec fn takes_value(arg: Seq<char>) -> bool {
    arg == "--mode"@ || arg == "--strategy"@ || arg == "--color"@ || arg == "--pattern"@ || arg
        == "--ppm"@ || arg == "--fps"@ || arg == "--frames"@ || arg == "--size"@
}

/// The renderer that a value asks for; `Some(None)` leaves it to detection.
pub open spec fn mode_named(v: Seq<char>) -> Option<Option<RenderMode>> {
    if v == "auto"@ {
        Some(None)
    } else if v == "halfblock"@ || v == "half"@ {
        Some(Some(RenderMode::HalfBlock))
    } else if v == "kitty"@ {
        Some(Some(RenderMode::Kitty))
    } else {
        None
    }
}

/// The update strategy that a value asks for.
pub open spec fn strategy_named(v: Seq<char>) -> Option<Option<KittyStrategy>> {
    if v == "auto"@ {
        Some(None)
    } else if v == "edit"@ {
        Some(Some(KittyStrategy::FrameEdit))
    } else if v == "retransmit"@ {
        Some(Some(KittyStrategy::Retransmit))
    } else {
        None
    }
}

/// The color depth that a value asks for.
pub open spec fn depth_named(v: Seq<char>) -> Option<Option<ColorDepth>> {
    if v == "auto"@ {
        Some(None)
    } else if v == "truecolor"@ {
        Some(Some(ColorDepth::TrueColor))
    } else if v == "256"@ {
        Some(Some(ColorDepth::Ansi256))
    } else {
        None
    }
}

/// The synthetic pattern with the given name.
pub open spec fn pattern_named(v: Seq<char>) -> Option<Pattern> {
    if v == "bars"@ {
        Some(Pattern::Bars)
    } else if v == "checker"@ {
        Some(Pattern::Checker)
    } else if v == "gradient"@ {
        Some(Pattern::Gradient)
    } else if v == "sprite"@ {
        Some(Pattern::Sprite)
    } else if v == "noise"@ {
        Some(Pattern::Noise)
    } else {
        None
    }
}

/// The options after a flag without a value, and what it leaves to be done.
pub open spec fn after_flag(opts: DemoOpts, arg: Seq<char>) -> (DemoOpts, ArgEffect) {
    if arg == "-h"@ || arg == "--help"@ {
        (opts, ArgEffect::Help)
    } else if arg == "--no-compress"@ {
        (DemoOpts { compress: false, ..opts }, ArgEffect::Next)
    } else if arg == "--bench"@ {
        (DemoOpts { bench: true, ..opts }, ArgEffect::Next)
    } else {
        (opts, ArgEffect::Refused("unknown argument "@ + arg))
    }
}

/// The options after an option with a value, and what it leaves to be done.
pub open spec fn after_value(opts: DemoOpts, arg: Seq<char>, v: Seq<char>) -> (
    DemoOpts,
    ArgEffect,
) {
    if arg == "--mode"@ {
        match mode_named(v) {
            Some(mode) => (DemoOpts { mode, ..opts }, ArgEffect::Next),
            None => (opts, ArgEffect::Refused("unknown mode "@ + v)),
        }
    } else if arg == "--strategy"@ {
        match strategy_named(v) {
            Some(strategy) => (DemoOpts { strategy, ..opts }, ArgEffect::Next),
            None => (opts, ArgEffect::Refused("unknown strategy "@ + v)),
        }
    } else if arg == "--color"@ {
        match depth_named(v) {
            Some(depth) => (DemoOpts { depth, ..opts }, ArgEffect::Next),
            None => (opts, ArgEffect::Refused("unknown color depth "@ + v)),
        }
    } else if arg == "--pattern"@ {
        match pattern_named(v) {
            Some(pattern) => (DemoOpts { pattern, ..opts }, ArgEffect::Next),
            None => (opts, ArgEffect::Refused("unknown pattern "@ + v)),
        }
    } else if arg == "--ppm"@ {
        (opts, ArgEffect::LoadImage(v))
    } else if arg == "--fps"@ {
        (opts, ArgEffect::ReadRate(v))
    } else if arg == "--frames"@ {
        match text::unsigned(v, u64::MAX as nat) {
            Some(n) => (DemoOpts { frames: Some(n as u64), ..opts }, ArgEffect::Next),
            None => (opts, ArgEffect::Refused("bad --frames"@)),
        }
    } else {
        match crate::demo::size_of(v) {
            Some(size) => (DemoOpts { size, ..opts }, ArgEffect::Next),
            None => (
                opts,
                ArgEffect::Refused("bad --size, expected e.g. 160x50@1600x1000"@),
            ),
        }
    }
}

/// The options, the number of arguments used up and the effect after the
/// option at `pos`.
pub open spec fn after_arg(opts: DemoOpts, args: Seq<Seq<char>>, pos: int) -> (
    DemoOpts,
    int,
    ArgEffect,
) {
    if pos >= args.len() {
        (opts, pos, ArgEffect::Done)
    } else if !takes_value(args[pos]) {
        let (next, effect) = after_flag(opts, args[pos]);
        (next, pos + 1, effect)
    } else if pos + 1 >= args.len() {
        (opts, pos + 1, ArgEffect::Refused(args[pos] + " needs a value"@))
    } else {
        let (next, effect) = after_value(opts, args[pos], args[pos + 1]);
        (next, pos + 2, effect)
    }
}

// ---------------------------------------------------------------------------
// Operations
// ---------------------------------------------------------------------------

fn join(a: &str, b: &str) -> (r: String)
    ensures
        r@ == a@ + b@,
{
    let mut out = String::new();
    out.append(a);
    out.append(b);
    assert(out@ =~= a@ + b@);
    out
}

fn has_value(arg: &str) -> (r: bool)
    ensures
        r == takes_value(arg@),
{
    text::same_text(arg, "--mode") || text::same_text(arg, "--strategy") || text::same_text(
        arg,
        "--color",
    ) || text::same_text(arg, "--pattern") || text::same_text(arg, "--ppm") || text::same_text(
        arg,
        "--fps",
    ) || text::same_text(arg, "--frames") || text::same_text(arg, "--size")
}

fn mode_of(v: &str) -> (r: Option<Option<RenderMode>>)
    ensures
        r == mode_named(v@),
{
    if text::same_text(v, "auto") {
        Some(None)
    } else if text::same_text(v, "halfblock") || text::same_text(v, "half") {
        Some(Some(RenderMode::HalfBlock))
    } else if text::same_text(v, "kitty") {
        Some(Some(RenderMode::Kitty))
    } else {
        None
    }
}

fn strategy_of(v: &str) -> (r: Option<Option<KittyStrategy>>)
    ensures
        r == strategy_named(v@),
{
    if text::same_text(v, "auto") {
        Some(None)
    } else if text::same_text(v, "edit") {
        Some(Some(KittyStrategy::FrameEdit))
    } else if text::same_text(v, "retransmit") {
        Some(Some(KittyStrategy::Retransmit))
    } else {
        None
    }
}

fn depth_of(v: &str) -> (r: Option<Option<ColorDepth>>)
    ensures
        r == depth_named(v@),
{
    if text::same_text(v, "auto") {
        Some(None)
    } else if text::same_text(v, "truecolor") {
        Some(Some(ColorDepth::TrueColor))
    } else if text::same_text(v, "256") {
        Some(Some(ColorDepth::Ansi256))
    } else {
        None
    }
}

fn pattern_of(v: &str) -> (r: Option<Pattern>)
    ensures
        r == pattern_named(v@),
{
    if text::same_text(v, "bars") {
        Some(Pattern::Bars)
    } else if text::same_text(v, "checker") {
        Some(Pattern::Checker)
    } else if text::same_text(v, "gradient") {
        Some(Pattern::Gradient)
    } else if text::same_text(v, "sprite") {
        Some(Pattern::Sprite)
    } else if text::same_text(v, "noise") {
        Some(Pattern::Noise)
    } else {
        None
    }
}

/// Take a flag without a value.
fn take_flag(opts: &mut DemoOpts, arg: &str) -> (r: Result<ArgStep, String>)
    ensures
        (*final(opts), effect_of(r)) == after_flag(*old(opts), arg@),
{
    if text::same_text(arg, "-h") || text::same_text(arg, "--help") {
        Ok(ArgStep::Help)
    } else if text::same_text(arg, "--no-compress") {
        opts.compress = false;
        Ok(ArgStep::Next)
    } else if text::same_text(arg, "--bench") {
        opts.bench = true;
        Ok(ArgStep::Next)
    } else {
        Err(join("unknown argument ", arg))
    }
}

/// Take an option with its value.
fn take_value(opts: &mut DemoOpts, arg: &str, value: &str) -> (r: Result<ArgStep, String>)
    requires
        takes_value(arg@),
    ensures
        (*final(opts), effect_of(r)) == after_value(*old(opts), arg@, value@),
{
    if text::same_text(arg, "--mode") {
        match mode_of(value) {
            Some(mode) => {
                opts.mode = mode;
                Ok(ArgStep::Next)
            },
            None => Err(join("unknown mode ", value)),
        }
    } else if text::same_text(arg, "--strategy") {
        match strategy_of(value) {
            Some(strategy) => {
                opts.strategy = strategy;
                Ok(ArgStep::Next)
            },
            None => Err(join("unknown strategy ", value)),
        }
    } else if text::same_text(arg, "--color") {
        match depth_of(value) {
            Some(depth) => {
                opts.depth = depth;
                Ok(ArgStep::Next)
            },
            None => Err(join("unknown color depth ", value)),
        }
    } else if text::same_text(arg, "--pattern") {
        match pattern_of(value) {
            Some(pattern) => {
                opts.pattern = pattern;
                Ok(ArgStep::Next)
            },
            None => Err(join("unknown pattern ", value)),
        }
    } else if text::same_text(arg, "--ppm") {
        Ok(ArgStep::LoadImage(value.to_owned()))
    } else if text::same_text(arg, "--fps") {
        Ok(ArgStep::ReadRate(value.to_owned()))
    } else if text::same_text(arg, "--frames") {
        let chars = text::chars_of(value);
        match text::parse_unsigned(chars.as_slice(), u64::MAX) {
            Some(n) => {
                opts.frames = Some(n);
                Ok(ArgStep::Next)
            },
            None => Err("bad --frames".to_owned()),
        }
    } else {
        match parse_size(value) {
            Some(size) => {
                opts.size = size;
                Ok(ArgStep::Next)
            },
            None => Err("bad --size, expected e.g. 160x50@1600x1000".to_owned()),
        }
    }
}

/// A command line that is being read.
pub struct ArgReader {
    pub args: Vec<String>,
    pub pos: usize,
    pub opts: DemoOpts,
    pub image: Option<Vec<u8>>,
    pub rate_positive: bool,
}

impl ArgReader {
    /// The position lies on the command line, and an image holds one frame.
    pub open spec fn wf(&self) -> bool {
        &&& self.pos <= self.args@.len()
        &&& self.image matches Some(bytes) ==> bytes@.len() == FRAME_BYTES
    }

    /// Start reading a command line, given without the program's name.
    pub fn new(args: Vec<String>) -> (r: Self)
        ensures
            r.wf(),
            r.args == args,
            r.pos == 0,
            r.image is None,
            r.rate_positive,
            r.opts == (DemoOpts {
                mode: None,
                strategy: None,
                depth: None,
                compress: true,
                pattern: Pattern::Sprite,
                frames: None,
                bench: false,
                size: TermSize { cols: 160, rows: 50, px_width: 1600, px_height: 1000 },
            }),
    {
        ArgReader { args, pos: 0, opts: DemoOpts::default(), image: None, rate_positive: true }
    }

    /// Read one option.
    pub fn next_arg(&mut self) -> (r: Result<ArgStep, String>)
        requires
            old(self).wf(),
        ensures
            final(self).wf(),
            final(self).args == old(self).args,
            final(self).image == old(self).image,
            final(self).rate_positive == old(self).rate_positive,
            (final(self).opts, final(self).pos as int, effect_of(r)) == after_arg(
                old(self).opts,
                text::texts(old(self).args@),
                old(self).pos as int,
            ),
    {
        if self.pos >= self.args.len() {
            return Ok(ArgStep::Done);
        }
        let arg = self.args[self.pos].clone();
        assert(arg@ == text::texts(self.args@)[self.pos as int]);
        self.pos = self.pos + 1;
        if !has_value(arg.as_str()) {
            return take_flag(&mut self.opts, arg.as_str());
        }
        if self.pos >= self.args.len() {
            return Err(join(arg.as_str(), " needs a value"));
        }
        let value = self.args[self.pos].clone();
        assert(value@ == text::texts(self.args@)[self.pos as int]);
        self.pos = self.pos + 1;
        take_value(&mut self.opts, arg.as_str(), value.as_str())
    }

    /// Take the image that an option asked for, and show it.
    pub fn image_loaded(&mut self, image: Vec<u8>)
        requires
            old(self).wf(),
            image@.len() == FRAME_BYTES,
        ensures
            final(self).wf(),
            final(self).args == old(self).args,
            final(self).pos == old(self).pos,
            final(self).rate_positive == old(self).rate_positive,
            final(self).image == Some(image),
            final(self).opts == (DemoOpts { pattern: Pattern::Image, ..old(self).opts }),
    {
        self.image = Some(image);
        self.opts.pattern = Pattern::Image;
    }

    /// Take what became of a frame rate: `None` if it is no number, and
    /// otherwise whether it is anything but zero or less.
    pub fn rate_read(&mut self, rate: Option<bool>) -> (r: Result<(), String>)
        requires
            old(self).wf(),
        ensures
            final(self).wf(),
            final(self).args == old(self).args,
            final(self).pos == old(self).pos,
            final(self).image == old(self).image,
            final(self).opts == old(self).opts,
            match rate {
                Some(positive) => r is Ok && final(self).rate_positive == positive,
                None => final(self).rate_positive == old(self).rate_positive && (r matches Err(
                    message,
                ) && message@ == "bad --fps"@),
            },
    {
        match rate {
            Some(positive) => {
                self.rate_positive = positive;
                Ok(())
            },
            None => Err("bad --fps".to_owned()),
        }
    }

    /// Check the options as a whole, once all of them are read.
    pub fn finish(&self) -> (r: Result<(), String>)
        ensures
            r is Ok <==> self.rate_positive,
            r matches Err(message) ==> message@ == "--fps must be positive"@,
    {
        if !self.rate_positive {
            return Err("--fps must be positive".to_owned());
        }
        Ok(())
    }
}

/// Reading an option gets on: it uses up at least one argument, unless there
/// is none left.
pub proof fn reading_an_option_gets_on(opts: DemoOpts, args: Seq<Seq<char>>, pos: int)
    requires
        0 <= pos <= args.len(),
    ensures
        pos <= after_arg(opts, args, pos).1 <= args.len(),
        after_arg(opts, args, pos).1 == pos <==> after_arg(opts, args, pos).2 == ArgEffect::Done,
        after_arg(opts, args, pos).2 == ArgEffect::Done <==> pos == args.len(),
{
}

/// A refused option changes nothing.
pub proof fn a_refused_option_changes_nothing(opts: DemoOpts, args: Seq<Seq<char>>, pos: int)
    requires
        0 <= pos < args.len(),
        after_arg(opts, args, pos).2 is Refused,
    ensures
        after_arg(opts, args, pos).0 == opts,
{
}

/// The values that name a renderer, a strategy, a depth or a pattern; every
/// other value is refused.
pub proof fn only_these_values_are_known(v: Seq<char>)
    ensures
        mode_named(v) is Some <==> v == "auto"@ || v == "halfblock"@ || v == "half"@ || v
            == "kitty"@,
        strategy_named(v) is Some <==> v == "auto"@ || v == "edit"@ || v == "retransmit"@,
        depth_named(v) is Some <==> v == "auto"@ || v == "truecolor"@ || v == "256"@,
        pattern_named(v) is Some <==> v == "bars"@ || v == "checker"@ || v == "gradient"@ || v
            == "sprite"@ || v == "noise"@,
        mode_named(v) == Some(None::<RenderMode>) <==> v == "auto"@,
        strategy_named(v) == Some(None::<KittyStrategy>) <==> v == "auto"@,
        depth_named(v) == Some(None::<ColorDepth>) <==> v == "auto"@,
        mode_named(v) == Some(Some(RenderMode::Kitty)) <==> v == "kitty"@,
        strategy_named(v) == Some(Some(KittyStrategy::FrameEdit)) <==> v == "edit"@,
        depth_named(v) == Some(Some(ColorDepth::TrueColor)) <==> v == "truecolor"@,
{
    lemma_values_differ();
}

proof fn lemma_values_differ()
    ensures
        "auto"@ != "halfblock"@ && "auto"@ != "half"@ && "auto"@ != "kitty"@ && "kitty"@
            != "halfblock"@ && "kitty"@ != "half"@,
        "auto"@ != "edit"@ && "auto"@ != "retransmit"@ && "edit"@ != "retransmit"@,
        "auto"@ != "truecolor"@ && "auto"@ != "256"@ && "truecolor"@ != "256"@,
{
    reveal_strlit("auto");
    reveal_strlit("halfblock");
    reveal_strlit("half");
    reveal_strlit("kitty");
    reveal_strlit("edit");
    reveal_strlit("retransmit");
    reveal_strlit("truecolor");
    reveal_strlit("256");
    assert("auto"@[0] == 'a' && "half"@[0] == 'h' && "edit"@[0] == 'e' && "kitty"@[0] == 'k');
    assert("halfblock"@[0] == 'h' && "retransmit"@[0] == 'r' && "truecolor"@[0] == 't' && "256"@[0]
        == '2');
}

proof fn lemma_options_differ()
    ensures
        "--mode"@[2] == 'm' && "--color"@[2] == 'c' && "--size"@[3] == 'i',
        "--strategy"@[2] == 's' && "--strategy"@[3] == 't' && "--size"@[2] == 's',
        "--pattern"@[2] == 'p' && "--pattern"@[3] == 'a' && "--ppm"@[2] == 'p' && "--ppm"@[3]
            == 'p',
        "--fps"@[2] == 'f' && "--fps"@[3] == 'p' && "--frames"@[2] == 'f' && "--frames"@[3] == 'r',
{
    reveal_strlit("--mode");
    reveal_strlit("--strategy");
    reveal_strlit("--color");
    reveal_strlit("--pattern");
    reveal_strlit("--ppm");
    reveal_strlit("--fps");
    reveal_strlit("--frames");
    reveal_strlit("--size");
}

/// An option with a value sets the setting of its name to what the value says
/// and no other, or leaves all of them as they are and says why.
pub proof fn an_option_sets_its_own_setting(opts: DemoOpts, v: Seq<char>)
    ensures
        ({
            let refused = |message: Seq<char>| (opts, ArgEffect::Refused(message));
            &&& after_value(opts, "--mode"@, v) == (match mode_named(v) {
                Some(mode) => (DemoOpts { mode, ..opts }, ArgEffect::Next),
                None => refused("unknown mode "@ + v),
            })
            &&& after_value(opts, "--strategy"@, v) == (match strategy_named(v) {
                Some(strategy) => (DemoOpts { strategy, ..opts }, ArgEffect::Next),
                None => refused("unknown strategy "@ + v),
            })
            &&& after_value(opts, "--color"@, v) == (match depth_named(v) {
                Some(depth) => (DemoOpts { depth, ..opts }, ArgEffect::Next),
                None => refused("unknown color depth "@ + v),
            })
            &&& after_value(opts, "--pattern"@, v) == (match pattern_named(v) {
                Some(pattern) => (DemoOpts { pattern, ..opts }, ArgEffect::Next),
                None => refused("unknown pattern "@ + v),
            })
            &&& after_value(opts, "--ppm"@, v) == (opts, ArgEffect::LoadImage(v))
            &&& after_value(opts, "--fps"@, v) == (opts, ArgEffect::ReadRate(v))
            &&& after_value(opts, "--frames"@, v) == (match text::unsigned(
                v,
                0xffff_ffff_ffff_ffff,
            ) {
                Some(n) => (DemoOpts { frames: Some(n as u64), ..opts }, ArgEffect::Next),
                None => refused("bad --frames"@),
            })
            &&& after_value(opts, "--size"@, v) == (match crate::demo::size_of(v) {
                Some(size) => (DemoOpts { size, ..opts }, ArgEffect::Next),
                None => refused("bad --size, expected e.g. 160x50@1600x1000"@),
            })
        }),
{
    lemma_options_differ();
}

/// Two flags set something, two ask for the usage, eight options take a value,
/// and every other argument is refused by its name.
pub proof fn no_other_argument_is_known(opts: DemoOpts, arg: Seq<char>)
    ensures
        takes_value(arg) <==> arg == "--mode"@ || arg == "--strategy"@ || arg == "--color"@ || arg
            == "--pattern"@ || arg == "--ppm"@ || arg == "--fps"@ || arg == "--frames"@ || arg
            == "--size"@,
        after_flag(opts, arg) == (if arg == "-h"@ || arg == "--help"@ {
            (opts, ArgEffect::Help)
        } else if arg == "--no-compress"@ {
            (DemoOpts { compress: false, ..opts }, ArgEffect::Next)
        } else if arg == "--bench"@ {
            (DemoOpts { bench: true, ..opts }, ArgEffect::Next)
        } else {
            (opts, ArgEffect::Refused("unknown argument "@ + arg))
        }),
{
}

/// An option is read together with its value, the argument after it; without
/// one it is refused. Reading goes on behind what was read.
pub proof fn an_option_is_read_with_its_value(opts: DemoOpts, args: Seq<Seq<char>>, pos: int)
    requires
        0 <= pos < args.len(),
    ensures
        !takes_value(args[pos]) ==> after_arg(opts, args, pos) == (
            after_flag(opts, args[pos]).0,
            pos + 1,
            after_flag(opts, args[pos]).1,
        ),
        takes_value(args[pos]) && pos + 1 < args.len() ==> after_arg(opts, args, pos) == (
            after_value(opts, args[pos], args[pos + 1]).0,
            pos + 2,
            after_value(opts, args[pos], args[pos + 1]).1,
        ),
        takes_value(args[pos]) && pos + 1 == args.len() ==> after_arg(opts, args, pos) == (
            opts,
            pos + 1,
            ArgEffect::Refused(args[pos] + " needs a value"@),
        ),
{
}

/// An effect is what the result of a step says, with its text whole.
pub proof fn an_effect_is_what_the_step_says(text: String)
    ensures
        effect_of(Ok(ArgStep::Next)) == ArgEffect::Next,
        effect_of(Ok(ArgStep::Help)) == ArgEffect::Help,
        effect_of(Ok(ArgStep::Done)) == ArgEffect::Done,
        effect_of(Ok(ArgStep::LoadImage(text))) == ArgEffect::LoadImage(text@),
        effect_of(Ok(ArgStep::ReadRate(text))) == ArgEffect::ReadRate(text@),
        effect_of(Err(text)) == ArgEffect::Refused(text@),
{
}

} // verus!
