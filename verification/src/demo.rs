//! The decisions of the renderer demo: its options, its configurations, and
//! what its keys do.

use vstd::prelude::*;
use vstd::slice::slice_subrange;

use crate::demo_args::DemoOpts;
use crate::input::{KeyCode, KeyEvent, KeyEventKind};
use crate::pattern::Pattern;
use crate::render::{ColorDepth, KittyStrategy, RenderMode, TermSize};
use crate::text;

verus! {

// ---------------------------------------------------------------------------
// Terminal sizes
// ---------------------------------------------------------------------------

/// Two 16-bit numbers with an `x` between them.
pub open spec fn pair_of(s: Seq<char>) -> Option<(nat, nat)> {
    let k = text::index_of(s, 'x') as int;
    if k >= s.len() {
        None
    } else {
        match (
            text::unsigned(s.take(k), u16::MAX as nat),
            text::unsigned(s.skip(k + 1), u16::MAX as nat),
        ) {
            (Some(a), Some(b)) => Some((a, b)),
            _ => None,
        }
    }
}

/// A terminal size: cells, and after an `@` pixels, which are zero by default.
pub open spec fn size_of(s: Seq<char>) -> Option<TermSize> {
    let k = text::index_of(s, '@') as int;
    match pair_of(s.take(k)) {
        None => None,
        Some((cols, rows)) => {
            if k >= s.len() {
                Some(
                    TermSize { cols: cols as u16, rows: rows as u16, px_width: 0, px_height: 0 },
                )
            } else {
                match pair_of(s.skip(k + 1)) {
                    None => None,
                    Some((w, h)) => Some(
                        TermSize {
                            cols: cols as u16,
                            rows: rows as u16,
                            px_width: w as u16,
                            px_height: h as u16,
                        },
                    ),
                }
            }
        },
    }
}

fn parse_pair(chars: &[char]) -> (r: Option<(u16, u16)>)
    ensures
        match r {
            Some((a, b)) => pair_of(chars@) == Some((a as nat, b as nat)),
            None => pair_of(chars@) is None,
        },
{
    assert(chars@.skip(0) =~= chars@);
    let k = text::find_char(chars, 0, 'x');
    if k == chars.len() {
        return None;
    }
    let left = slice_subrange(chars, 0, k);
    let right = slice_subrange(chars, k + 1, chars.len());
    assert(left@ =~= chars@.take(k as int));
    assert(right@ =~= chars@.skip(k + 1));
    match (
        text::parse_unsigned(left, u16::MAX as u64),
        text::parse_unsigned(right, u16::MAX as u64),
    ) {
        (Some(a), Some(b)) => Some((a as u16, b as u16)),
        _ => None,
    }
}

/// Read a terminal size such as `160x50@1600x1000`.
pub fn parse_size(s: &str) -> (r: Option<TermSize>)
    ensures
        r == size_of(s@),
{
    let chars = text::chars_of(s);
    assert(chars@.skip(0) =~= chars@);
    let k = text::find_char(chars.as_slice(), 0, '@');
    let cells = slice_subrange(chars.as_slice(), 0, k);
    assert(cells@ =~= chars@.take(k as int));
    match parse_pair(cells) {
        None => None,
        Some((cols, rows)) => {
            if k == chars.len() {
                return Some(TermSize { cols, rows, px_width: 0, px_height: 0 });
            }
            let pixels = slice_subrange(chars.as_slice(), k + 1, chars.len());
            assert(pixels@ =~= chars@.skip(k + 1));
            match parse_pair(pixels) {
                None => None,
                Some((px_width, px_height)) => Some(TermSize { cols, rows, px_width, px_height }),
            }
        },
    }
}

/// A pair of numbers as it is written in a size.
pub open spec fn pair_text(a: nat, b: nat) -> Seq<char> {
    text::decimal(a) + seq!['x'] + text::decimal(b)
}

proof fn lemma_pair(a: u16, b: u16)
    ensures
        pair_of(pair_text(a as nat, b as nat)) == Some((a as nat, b as nat)),
        forall|i: int|
            0 <= i < pair_text(a as nat, b as nat).len() ==> #[trigger] pair_text(
                a as nat,
                b as nat,
            )[i] != '@',
{
    let s = pair_text(a as nat, b as nat);
    text::lemma_decimal(a as nat);
    text::lemma_decimal(b as nat);
    text::decimal_reads_back(a as nat, u16::MAX as nat);
    text::decimal_reads_back(b as nat, u16::MAX as nat);
    lemma_first(text::decimal(a as nat), 'x', text::decimal(b as nat));
    assert(s.take(text::decimal(a as nat).len() as int) =~= text::decimal(a as nat));
    assert(s.skip(text::decimal(a as nat).len() as int + 1) =~= text::decimal(b as nat));
}

proof fn lemma_first(a: Seq<char>, c: char, b: Seq<char>)
    requires
        forall|i: int| 0 <= i < a.len() ==> #[trigger] a[i] != c,
    ensures
        text::index_of(a + seq![c] + b, c) == a.len(),
{
    let s = a + seq![c] + b;
    text::lemma_index_of(s, c);
    assert(s[a.len() as int] == c);
    if text::index_of(s, c) < a.len() {
        assert(a[text::index_of(s, c) as int] == c);
    }
}

/// Every terminal size reads back from its full notation.
pub proof fn a_size_reads_back(size: TermSize)
    ensures
        size_of(
            pair_text(size.cols as nat, size.rows as nat) + seq!['@'] + pair_text(
                size.px_width as nat,
                size.px_height as nat,
            ),
        ) == Some(size),
{
    let cells = pair_text(size.cols as nat, size.rows as nat);
    let pixels = pair_text(size.px_width as nat, size.px_height as nat);
    let s = cells + seq!['@'] + pixels;
    lemma_pair(size.cols, size.rows);
    lemma_pair(size.px_width, size.px_height);
    lemma_first(cells, '@', pixels);
    assert(s.take(cells.len() as int) =~= cells);
    assert(s.skip(cells.len() as int + 1) =~= pixels);
}

/// A size without pixels reads back with the pixels unknown.
pub proof fn a_size_in_cells_reads_back(cols: u16, rows: u16)
    ensures
        size_of(pair_text(cols as nat, rows as nat)) == Some(
            (TermSize { cols, rows, px_width: 0, px_height: 0 }),
        ),
{
    let cells = pair_text(cols as nat, rows as nat);
    lemma_pair(cols, rows);
    text::lemma_index_of(cells, '@');
    assert(cells.take(cells.len() as int) =~= cells);
}

// ---------------------------------------------------------------------------
// Configurations
// ---------------------------------------------------------------------------

/// A renderer with its settings.
#[derive(Debug, Clone, Copy, PartialEq, Eq, Structural)]
pub struct Config {
    pub mode: RenderMode,
    pub strategy: KittyStrategy,
    pub depth: ColorDepth,
    pub compress: bool,
}

impl Config {
    /// The text that names a configuration, made of the settings that matter
    /// to its renderer.
    pub open spec fn label_text(self) -> Seq<char> {
        match self.mode {
            RenderMode::HalfBlock => match self.depth {
                ColorDepth::TrueColor => "halfblock truecolor"@,
                ColorDepth::Ansi256 => "halfblock 256"@,
            },
            RenderMode::Kitty => "kitty "@ + (match self.strategy {
                KittyStrategy::FrameEdit => "edit"@,
                KittyStrategy::Retransmit => "retransmit"@,
            }) + (if self.compress {
                " zlib"@
            } else {
                " raw"@
            }),
        }
    }

    /// The name of this configuration.
    pub fn label(&self) -> (r: String)
        ensures
            r@ == self.label_text(),
    {
        let mut out = String::new();
        match self.mode {
            RenderMode::HalfBlock => match self.depth {
                ColorDepth::TrueColor => out.append("halfblock truecolor"),
                ColorDepth::Ansi256 => out.append("halfblock 256"),
            },
            RenderMode::Kitty => {
                out.append("kitty ");
                out.append(
                    match self.strategy {
                        KittyStrategy::FrameEdit => "edit",
                        KittyStrategy::Retransmit => "retransmit",
                    },
                );
                out.append(
                    if self.compress {
                        " zlib"
                    } else {
                        " raw"
                    },
                );
            },
        }
        assert(out@ =~= self.label_text());
        out
    }

    /// The configuration that the options ask for, with what was detected in
    /// place of what they leave open.
    pub fn resolve(
        opts: &DemoOpts,
        mode: RenderMode,
        strategy: KittyStrategy,
        depth: ColorDepth,
    ) -> (r: Self)
        ensures
            r.mode == (match opts.mode {
                Some(m) => m,
                None => mode,
            }),
            r.strategy == (match opts.strategy {
                Some(s) => s,
                None => strategy,
            }),
            r.depth == (match opts.depth {
                Some(d) => d,
                None => depth,
            }),
            r.compress == opts.compress,
    {
        Config {
            mode: match opts.mode {
                Some(m) => m,
                None => mode,
            },
            strategy: match opts.strategy {
                Some(s) => s,
                None => strategy,
            },
            depth: match opts.depth {
                Some(d) => d,
                None => depth,
            },
            compress: opts.compress,
        }
    }
}

/// The configurations that the benchmark goes through.
pub open spec fn benchmark() -> Seq<Config> {
    seq![
        Config {
            mode: RenderMode::HalfBlock,
            strategy: KittyStrategy::FrameEdit,
            depth: ColorDepth::TrueColor,
            compress: false,
        },
        Config {
            mode: RenderMode::HalfBlock,
            strategy: KittyStrategy::FrameEdit,
            depth: ColorDepth::Ansi256,
            compress: false,
        },
        Config {
            mode: RenderMode::Kitty,
            strategy: KittyStrategy::FrameEdit,
            depth: ColorDepth::TrueColor,
            compress: true,
        },
        Config {
            mode: RenderMode::Kitty,
            strategy: KittyStrategy::Retransmit,
            depth: ColorDepth::TrueColor,
            compress: true,
        },
        Config {
            mode: RenderMode::Kitty,
            strategy: KittyStrategy::Retransmit,
            depth: ColorDepth::TrueColor,
            compress: false,
        },
    ]
}

/// The configurations that the benchmark goes through.
pub fn bench_configs() -> (r: Vec<Config>)
    ensures
        r@ == benchmark(),
{
    let r = vec![
        Config {
            mode: RenderMode::HalfBlock,
            strategy: KittyStrategy::FrameEdit,
            depth: ColorDepth::TrueColor,
            compress: false,
        },
        Config {
            mode: RenderMode::HalfBlock,
            strategy: KittyStrategy::FrameEdit,
            depth: ColorDepth::Ansi256,
            compress: false,
        },
        Config {
            mode: RenderMode::Kitty,
            strategy: KittyStrategy::FrameEdit,
            depth: ColorDepth::TrueColor,
            compress: true,
        },
        Config {
            mode: RenderMode::Kitty,
            strategy: KittyStrategy::Retransmit,
            depth: ColorDepth::TrueColor,
            compress: true,
        },
        Config {
            mode: RenderMode::Kitty,
            strategy: KittyStrategy::Retransmit,
            depth: ColorDepth::TrueColor,
            compress: false,
        },
    ];
    assert(r@ =~= benchmark());
    r
}

/// The synthetic patterns, in the order of their keys.
pub open spec fn synthetic() -> Seq<Pattern> {
    seq![
        Pattern::Bars,
        Pattern::Checker,
        Pattern::Gradient,
        Pattern::Sprite,
        Pattern::Noise,
    ]
}

/// The patterns that the benchmark goes through: the synthetic ones, and the
/// image if there is one.
pub open spec fn benchmark_patterns(has_image: bool) -> Seq<Pattern> {
    if has_image {
        synthetic().push(Pattern::Image)
    } else {
        synthetic()
    }
}

/// The patterns that the benchmark goes through.
pub fn bench_patterns(has_image: bool) -> (r: Vec<Pattern>)
    ensures
        r@ == benchmark_patterns(has_image),
{
    let mut r = vec![
        Pattern::Bars,
        Pattern::Checker,
        Pattern::Gradient,
        Pattern::Sprite,
        Pattern::Noise,
    ];
    assert(r@ =~= synthetic());
    if has_image {
        r.push(Pattern::Image);
    }
    r
}

/// The runs of the benchmark, one for each configuration with each pattern,
/// configuration by configuration.
pub fn bench_runs(has_image: bool) -> (r: Vec<(Config, Pattern)>)
    ensures
        r@.len() == benchmark().len() * benchmark_patterns(has_image).len(),
        forall|i: int|
            0 <= i < r@.len() ==> #[trigger] r@[i] == (
                benchmark()[i / benchmark_patterns(has_image).len() as int],
                benchmark_patterns(has_image)[i % benchmark_patterns(has_image).len() as int],
            ),
{
    let configs = bench_configs();
    let patterns = bench_patterns(has_image);
    let ghost n = patterns@.len() as int;
    let mut runs: Vec<(Config, Pattern)> = Vec::new();
    let mut c: usize = 0;
    while c < configs.len()
        invariant
            c <= configs@.len(),
            configs@ == benchmark(),
            patterns@ == benchmark_patterns(has_image),
            n == patterns@.len(),
            5 <= n <= 6,
            runs@.len() == c * n,
            forall|i: int|
                0 <= i < runs@.len() ==> #[trigger] runs@[i] == (
                    benchmark()[i / n],
                    benchmark_patterns(has_image)[i % n],
                ),
        decreases configs@.len() - c,
    {
        let mut p: usize = 0;
        while p < patterns.len()
            invariant
                c < configs@.len(),
                p <= patterns@.len(),
                configs@ == benchmark(),
                patterns@ == benchmark_patterns(has_image),
                n == patterns@.len(),
                5 <= n <= 6,
                runs@.len() == c * n + p,
                forall|i: int|
                    0 <= i < runs@.len() ==> #[trigger] runs@[i] == (
                        benchmark()[i / n],
                        benchmark_patterns(has_image)[i % n],
                    ),
            decreases patterns@.len() - p,
        {
            proof {
                vstd::arithmetic::div_mod::lemma_fundamental_div_mod_converse(
                    c * n + p,
                    n,
                    c as int,
                    p as int,
                );
            }
            runs.push((configs[c], patterns[p]));
            p = p + 1;
        }
        assert((c + 1) * n == c * n + n) by (nonlinear_arith);
        c = c + 1;
    }
    runs
}

/// The number of frames of one benchmark run.
pub fn bench_frames(opts: &DemoOpts) -> (r: u64)
    ensures
        r == (match opts.frames {
            Some(n) => n,
            None => 300,
        }),
{
    match opts.frames {
        Some(n) => n,
        None => 300,
    }
}

/// The name of a pattern in the benchmark's table.
pub open spec fn pattern_text(pattern: Pattern) -> Seq<char> {
    match pattern {
        Pattern::Bars => "bars"@,
        Pattern::Checker => "checker"@,
        Pattern::Gradient => "gradient"@,
        Pattern::Sprite => "sprite"@,
        Pattern::Noise => "noise"@,
        Pattern::Image => "image"@,
    }
}

/// The name of a pattern.
pub fn pattern_name(pattern: Pattern) -> (r: &'static str)
    ensures
        r@ == pattern_text(pattern),
{
    match pattern {
        Pattern::Bars => "bars",
        Pattern::Checker => "checker",
        Pattern::Gradient => "gradient",
        Pattern::Sprite => "sprite",
        Pattern::Noise => "noise",
        Pattern::Image => "image",
    }
}

/// Every synthetic pattern is the one that its name asks for on the command
/// line.
pub proof fn a_pattern_is_found_by_its_name(pattern: Pattern)
    requires
        pattern != Pattern::Image,
    ensures
        crate::demo_args::pattern_named(pattern_text(pattern)) == Some(pattern),
{
    reveal_strlit("bars");
    reveal_strlit("checker");
    reveal_strlit("gradient");
    reveal_strlit("sprite");
    reveal_strlit("noise");
    assert("bars"@[0] == 'b' && "checker"@[0] == 'c' && "gradient"@[0] == 'g' && "sprite"@[0]
        == 's' && "noise"@[0] == 'n');
}

// ---------------------------------------------------------------------------
// Statistics
// ---------------------------------------------------------------------------

/// What drawing has cost so far, with times in nanoseconds.
#[derive(Debug, Clone, Copy, PartialEq, Eq, Structural)]
pub struct Stats {
    pub frames: u64,
    pub draw: u128,
    pub max_draw: u128,
    pub bytes: u64,
}

impl Default for Stats {
    fn default() -> (r: Self)
        ensures
            r == (Stats { frames: 0, draw: 0, max_draw: 0, bytes: 0 }),
    {
        Stats { frames: 0, draw: 0, max_draw: 0, bytes: 0 }
    }
}

impl Stats {
    /// No frame took longer than the longest, and the longest is part of the
    /// whole.
    pub open spec fn wf(&self) -> bool {
        &&& self.max_draw <= self.draw
        &&& self.draw <= self.frames * self.max_draw
    }

    /// Add a frame that took `nanos` to draw.
    pub fn record(&mut self, nanos: u128)
        requires
            old(self).frames < u64::MAX,
            old(self).draw + nanos <= u128::MAX,
        ensures
            *final(self) == (Stats {
                frames: (old(self).frames + 1) as u64,
                draw: (old(self).draw + nanos) as u128,
                max_draw: if nanos > old(self).max_draw {
                    nanos
                } else {
                    old(self).max_draw
                },
                bytes: old(self).bytes,
            }),
            old(self).wf() ==> final(self).wf(),
    {
        proof {
            let (f, m, d) = (self.frames as int, self.max_draw as int, self.draw as int);
            let n = nanos as int;
            let top = if n > m {
                n
            } else {
                m
            };
            assert(d <= f * m ==> d + n <= (f + 1) * top) by (nonlinear_arith)
                requires
                    0 <= f,
                    0 <= m <= top,
                    n <= top,
            ;
        }
        self.frames = self.frames + 1;
        self.draw = self.draw + nanos;
        if nanos > self.max_draw {
            self.max_draw = nanos;
        }
    }
}

// ---------------------------------------------------------------------------
// The interactive session
// ---------------------------------------------------------------------------

/// The state of the interactive demo.
#[derive(Debug, Clone, Copy, PartialEq, Eq, Structural)]
pub struct Session {
    pub cfg: Config,
    pub pattern: Pattern,
    /// The number of frames drawn so far.
    pub t: u64,
    /// After how many frames the demo ends by itself.
    pub limit: Option<u64>,
    /// Whether there is an image to show.
    pub has_image: bool,
    /// The demo is to end.
    pub quit: bool,
    /// The renderer is to be built anew.
    pub rebuild: bool,
}

/// The other renderer.
pub open spec fn other_mode(mode: RenderMode) -> RenderMode {
    match mode {
        RenderMode::HalfBlock => RenderMode::Kitty,
        RenderMode::Kitty => RenderMode::HalfBlock,
    }
}

/// The other update strategy.
pub open spec fn other_strategy(strategy: KittyStrategy) -> KittyStrategy {
    match strategy {
        KittyStrategy::FrameEdit => KittyStrategy::Retransmit,
        KittyStrategy::Retransmit => KittyStrategy::FrameEdit,
    }
}

/// What a pressed key makes of the session.
pub open spec fn after_key(s: Session, code: KeyCode, control: bool) -> Session {
    match code {
        KeyCode::Esc => Session { quit: true, ..s },
        KeyCode::Char(c) => if c == 'q' {
            Session { quit: true, ..s }
        } else if c == 'c' && control {
            Session { quit: true, ..s }
        } else if '1' <= c <= '5' {
            Session { pattern: synthetic()[c as int - '1' as int], ..s }
        } else if c == '6' && s.has_image {
            Session { pattern: Pattern::Image, ..s }
        } else if c == 'm' {
            Session { cfg: Config { mode: other_mode(s.cfg.mode), ..s.cfg }, rebuild: true, ..s }
        } else if c == 's' {
            Session {
                cfg: Config { strategy: other_strategy(s.cfg.strategy), ..s.cfg },
                rebuild: s.rebuild || s.cfg.mode == RenderMode::Kitty,
                ..s
            }
        } else if c == 'z' {
            Session {
                cfg: Config { compress: !s.cfg.compress, ..s.cfg },
                rebuild: s.rebuild || s.cfg.mode == RenderMode::Kitty,
                ..s
            }
        } else {
            s
        },
        _ => s,
    }
}

impl Session {
    /// A session before its first frame. With a limit of no frames it is over
    /// at once.
    pub fn new(cfg: Config, pattern: Pattern, limit: Option<u64>, has_image: bool) -> (r: Self)
        ensures
            r == (Session {
                cfg,
                pattern,
                t: 0,
                limit,
                has_image,
                quit: limit == Some(0u64),
                rebuild: false,
            }),
    {
        let over = match limit {
            Some(n) => n == 0,
            None => false,
        };
        Session { cfg, pattern, t: 0, limit, has_image, quit: over, rebuild: false }
    }

    /// Start a run with a freshly built renderer.
    pub fn start_run(&mut self)
        ensures
            *final(self) == (Session { rebuild: false, ..*old(self) }),
    {
        self.rebuild = false;
    }

    /// Whether the run goes on with the renderer it has.
    pub fn running(&self) -> (r: bool)
        ensures
            r == (!self.rebuild && !self.quit),
    {
        !self.rebuild && !self.quit
    }

    /// Count a drawn frame. At the limit the demo ends at once, and the result
    /// is that no keys are to be read any more.
    pub fn frame_drawn(&mut self) -> (r: bool)
        requires
            old(self).t < u64::MAX,
        ensures
            ({
                let t = (old(self).t + 1) as u64;
                let ended = old(self).limit matches Some(n) && t >= n;
                &&& r == ended
                &&& *final(self) == (Session { t, quit: old(self).quit || ended, ..*old(self) })
            }),
    {
        self.t = self.t + 1;
        if let Some(n) = self.limit {
            if self.t >= n {
                self.quit = true;
                return true;
            }
        }
        false
    }

    /// React to a key event; releases are ignored.
    pub fn on_key(&mut self, event: KeyEvent)
        ensures
            *final(self) == (if event.kind == KeyEventKind::Release {
                *old(self)
            } else {
                after_key(*old(self), event.code, event.modifiers.control)
            }),
    {
        if event.kind == KeyEventKind::Release {
            return;
        }
        match event.code {
            KeyCode::Char('q') | KeyCode::Esc => {
                self.quit = true;
            },
            KeyCode::Char('c') => {
                if event.modifiers.control {
                    self.quit = true;
                }
            },
            KeyCode::Char('1') => {
                self.pattern = Pattern::Bars;
            },
            KeyCode::Char('2') => {
                self.pattern = Pattern::Checker;
            },
            KeyCode::Char('3') => {
                self.pattern = Pattern::Gradient;
            },
            KeyCode::Char('4') => {
                self.pattern = Pattern::Sprite;
            },
            KeyCode::Char('5') => {
                self.pattern = Pattern::Noise;
            },
            KeyCode::Char('6') => {
                if self.has_image {
                    self.pattern = Pattern::Image;
                }
            },
            KeyCode::Char('m') => {
                self.cfg.mode = match self.cfg.mode {
                    RenderMode::HalfBlock => RenderMode::Kitty,
                    RenderMode::Kitty => RenderMode::HalfBlock,
                };
                self.rebuild = true;
            },
            KeyCode::Char('s') => {
                self.cfg.strategy = match self.cfg.strategy {
                    KittyStrategy::FrameEdit => KittyStrategy::Retransmit,
                    KittyStrategy::Retransmit => KittyStrategy::FrameEdit,
                };
                self.rebuild = self.rebuild || self.cfg.mode == RenderMode::Kitty;
            },
            KeyCode::Char('z') => {
                self.cfg.compress = !self.cfg.compress;
                self.rebuild = self.rebuild || self.cfg.mode == RenderMode::Kitty;
            },
            _ => {},
        }
    }
}

/// When the next frame is due: one interval after the last one, but not
/// before now. Times are nanoseconds of a monotonic clock.
pub fn next_due(due: u128, interval: u128, now: u128) -> (r: u128)
    requires
        due + interval <= u128::MAX,
    ensures
        r == (if due + interval < now {
            now as int
        } else {
            due + interval
        }),
{
    let next: u128 = due + interval;
    if next < now {
        now
    } else {
        next
    }
}

/// How long there is to wait for keys until the next frame is due.
pub fn time_left(due: u128, now: u128) -> (r: u128)
    ensures
        r == (if due > now {
            due - now
        } else {
            0
        }),
{
    if due > now {
        due - now
    } else {
        0
    }
}

// ---------------------------------------------------------------------------
// Laws of the session
// ---------------------------------------------------------------------------

/// Pressing a toggle twice restores the configuration, and a toggle leaves
/// everything but the configuration and the rebuilding alone.
pub proof fn toggles_undo_themselves(s: Session, c: char, control: bool)
    requires
        c == 'm' || c == 's' || c == 'z',
    ensures
        ({
            let once = after_key(s, KeyCode::Char(c), control);
            let twice = after_key(once, KeyCode::Char(c), control);
            &&& once.cfg != s.cfg
            &&& twice.cfg == s.cfg
            &&& once == (Session { cfg: once.cfg, rebuild: once.rebuild, ..s })
        }),
{
}

/// After a change of the renderer a new one is called for. A change of a Kitty
/// setting calls for one exactly if Kitty is the chosen renderer.
pub proof fn only_visible_changes_rebuild(s: Session, control: bool)
    requires
        !s.rebuild,
    ensures
        after_key(s, KeyCode::Char('m'), control).rebuild,
        after_key(s, KeyCode::Char('s'), control).rebuild <==> s.cfg.mode == RenderMode::Kitty,
        after_key(s, KeyCode::Char('z'), control).rebuild <==> s.cfg.mode == RenderMode::Kitty,
{
}

/// No key takes back that a new renderer is called for.
pub proof fn a_pending_rebuild_stays(s: Session, code: KeyCode, control: bool)
    requires
        s.rebuild,
    ensures
        after_key(s, code, control).rebuild,
{
}

/// What pressed keys make of the session, one after the other; each is given
/// with whether Control was held.
pub open spec fn after_keys(s: Session, keys: Seq<(KeyCode, bool)>) -> Session
    decreases keys.len(),
{
    if keys.len() == 0 {
        s
    } else {
        after_key(after_keys(s, keys.drop_last()), keys.last().0, keys.last().1)
    }
}

/// While no new renderer is called for, the one in use is the one that the
/// configuration names, whatever keys were pressed since it was built.
pub proof fn the_renderer_in_use_is_the_chosen_one(s: Session, keys: Seq<(KeyCode, bool)>)
    requires
        !s.rebuild,
    ensures
        !after_keys(s, keys).rebuild ==> {
            let cfg = after_keys(s, keys).cfg;
            &&& cfg.mode == s.cfg.mode
            &&& cfg.depth == s.cfg.depth
            &&& cfg.mode == RenderMode::Kitty ==> cfg == s.cfg
            &&& cfg.label_text() == s.cfg.label_text()
        },
    decreases keys.len(),
{
    if keys.len() > 0 {
        the_renderer_in_use_is_the_chosen_one(s, keys.drop_last());
    }
}

/// The image can only be chosen if there is one.
pub proof fn no_key_shows_a_missing_image(s: Session, code: KeyCode, control: bool)
    requires
        s.pattern == Pattern::Image ==> s.has_image,
    ensures
        after_key(s, code, control).pattern == Pattern::Image ==> s.has_image,
        after_key(s, code, control).has_image == s.has_image,
{
    assert(forall|i: int| 0 <= i < 5 ==> #[trigger] synthetic()[i] != Pattern::Image);
}

/// Once the demo is to end, no key takes that back.
pub proof fn quitting_is_final(s: Session, code: KeyCode, control: bool)
    requires
        s.quit,
    ensures
        after_key(s, code, control).quit,
{
}

/// A pair is two numbers of sixteen bits with an `x` between them, the first
/// `x` there is, and nothing else is a pair.
pub proof fn a_pair_is_two_numbers(a: Seq<char>, b: Seq<char>)
    requires
        forall|i: int| 0 <= i < a.len() ==> #[trigger] a[i] != 'x',
    ensures
        pair_of(a + seq!['x'] + b) == (match (
            text::unsigned(a, 65535),
            text::unsigned(b, 65535),
        ) {
            (Some(m), Some(n)) => Some((m, n)),
            _ => None,
        }),
        pair_of(a) is None,
{
    text::the_first_place_is_found(a, 'x', b);
    let s = a + seq!['x'] + b;
    assert(s.take(a.len() as int) =~= a);
    assert(s.skip(a.len() as int + 1) =~= b);
}

/// A size is a pair of cells, and after the first `@`, if there is one, a pair
/// of pixels. Both must be there to be read.
pub proof fn a_size_is_one_or_two_pairs(cells: Seq<char>, pixels: Seq<char>)
    requires
        forall|i: int| 0 <= i < cells.len() ==> #[trigger] cells[i] != '@',
    ensures
        size_of(cells) is Some <==> pair_of(cells) is Some,
        size_of(cells) matches Some(size) ==> pair_of(cells) == Some(
            (size.cols as nat, size.rows as nat),
        ) && size.px_width == 0 && size.px_height == 0,
        size_of(cells + seq!['@'] + pixels) is Some <==> pair_of(cells) is Some && pair_of(
            pixels,
        ) is Some,
        size_of(cells + seq!['@'] + pixels) matches Some(size) ==> pair_of(cells) == Some(
            (size.cols as nat, size.rows as nat),
        ) && pair_of(pixels) == Some((size.px_width as nat, size.px_height as nat)),
{
    text::the_first_place_is_found(cells, '@', pixels);
    let s = cells + seq!['@'] + pixels;
    assert(s.take(cells.len() as int) =~= cells);
    assert(s.skip(cells.len() as int + 1) =~= pixels);
    assert(cells.take(cells.len() as int) =~= cells);
    lemma_pair_fits(cells);
    lemma_pair_fits(pixels);
}

proof fn lemma_pair_fits(s: Seq<char>)
    ensures
        pair_of(s) matches Some((a, b)) ==> a <= u16::MAX && b <= u16::MAX,
{
}

/// The label of a configuration tells the settings that its renderer uses, and
/// no others: two have the same label if and only if they agree on those.
pub proof fn labels_tell_what_is_drawn_with(a: Config, b: Config)
    ensures
        a.label_text() == b.label_text() <==> {
            &&& a.mode == b.mode
            &&& a.mode == RenderMode::HalfBlock ==> a.depth == b.depth
            &&& a.mode == RenderMode::Kitty ==> a.strategy == b.strategy && a.compress == b.compress
        },
        a.mode == RenderMode::Kitty && a.strategy == KittyStrategy::FrameEdit && a.compress
            ==> a.label_text() == "kitty edit zlib"@,
        a.mode == RenderMode::Kitty && a.strategy == KittyStrategy::FrameEdit && !a.compress
            ==> a.label_text() == "kitty edit raw"@,
        a.mode == RenderMode::Kitty && a.strategy == KittyStrategy::Retransmit && a.compress
            ==> a.label_text() == "kitty retransmit zlib"@,
        a.mode == RenderMode::Kitty && a.strategy == KittyStrategy::Retransmit && !a.compress
            ==> a.label_text() == "kitty retransmit raw"@,
        a.mode == RenderMode::HalfBlock && a.depth == ColorDepth::TrueColor ==> a.label_text()
            == "halfblock truecolor"@,
        a.mode == RenderMode::HalfBlock && a.depth == ColorDepth::Ansi256 ==> a.label_text()
            == "halfblock 256"@,
{
    reveal_strlit("halfblock truecolor");
    reveal_strlit("halfblock 256");
    assert("halfblock truecolor"@[0] == 'h' && "halfblock 256"@[0] == 'h');
    assert("halfblock truecolor"@.len() == 19 && "halfblock 256"@.len() == 13);
    lemma_kitty_label(a);
    lemma_kitty_label(b);
}

proof fn lemma_kitty_label(a: Config)
    ensures
        a.mode == RenderMode::Kitty ==> a.label_text() == (match (a.strategy, a.compress) {
            (KittyStrategy::FrameEdit, true) => "kitty edit zlib"@,
            (KittyStrategy::FrameEdit, false) => "kitty edit raw"@,
            (KittyStrategy::Retransmit, true) => "kitty retransmit zlib"@,
            (KittyStrategy::Retransmit, false) => "kitty retransmit raw"@,
        }),
        a.mode == RenderMode::Kitty ==> a.label_text()[0] == 'k' && (a.strategy
            == KittyStrategy::FrameEdit <==> a.label_text()[6] == 'e') && (a.compress
            <==> a.label_text().last() == 'b'),
{
    reveal_strlit("kitty ");
    reveal_strlit("edit");
    reveal_strlit("retransmit");
    reveal_strlit(" zlib");
    reveal_strlit(" raw");
    reveal_strlit("kitty edit zlib");
    reveal_strlit("kitty edit raw");
    reveal_strlit("kitty retransmit zlib");
    reveal_strlit("kitty retransmit raw");
    if a.mode == RenderMode::Kitty {
        match (a.strategy, a.compress) {
            (KittyStrategy::FrameEdit, true) => assert(a.label_text() =~= "kitty edit zlib"@),
            (KittyStrategy::FrameEdit, false) => assert(a.label_text() =~= "kitty edit raw"@),
            (KittyStrategy::Retransmit, true) => assert(a.label_text()
                =~= "kitty retransmit zlib"@),
            (KittyStrategy::Retransmit, false) => assert(a.label_text()
                =~= "kitty retransmit raw"@),
        }
    }
}

/// What each key does: the demo ends on `q`, Esc and Control-C, a digit
/// chooses the pattern, three letters switch the settings of the renderer, and
/// no other key does anything.
pub proof fn each_key_does_one_thing(s: Session, code: KeyCode, control: bool)
    ensures
        ({
            let after = after_key(s, code, control);
            let ends = code == KeyCode::Esc || code == KeyCode::Char('q') || (code
                == KeyCode::Char('c') && control);
            &&& after.quit <==> s.quit || ends
            &&& after.t == s.t && after.limit == s.limit && after.has_image == s.has_image
            &&& after.pattern == (match code {
                KeyCode::Char('1') => Pattern::Bars,
                KeyCode::Char('2') => Pattern::Checker,
                KeyCode::Char('3') => Pattern::Gradient,
                KeyCode::Char('4') => Pattern::Sprite,
                KeyCode::Char('5') => Pattern::Noise,
                KeyCode::Char('6') => if s.has_image {
                    Pattern::Image
                } else {
                    s.pattern
                },
                _ => s.pattern,
            })
            &&& after.cfg.mode != s.cfg.mode <==> code == KeyCode::Char('m')
            &&& after.cfg.strategy != s.cfg.strategy <==> code == KeyCode::Char('s')
            &&& after.cfg.compress != s.cfg.compress <==> code == KeyCode::Char('z')
            &&& after.cfg.depth == s.cfg.depth
            &&& after.rebuild <==> s.rebuild || code == KeyCode::Char('m') || ((code
                == KeyCode::Char('s') || code == KeyCode::Char('z')) && s.cfg.mode
                == RenderMode::Kitty)
        }),
{
}

/// The benchmark goes through every pattern, the image only if there is one,
/// and none twice.
pub proof fn the_benchmark_shows_every_pattern_once(pattern: Pattern, has_image: bool)
    ensures
        benchmark_patterns(has_image).contains(pattern) <==> (has_image || pattern
            != Pattern::Image),
        benchmark_patterns(has_image).no_duplicates(),
{
    let patterns = benchmark_patterns(has_image);
    match pattern {
        Pattern::Bars => assert(patterns[0] == pattern),
        Pattern::Checker => assert(patterns[1] == pattern),
        Pattern::Gradient => assert(patterns[2] == pattern),
        Pattern::Sprite => assert(patterns[3] == pattern),
        Pattern::Noise => assert(patterns[4] == pattern),
        Pattern::Image => {
            if has_image {
                assert(patterns[5] == pattern);
            }
        },
    }
}

/// The benchmark draws half blocks in both color depths, and Kitty graphics
/// with both strategies, compressed in either and plain as well when images
/// are sent anew. No configuration comes twice.
pub proof fn the_benchmark_draws_in_five_ways(config: Config)
    ensures
        benchmark().contains(config) <==> match config.mode {
            RenderMode::HalfBlock => config.strategy == KittyStrategy::FrameEdit && !config.compress,
            RenderMode::Kitty => config.depth == ColorDepth::TrueColor && (config.strategy
                == KittyStrategy::Retransmit || config.compress),
        },
        benchmark().no_duplicates(),
{
    let all = benchmark();
    assert(config == all[0] || config == all[1] || config == all[2] || config == all[3] || config
        == all[4] || !all.contains(config));
    assert(all.contains(all[0]) && all.contains(all[1]) && all.contains(all[2]) && all.contains(
        all[3],
    ) && all.contains(all[4]));
}

/// Switching the renderer or the strategy always gives the other one.
pub proof fn there_is_always_another(mode: RenderMode, strategy: KittyStrategy)
    ensures
        other_mode(mode) != mode,
        other_strategy(strategy) != strategy,
{
}

} // verus!
