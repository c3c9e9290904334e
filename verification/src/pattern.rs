//! Synthetic frames, for exercising renderers without an emulator.

use vstd::prelude::*;

use crate::emu::{Frame, GBA_HEIGHT, GBA_PIXELS, GBA_WIDTH};

verus! {

/// Bytes of one frame.
pub const FRAME_BYTES: usize = 153_600;

/// The side of the moving square.
pub const SPRITE_SIZE: usize = 16;

/// What a synthetic frame shows.
#[derive(Debug, Clone, Copy, PartialEq, Eq, Structural)]
pub enum Pattern {
    Bars,
    Checker,
    Gradient,
    Sprite,
    Noise,
    Image,
}

/// A color.
#[derive(Debug, Clone, Copy, PartialEq, Eq, Structural)]
pub struct Rgb {
    pub r: u8,
    pub g: u8,
    pub b: u8,
}

// ---------------------------------------------------------------------------
// Model
// ---------------------------------------------------------------------------

/// A triangle wave that starts at zero and turns at `max` and at zero.
pub open spec fn triangle(v: int, max: int) -> int {
    let m = v % (2 * max);
    if m > max {
        2 * max - m
    } else {
        m
    }
}

/// The color of one of the seven bars.
pub open spec fn bar_color(i: int) -> Rgb {
    if i == 0 {
        Rgb { r: 192, g: 192, b: 192 }
    } else if i == 1 {
        Rgb { r: 192, g: 192, b: 0 }
    } else if i == 2 {
        Rgb { r: 0, g: 192, b: 192 }
    } else if i == 3 {
        Rgb { r: 0, g: 192, b: 0 }
    } else if i == 4 {
        Rgb { r: 192, g: 0, b: 192 }
    } else if i == 5 {
        Rgb { r: 192, g: 0, b: 0 }
    } else {
        Rgb { r: 0, g: 0, b: 192 }
    }
}

/// A shade that grows from black at zero to white at `last`.
pub open spec fn ramp(i: int, last: int) -> u8 {
    (i * 255 / last % 256) as u8
}

/// Color bars above a gray ramp.
pub open spec fn bars_color(x: int, y: int) -> Rgb {
    if y < GBA_HEIGHT * 2 / 3 {
        bar_color(x * 7 / GBA_WIDTH as int)
    } else {
        let v = ramp(x, GBA_WIDTH - 1);
        Rgb { r: v, g: v, b: v }
    }
}

/// Squares that drift with time.
pub open spec fn checker_color(t: int, x: int, y: int) -> Rgb {
    if ((x + t) / 16 + (y + t / 2) / 16) % 2 == 0 {
        Rgb { r: 235, g: 235, b: 220 }
    } else {
        Rgb { r: 40, g: 40, b: 90 }
    }
}

/// The left edge of the moving square.
pub open spec fn sprite_x(t: int) -> int {
    triangle(t * 2, GBA_WIDTH - SPRITE_SIZE)
}

/// The upper edge of the moving square.
pub open spec fn sprite_y(t: int) -> int {
    triangle(t * 3 / 2, GBA_HEIGHT - SPRITE_SIZE)
}

/// One step of the noise generator.
pub open spec fn xorshift(rng: u64) -> u64 {
    let a = rng ^ (rng << 13);
    let b = a ^ (a >> 7);
    b ^ (b << 17)
}

/// The noise generator after `n` steps.
pub open spec fn noise_after(rng: u64, n: nat) -> u64
    decreases n,
{
    if n == 0 {
        rng
    } else {
        xorshift(noise_after(rng, (n - 1) as nat))
    }
}

/// The color drawn from a state of the noise generator: its three low bytes.
pub open spec fn noise_color(rng: u64) -> Rgb {
    Rgb {
        r: (rng % 256) as u8,
        g: (rng / 256 % 256) as u8,
        b: (rng / 65536 % 256) as u8,
    }
}

/// The color of the `k`-th pixel, in row-major order, of a pattern at time
/// `t`, with the noise generator in state `rng` before the frame.
pub open spec fn pixel_color(pattern: Pattern, t: int, rng: u64, k: int) -> Rgb {
    let x = k % GBA_WIDTH as int;
    let y = k / GBA_WIDTH as int;
    match pattern {
        Pattern::Bars => bars_color(x, y),
        Pattern::Checker => checker_color(t, x, y),
        Pattern::Gradient => Rgb {
            r: ramp(x, GBA_WIDTH - 1),
            g: ramp(y, GBA_HEIGHT - 1),
            b: triangle(t * 4, 255) as u8,
        },
        Pattern::Sprite => if sprite_x(t) <= x < sprite_x(t) + SPRITE_SIZE && sprite_y(t) <= y
            < sprite_y(t) + SPRITE_SIZE {
            Rgb { r: 255, g: 255, b: 255 }
        } else {
            bars_color(x, y)
        },
        Pattern::Noise => noise_color(noise_after(rng, (k + 1) as nat)),
        Pattern::Image => Rgb { r: 0, g: 0, b: 0 },
    }
}

/// Byte `i` of a drawn frame: red, green, blue and a full fourth byte for
/// each pixel.
pub open spec fn frame_byte(pattern: Pattern, t: int, rng: u64, i: int) -> u8 {
    let color = pixel_color(pattern, t, rng, i / 4);
    if i % 4 == 0 {
        color.r
    } else if i % 4 == 1 {
        color.g
    } else if i % 4 == 2 {
        color.b
    } else {
        0xFF
    }
}

/// The bytes of a frame: those of the image, black if there is none, and the
/// drawn pattern otherwise.
pub open spec fn frame_bytes(
    pattern: Pattern,
    t: int,
    rng: u64,
    image: Option<Seq<u8>>,
) -> Seq<u8> {
    if pattern == Pattern::Image {
        match image {
            Some(bytes) => bytes,
            None => Seq::new(FRAME_BYTES as nat, |i: int| 0u8),
        }
    } else {
        Seq::new(FRAME_BYTES as nat, |i: int| frame_byte(pattern, t, rng, i))
    }
}

// ---------------------------------------------------------------------------
// Operations
// ---------------------------------------------------------------------------

/// A triangle wave between zero and `max`.
pub fn tri(v: u64, max: usize) -> (r: usize)
    requires
        0 < max,
        2 * max <= u64::MAX,
    ensures
        r == triangle(v as int, max as int),
        r <= max,
{
    let period: u64 = 2 * (max as u64);
    let m: u64 = v % period;
    (if m > max as u64 {
        period - m
    } else {
        m
    }) as usize
}

/// Color bars above a gray ramp.
pub fn bars(x: usize, y: usize) -> (r: Rgb)
    requires
        y < GBA_HEIGHT * 2 / 3 ==> x < GBA_WIDTH,
        x * 255 <= usize::MAX,
    ensures
        r == bars_color(x as int, y as int),
{
    if y < GBA_HEIGHT * 2 / 3 {
        match x * 7 / GBA_WIDTH {
            0 => Rgb { r: 192, g: 192, b: 192 },
            1 => Rgb { r: 192, g: 192, b: 0 },
            2 => Rgb { r: 0, g: 192, b: 192 },
            3 => Rgb { r: 0, g: 192, b: 0 },
            4 => Rgb { r: 192, g: 0, b: 192 },
            5 => Rgb { r: 192, g: 0, b: 0 },
            _ => Rgb { r: 0, g: 0, b: 192 },
        }
    } else {
        let v: u8 = (x * 255 / (GBA_WIDTH - 1) % 256) as u8;
        Rgb { r: v, g: v, b: v }
    }
}

/// Draws synthetic frames into a buffer of its own.
pub struct FrameGen {
    pub rng: u64,
    pub buf: Vec<u8>,
}

impl FrameGen {
    /// The buffer holds one frame.
    pub open spec fn wf(&self) -> bool {
        self.buf@.len() == FRAME_BYTES
    }

    pub fn new() -> (r: Self)
        ensures
            r.wf(),
            r.rng == 0x9E37_79B9_7F4A_7C15,
            r.buf@ == Seq::new(FRAME_BYTES as nat, |i: int| 0u8),
    {
        let buf: Vec<u8> = vec![0; FRAME_BYTES];
        assert(buf@ =~= Seq::new(FRAME_BYTES as nat, |i: int| 0u8));
        FrameGen { rng: 0x9E37_79B9_7F4A_7C15, buf }
    }

    /// Draw the pattern at time `t`, or show the image, and give the bytes.
    pub fn fill(&mut self, pattern: Pattern, t: u64, image: Option<&[u8]>) -> (r: &[u8])
        requires
            old(self).wf(),
            pattern == Pattern::Image ==> (image matches Some(bytes) ==> bytes@.len()
                == FRAME_BYTES),
            pattern != Pattern::Image ==> t * 4 <= u64::MAX,
        ensures
            final(self).wf(),
            r@ == final(self).buf@,
            r@ == frame_bytes(
                pattern,
                t as int,
                old(self).rng,
                match image {
                    Some(bytes) => Some(bytes@),
                    None => None,
                },
            ),
            final(self).rng == (if pattern == Pattern::Noise {
                noise_after(old(self).rng, GBA_PIXELS as nat)
            } else {
                old(self).rng
            }),
    {
        if let Pattern::Image = pattern {
            self.show_image(image);
            return self.buf.as_slice();
        }
        let sx: usize = tri(t * 2, GBA_WIDTH - SPRITE_SIZE);
        let sy: usize = tri(t * 3 / 2, GBA_HEIGHT - SPRITE_SIZE);
        let blue: u8 = tri(t * 4, 255) as u8;
        let ghost rng = self.rng;
        let mut k: usize = 0;
        while k < GBA_PIXELS
            invariant
                k <= GBA_PIXELS,
                pattern != Pattern::Image,
                t * 4 <= u64::MAX,
                sx == sprite_x(t as int),
                sy == sprite_y(t as int),
                sx <= GBA_WIDTH - SPRITE_SIZE,
                sy <= GBA_HEIGHT - SPRITE_SIZE,
                blue == triangle(t * 4, 255),
                self.buf@.len() == FRAME_BYTES,
                self.rng == (if pattern == Pattern::Noise {
                    noise_after(rng, k as nat)
                } else {
                    rng
                }),
                forall|i: int|
                    0 <= i < 4 * k ==> #[trigger] self.buf@[i] == frame_byte(
                        pattern,
                        t as int,
                        rng,
                        i,
                    ),
            decreases GBA_PIXELS - k,
        {
            let x: usize = k % GBA_WIDTH;
            let y: usize = k / GBA_WIDTH;
            let c = match pattern {
                Pattern::Bars => bars(x, y),
                Pattern::Checker => {
                    if ((x as u64 + t) / 16 + (y as u64 + t / 2) / 16) % 2 == 0 {
                        Rgb { r: 235, g: 235, b: 220 }
                    } else {
                        Rgb { r: 40, g: 40, b: 90 }
                    }
                },
                Pattern::Gradient => Rgb {
                    r: (x * 255 / (GBA_WIDTH - 1) % 256) as u8,
                    g: (y * 255 / (GBA_HEIGHT - 1) % 256) as u8,
                    b: blue,
                },
                Pattern::Sprite => {
                    if sx <= x && x < sx + SPRITE_SIZE && sy <= y && y < sy + SPRITE_SIZE {
                        Rgb { r: 255, g: 255, b: 255 }
                    } else {
                        bars(x, y)
                    }
                },
                _ => {
                    let a: u64 = self.rng ^ (self.rng << 13);
                    let b: u64 = a ^ (a >> 7);
                    self.rng = b ^ (b << 17);
                    Rgb {
                        r: (self.rng % 256) as u8,
                        g: (self.rng / 256 % 256) as u8,
                        b: (self.rng / 65536 % 256) as u8,
                    }
                },
            };
            assert(c == pixel_color(pattern, t as int, rng, k as int));
            let o: usize = k * 4;
            self.buf[o] = c.r;
            self.buf[o + 1] = c.g;
            self.buf[o + 2] = c.b;
            self.buf[o + 3] = 0xFF;
            assert forall|i: int| 0 <= i < 4 * (k + 1) implies #[trigger] self.buf@[i]
                == frame_byte(pattern, t as int, rng, i) by {
                if i >= 4 * k {
                    assert(i / 4 == k);
                }
            }
            k = k + 1;
        }
        assert(self.buf@ =~= Seq::new(
            FRAME_BYTES as nat,
            |i: int| frame_byte(pattern, t as int, rng, i),
        ));
        self.buf.as_slice()
    }

    /// Copy the image into the buffer, or blacken it.
    fn show_image(&mut self, image: Option<&[u8]>)
        requires
            old(self).wf(),
            image matches Some(bytes) ==> bytes@.len() == FRAME_BYTES,
        ensures
            final(self).wf(),
            final(self).rng == old(self).rng,
            final(self).buf@ == (match image {
                Some(bytes) => bytes@,
                None => Seq::new(FRAME_BYTES as nat, |i: int| 0u8),
            }),
    {
        let mut i: usize = 0;
        while i < FRAME_BYTES
            invariant
                i <= FRAME_BYTES,
                self.buf@.len() == FRAME_BYTES,
                self.rng == old(self).rng,
                image matches Some(bytes) ==> bytes@.len() == FRAME_BYTES,
                forall|j: int|
                    0 <= j < i ==> #[trigger] self.buf@[j] == (match image {
                        Some(bytes) => bytes@[j],
                        None => 0u8,
                    }),
            decreases FRAME_BYTES - i,
        {
            self.buf[i] = match image {
                Some(bytes) => bytes[i],
                None => 0,
            };
            i = i + 1;
        }
        assert(self.buf@ =~= (match image {
            Some(bytes) => bytes@,
            None => Seq::new(FRAME_BYTES as nat, |i: int| 0u8),
        }));
    }
}

// ---------------------------------------------------------------------------
// Laws
// ---------------------------------------------------------------------------

/// Every synthetic frame is a complete framebuffer, whose fourth bytes are
/// full unless it shows an image.
pub proof fn synthetic_frames_are_complete(
    pattern: Pattern,
    t: int,
    rng: u64,
    image: Option<Seq<u8>>,
)
    requires
        image matches Some(bytes) ==> bytes.len() == FRAME_BYTES,
    ensures
        frame_bytes(pattern, t, rng, image).len() == Frame::PIXEL_BYTES,
        pattern != Pattern::Image ==> forall|k: int|
            0 <= k < GBA_PIXELS ==> frame_bytes(pattern, t, rng, image)[#[trigger] (4 * k + 3)]
                == 0xFF,
{
    assert forall|k: int| pattern != Pattern::Image && 0 <= k < GBA_PIXELS implies frame_bytes(
        pattern,
        t,
        rng,
        image,
    )[#[trigger] (4 * k + 3)] == 0xFF by {
        assert((4 * k + 3) % 4 == 3);
    }
}

/// The moving square never leaves the screen.
pub proof fn the_sprite_stays_on_screen(t: int)
    requires
        0 <= t,
    ensures
        0 <= sprite_x(t) <= GBA_WIDTH - SPRITE_SIZE,
        0 <= sprite_y(t) <= GBA_HEIGHT - SPRITE_SIZE,
{
}

/// A triangle wave moves by at most one from one value to the next.
pub proof fn a_triangle_wave_is_gradual(v: int, max: int)
    requires
        0 <= v,
        0 < max,
    ensures
        -1 <= triangle(v + 1, max) - triangle(v, max) <= 1,
{
    let period = 2 * max;
    vstd::arithmetic::div_mod::lemma_fundamental_div_mod(v, period);
    vstd::arithmetic::div_mod::lemma_mod_bound(v, period);
    let (q, m) = (v / period, v % period);
    if m + 1 < period {
        vstd::arithmetic::div_mod::lemma_fundamental_div_mod_converse(v + 1, period, q, m + 1);
    } else {
        assert(period * (q + 1) == period * q + period) by (nonlinear_arith);
        vstd::arithmetic::div_mod::lemma_fundamental_div_mod_converse(v + 1, period, q + 1, 0);
    }
}

/// The noise generator never gets stuck at zero.
pub proof fn noise_never_dies(rng: u64, n: nat)
    requires
        rng != 0,
    ensures
        noise_after(rng, n) != 0,
    decreases n,
{
    if n > 0 {
        noise_never_dies(rng, (n - 1) as nat);
        let r = noise_after(rng, (n - 1) as nat);
        let a = r ^ (r << 13);
        let b = a ^ (a >> 7);
        assert(a != 0) by (bit_vector)
            requires
                r != 0,
                a == r ^ (r << 13),
        ;
        assert(b != 0) by (bit_vector)
            requires
                a != 0,
                b == a ^ (a >> 7),
        ;
        assert(b ^ (b << 17) != 0) by (bit_vector)
            requires
                b != 0,
        ;
    }
}

/// A triangle wave goes up by one to its top, comes down the same way, and
/// repeats.
pub proof fn a_triangle_wave_goes_up_and_down(v: int, max: int)
    requires
        0 < max,
    ensures
        0 <= v <= max ==> triangle(v, max) == v,
        0 <= v <= max ==> triangle(2 * max - v, max) == v,
        triangle(v + 2 * max, max) == triangle(v, max),
{
    let period = 2 * max;
    if 0 <= v <= max {
        vstd::arithmetic::div_mod::lemma_small_mod(v as nat, period as nat);
        if v > 0 {
            vstd::arithmetic::div_mod::lemma_small_mod((period - v) as nat, period as nat);
        } else {
            vstd::arithmetic::div_mod::lemma_fundamental_div_mod_converse(period, period, 1, 0);
        }
    }
    vstd::arithmetic::div_mod::lemma_mod_add_multiples_vanish(v, period);
    assert(v + period == period + v);
}

/// The bars are seven stripes of equal width, each of one color down to two
/// thirds of the screen. Below them stands a ramp that depends on the column
/// alone.
pub proof fn the_bars_are_seven_stripes(x: int, y: int, k: int)
    requires
        0 <= x < 240,
        0 <= y < 160,
        0 <= k < 7,
        240 * k <= 7 * x < 240 * (k + 1),
    ensures
        y < 106 ==> bars_color(x, y) == seq![
            Rgb { r: 192, g: 192, b: 192 },
            Rgb { r: 192, g: 192, b: 0 },
            Rgb { r: 0, g: 192, b: 192 },
            Rgb { r: 0, g: 192, b: 0 },
            Rgb { r: 192, g: 0, b: 192 },
            Rgb { r: 192, g: 0, b: 0 },
            Rgb { r: 0, g: 0, b: 192 },
        ][k],
        y >= 106 ==> bars_color(x, y) == (Rgb { r: ramp(x, 239), g: ramp(x, 239), b: ramp(x, 239) }),
{
    assert(x * 7 / 240 == k);
}

/// A ramp grows evenly from black to white: its shade is 255 parts of the way,
/// rounded down.
pub proof fn a_ramp_grows_evenly(i: int, last: int)
    requires
        0 <= i <= last,
        0 < last,
    ensures
        ramp(i, last) * last <= 255 * i < (ramp(i, last) + 1) * last,
        ramp(0, last) == 0,
        ramp(last, last) == 255,
{
    lemma_ramp(i, last);
    lemma_ramp(0, last);
    lemma_ramp(last, last);
    let (v, w) = (ramp(0, last) as int, ramp(last, last) as int);
    assert(v == 0) by (nonlinear_arith)
        requires
            0 < last,
            0 <= v,
            v * last <= 0,
    ;
    assert(w == 255) by (nonlinear_arith)
        requires
            0 < last,
            w * last <= 255 * last < (w + 1) * last,
    ;
}

proof fn lemma_ramp(i: int, last: int)
    requires
        0 <= i <= last,
        0 < last,
    ensures
        ramp(i, last) * last <= 255 * i < (ramp(i, last) + 1) * last,
{
    let q = i * 255 / last;
    vstd::arithmetic::div_mod::lemma_fundamental_div_mod(i * 255, last);
    vstd::arithmetic::div_mod::lemma_mod_bound(i * 255, last);
    let m = i * 255 % last;
    assert(0 <= q <= 255) by (nonlinear_arith)
        requires
            i * 255 == last * q + m,
            0 <= m < last,
            0 <= i <= last,
    ;
    assert(q % 256 == q);
    assert(q * last <= 255 * i < (q + 1) * last) by (nonlinear_arith)
        requires
            i * 255 == last * q + m,
            0 <= m < last,
    ;
}

/// The checkerboard has squares of sixteen pixels that alternate in both
/// directions. It begins with a light one, and drifts one pixel to the left
/// with every frame and one up with every other.
pub proof fn the_checkerboard_alternates_and_drifts(t: int, x: int, y: int)
    requires
        0 <= t,
        0 <= x,
        0 <= y,
    ensures
        x < 16 && y < 16 ==> checker_color(0, x, y) == (Rgb { r: 235, g: 235, b: 220 }),
        checker_color(t, x, y) == (Rgb { r: 235, g: 235, b: 220 }) || checker_color(t, x, y) == (
        Rgb { r: 40, g: 40, b: 90 }),
        checker_color(t, x + 16, y) != checker_color(t, x, y),
        checker_color(t, x, y + 16) != checker_color(t, x, y),
        t % 2 == 0 ==> checker_color(t + 1, x, y) == checker_color(t, x + 1, y),
        checker_color(t + 2, x, y) == checker_color(t, x + 2, y + 1),
{
    assert((x + 16 + t) / 16 == (x + t) / 16 + 1);
    assert((y + 16 + t / 2) / 16 == (y + t / 2) / 16 + 1);
    assert((t + 2) / 2 == t / 2 + 1);
    if t % 2 == 0 {
        assert((t + 1) / 2 == t / 2);
    }
    assert(x + (t + 2) == x + 2 + t);
    assert(y + (t / 2 + 1) == y + 1 + t / 2);
    assert(x + (t + 1) == x + 1 + t);
}

/// The square goes two pixels to the right with every frame and three down
/// with every other, turns at the edges, and comes back to where it began.
pub proof fn the_sprite_bounces(t: int)
    requires
        0 <= t,
    ensures
        t <= 112 ==> sprite_x(t) == 2 * t,
        112 <= t <= 224 ==> sprite_x(t) == 448 - 2 * t,
        sprite_x(t + 224) == sprite_x(t),
        t <= 96 ==> sprite_y(t) == t * 3 / 2,
        96 <= t <= 192 ==> sprite_y(t) == 288 - t * 3 / 2,
        sprite_y(t + 192) == sprite_y(t),
{
    assert((t + 192) * 3 / 2 == t * 3 / 2 + 288);
    a_triangle_wave_goes_up_and_down(t * 2, 224);
    a_triangle_wave_goes_up_and_down(t * 3 / 2, 144);
}

/// The noise generator is a 64-bit xorshift with the shifts 13, 7 and 17, and
/// goes on step by step. A color is made of the three low bytes of its state.
pub proof fn the_noise_is_a_xorshift(rng: u64, n: nat)
    ensures
        noise_after(rng, 0) == rng,
        ({
            let x = noise_after(rng, n);
            let y = x ^ (x << 13);
            let z = y ^ (y >> 7);
            noise_after(rng, n + 1) == z ^ (z << 17)
        }),
        noise_color(rng).r + 256 * noise_color(rng).g + 65536 * noise_color(rng).b == rng
            % 0x100_0000,
{
}

/// Every pixel of a drawn frame, by its column and row: the pattern's color in
/// the first three bytes, and a full fourth byte.
pub proof fn every_pixel_shows_its_pattern(
    pattern: Pattern,
    t: int,
    rng: u64,
    image: Option<Seq<u8>>,
    x: int,
    y: int,
)
    requires
        0 <= x < 240,
        0 <= y < 160,
        pattern != Pattern::Image,
        0 <= t,
    ensures
        ({
            let frame = frame_bytes(pattern, t, rng, image);
            let o = (y * 240 + x) * 4;
            let color = Rgb { r: frame[o], g: frame[o + 1], b: frame[o + 2] };
            &&& frame.len() == 240 * 160 * 4
            &&& frame[o + 3] == 0xFF
            &&& color == (match pattern {
                Pattern::Bars => bars_color(x, y),
                Pattern::Checker => checker_color(t, x, y),
                Pattern::Gradient => Rgb {
                    r: ramp(x, 239),
                    g: ramp(y, 159),
                    b: triangle(t * 4, 255) as u8,
                },
                Pattern::Sprite => if sprite_x(t) <= x < sprite_x(t) + 16 && sprite_y(t) <= y
                    < sprite_y(t) + 16 {
                    Rgb { r: 255, g: 255, b: 255 }
                } else {
                    bars_color(x, y)
                },
                _ => noise_color(noise_after(rng, (y * 240 + x + 1) as nat)),
            })
        }),
{
    let k = y * 240 + x;
    assert(k / 240 == y && k % 240 == x);
    assert((k * 4) / 4 == k && (k * 4) % 4 == 0);
    assert((k * 4 + 1) / 4 == k && (k * 4 + 1) % 4 == 1);
    assert((k * 4 + 2) / 4 == k && (k * 4 + 2) % 4 == 2);
    assert((k * 4 + 3) / 4 == k && (k * 4 + 3) % 4 == 3);
}

/// An image is shown byte for byte, and a missing one as black.
pub proof fn an_image_is_shown_as_it_is(t: int, rng: u64, image: Option<Seq<u8>>)
    ensures
        image matches Some(bytes) ==> frame_bytes(Pattern::Image, t, rng, image) == bytes,
        image is None ==> frame_bytes(Pattern::Image, t, rng, image).len() == 240 * 160 * 4
            && forall|i: int|
            0 <= i < 240 * 160 * 4 ==> #[trigger] frame_bytes(Pattern::Image, t, rng, image)[i]
                == 0,
{
}

} // verus!
