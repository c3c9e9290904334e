//! Video renderer contract for terminal backends.

use vstd::prelude::*;

use crate::emu::Frame;
use crate::text;

verus! {

/// A destination for one complete native GBA framebuffer.
///
/// The relation names what one call may do. A renderer can define it; by
/// default it demands nothing.
pub trait Renderer: Sized {
    /// `draw(pixels)` may turn `before` into `after` and return `outcome`.
    open spec fn draws(
        before: Self,
        pixels: Seq<u8>,
        after: Self,
        outcome: Result<(), std::io::Error>,
    ) -> bool {
        true
    }

    fn draw(&mut self, pixels: &[u8]) -> (r: Result<(), std::io::Error>)
        ensures
            Self::draws(*old(self), pixels@, *final(self), r),
    ;
}

/// A framebuffer of a wrong size.
#[derive(Debug, Clone, Copy, PartialEq, Eq, Structural)]
pub struct FrameSizeError {
    pub expected: usize,
    pub actual: usize,
}

impl FrameSizeError {
    /// The text shown for this error.
    pub open spec fn text(self) -> Seq<char> {
        "invalid framebuffer size: expected "@ + text::decimal(self.expected as nat) + ", got "@
            + text::decimal(self.actual as nat)
    }

    /// The message of this error.
    pub fn message(&self) -> (r: String)
        ensures
            r@ == self.text(),
    {
        let mut out = String::new();
        out.append("invalid framebuffer size: expected ");
        text::push_decimal(&mut out, self.expected as u128);
        out.append(", got ");
        text::push_decimal(&mut out, self.actual as u128);
        assert(out@ =~= self.text());
        out
    }
}

/// Check the invariant every renderer receives from the core loop.
pub fn validate_framebuffer(pixels: &[u8]) -> (r: Result<(), FrameSizeError>)
    ensures
        r is Ok <==> pixels@.len() == Frame::PIXEL_BYTES,
        r matches Err(e) ==> e.expected == Frame::PIXEL_BYTES && e.actual == pixels@.len(),
{
    if pixels.len() != Frame::PIXEL_BYTES {
        return Err(FrameSizeError { expected: Frame::PIXEL_BYTES, actual: pixels.len() });
    }
    Ok(())
}

/// The terminal backend that draws the frames.
#[derive(Debug, Clone, Copy, PartialEq, Eq, Structural)]
pub enum RenderMode {
    HalfBlock,
    Kitty,
}

/// The renderer to use if the command line asks for none: the one that the
/// environment forces, and otherwise Kitty graphics in the terminals that
/// support them and half blocks in all others.
pub fn detect_mode(forced: Option<RenderMode>, kitty_graphics: bool) -> (r: RenderMode)
    ensures
        r == (match forced {
            Some(mode) => mode,
            None => if kitty_graphics {
                RenderMode::Kitty
            } else {
                RenderMode::HalfBlock
            },
        }),
{
    match forced {
        Some(mode) => mode,
        None => {
            if kitty_graphics {
                RenderMode::Kitty
            } else {
                RenderMode::HalfBlock
            }
        },
    }
}

/// How a Kitty image is updated.
#[derive(Debug, Clone, Copy, PartialEq, Eq, Structural)]
pub enum KittyStrategy {
    FrameEdit,
    Retransmit,
}

/// The colors of a half-block terminal.
#[derive(Debug, Clone, Copy, PartialEq, Eq, Structural)]
pub enum ColorDepth {
    TrueColor,
    Ansi256,
}

/// The size of a terminal in cells and in pixels, which are zero if unknown.
#[derive(Debug, Clone, Copy, PartialEq, Eq, Structural)]
pub struct TermSize {
    pub cols: u16,
    pub rows: u16,
    pub px_width: u16,
    pub px_height: u16,
}

/// The message for a wrong framebuffer shows both sizes in full.
pub proof fn the_message_shows_both_sizes(error: FrameSizeError)
    ensures
        exists|a: Seq<char>, b: Seq<char>|
            {
                &&& text::is_numeral(a) && #[trigger] text::digits_value(a) == error.expected
                &&& text::is_numeral(b) && #[trigger] text::digits_value(b) == error.actual
                &&& error.text() == "invalid framebuffer size: expected "@ + a + ", got "@ + b
            },
{
    text::lemma_decimal(error.expected as nat);
    text::lemma_decimal(error.actual as nat);
    let (a, b) = (text::decimal(error.expected as nat), text::decimal(error.actual as nat));
    assert(text::digits_value(a) == error.expected && text::digits_value(b) == error.actual);
}

} // verus!
