//! Binary PPM images (P6) of one native frame.

use vstd::prelude::*;
use vstd::slice::{slice_subrange, slice_to_vec};

use crate::emu::GBA_PIXELS;
use crate::pattern::FRAME_BYTES;

verus! {

/// Bytes of the pixel data of one frame: red, green and blue for each pixel.
pub const BODY_BYTES: usize = GBA_PIXELS * 3;

/// Why an image cannot be read.
#[derive(Debug)]
pub enum PpmError {
    /// The data ends before the header does.
    TruncatedHeader,
    /// The data does not begin with `P6`.
    NotBinary,
    /// The image is not of the native size with one byte per channel; these
    /// are the header's words for it.
    WrongFormat { width: Vec<u8>, height: Vec<u8>, maxval: Vec<u8> },
    /// The data ends before the pixels do.
    TruncatedData,
}

/// The model of a [`PpmError`].
pub ghost enum PpmFault {
    TruncatedHeader,
    NotBinary,
    WrongFormat(Seq<u8>, Seq<u8>, Seq<u8>),
    TruncatedData,
}

impl View for PpmError {
    type V = PpmFault;

    open spec fn view(&self) -> PpmFault {
        match *self {
            PpmError::TruncatedHeader => PpmFault::TruncatedHeader,
            PpmError::NotBinary => PpmFault::NotBinary,
            PpmError::WrongFormat { width, height, maxval } => PpmFault::WrongFormat(
                width@,
                height@,
                maxval@,
            ),
            PpmError::TruncatedData => PpmFault::TruncatedData,
        }
    }
}

// ---------------------------------------------------------------------------
// Model
// ---------------------------------------------------------------------------

/// ASCII white space.
pub open spec fn is_blank(b: u8) -> bool {
    b == 0x20 || b == 0x09 || b == 0x0a || b == 0x0c || b == 0x0d
}

/// Where the next header word begins, at or after `pos`. White space is
/// skipped, and so are comments, which reach from `#` to the end of the line.
/// `comment` says whether `pos` lies in a comment.
pub open spec fn word_start(data: Seq<u8>, pos: int, comment: bool) -> Option<int>
    decreases data.len() - pos,
{
    if pos >= data.len() {
        None
    } else if comment {
        word_start(data, pos + 1, data[pos] != 0x0a)
    } else if is_blank(data[pos]) {
        word_start(data, pos + 1, false)
    } else if data[pos] == 0x23 {
        word_start(data, pos + 1, true)
    } else {
        Some(pos)
    }
}

/// Where the header word that begins at `pos` ends.
pub open spec fn word_end(data: Seq<u8>, pos: int) -> int
    decreases data.len() - pos,
{
    if pos >= data.len() || is_blank(data[pos]) {
        pos
    } else {
        word_end(data, pos + 1)
    }
}

/// The next header word at or after `pos`, and where it ends.
pub open spec fn word_at(data: Seq<u8>, pos: int) -> Option<(Seq<u8>, int)> {
    match word_start(data, pos, false) {
        None => None,
        Some(start) => Some(
            (data.subrange(start, word_end(data, start)), word_end(data, start)),
        ),
    }
}

/// The four words of the header, and where the last one ends.
pub open spec fn header_of(data: Seq<u8>) -> Option<(Seq<u8>, Seq<u8>, Seq<u8>, Seq<u8>, int)> {
    match word_at(data, 0) {
        None => None,
        Some((magic, a)) => match word_at(data, a) {
            None => None,
            Some((width, b)) => match word_at(data, b) {
                None => None,
                Some((height, c)) => match word_at(data, c) {
                    None => None,
                    Some((maxval, end)) => Some((magic, width, height, maxval, end)),
                },
            },
        },
    }
}

/// The frame with the given pixel data: red, green, blue and a full fourth
/// byte for each pixel.
pub open spec fn frame_of(body: Seq<u8>) -> Seq<u8> {
    Seq::new(
        FRAME_BYTES as nat,
        |i: int|
            if i % 4 == 3 {
                0xFFu8
            } else {
                body[i / 4 * 3 + i % 4]
            },
    )
}

/// The frame that an image holds. Exactly one byte separates the header from
/// the pixel data, and what follows the pixel data does not matter.
pub open spec fn image_of(data: Seq<u8>) -> Result<Seq<u8>, PpmFault> {
    match header_of(data) {
        None => Err(PpmFault::TruncatedHeader),
        Some((magic, width, height, maxval, end)) => {
            if magic != seq![0x50u8, 0x36u8] {
                Err(PpmFault::NotBinary)
            } else if width != seq![0x32u8, 0x34u8, 0x30u8] || height != seq![
                0x31u8,
                0x36u8,
                0x30u8,
            ] || maxval != seq![0x32u8, 0x35u8, 0x35u8] {
                Err(PpmFault::WrongFormat(width, height, maxval))
            } else if end + 1 + BODY_BYTES > data.len() {
                Err(PpmFault::TruncatedData)
            } else {
                Ok(frame_of(data.subrange(end + 1, end + 1 + BODY_BYTES)))
            }
        },
    }
}

// ---------------------------------------------------------------------------
// Operations
// ---------------------------------------------------------------------------

fn blank(b: u8) -> (r: bool)
    ensures
        r == is_blank(b),
{
    b == 0x20 || b == 0x09 || b == 0x0a || b == 0x0c || b == 0x0d
}

/// The next header word at or after `pos`, and where it ends.
fn word(data: &[u8], pos: usize) -> (r: Option<(&[u8], usize)>)
    requires
        pos <= data@.len(),
    ensures
        match r {
            Some((word, end)) => word_at(data@, pos as int) == Some((word@, end as int)) && end
                <= data@.len(),
            None => word_at(data@, pos as int) is None,
        },
{
    let mut start: usize = pos;
    let mut comment: bool = false;
    while start < data.len() && (comment || blank(data[start]) || data[start] == 0x23)
        invariant
            pos <= start <= data@.len(),
            word_start(data@, pos as int, false) == word_start(data@, start as int, comment),
        decreases data@.len() - start,
    {
        if comment {
            comment = data[start] != 0x0a;
        } else {
            comment = !blank(data[start]);
        }
        start = start + 1;
    }
    if start == data.len() {
        return None;
    }
    let mut end: usize = start;
    while end < data.len() && !blank(data[end])
        invariant
            start <= end <= data@.len(),
            word_end(data@, start as int) == word_end(data@, end as int),
        decreases data@.len() - end,
    {
        end = end + 1;
    }
    Some((slice_subrange(data, start, end), end))
}

fn is_word(word: &[u8], a: u8, b: u8, c: u8) -> (r: bool)
    ensures
        r == (word@ == seq![a, b, c]),
{
    if word.len() == 3 && word[0] == a && word[1] == b && word[2] == c {
        assert(word@ =~= seq![a, b, c]);
        true
    } else {
        assert(word@.len() == 3 ==> word@ != seq![a, b, c] || (word@[0] == a && word@[1] == b
            && word@[2] == c));
        false
    }
}

/// Read a 240x160 binary PPM as an XBGR8 frame (R, G, B, X byte order).
pub fn parse_ppm(data: &[u8]) -> (r: Result<Vec<u8>, PpmError>)
    ensures
        match r {
            Ok(frame) => image_of(data@) == Ok::<Seq<u8>, PpmFault>(frame@) && frame@.len()
                == FRAME_BYTES,
            Err(e) => image_of(data@) == Err::<Seq<u8>, PpmFault>(e@),
        },
{
    let (magic, a) = match word(data, 0) {
        Some(found) => found,
        None => {
            return Err(PpmError::TruncatedHeader);
        },
    };
    let (width, b) = match word(data, a) {
        Some(found) => found,
        None => {
            return Err(PpmError::TruncatedHeader);
        },
    };
    let (height, c) = match word(data, b) {
        Some(found) => found,
        None => {
            return Err(PpmError::TruncatedHeader);
        },
    };
    let (maxval, end) = match word(data, c) {
        Some(found) => found,
        None => {
            return Err(PpmError::TruncatedHeader);
        },
    };
    if magic.len() != 2 || magic[0] != 0x50 || magic[1] != 0x36 {
        return Err(PpmError::NotBinary);
    }
    assert(magic@ =~= seq![0x50u8, 0x36u8]);
    if !is_word(width, 0x32, 0x34, 0x30) || !is_word(height, 0x31, 0x36, 0x30) || !is_word(
        maxval,
        0x32,
        0x35,
        0x35,
    ) {
        return Err(
            PpmError::WrongFormat {
                width: slice_to_vec(width),
                height: slice_to_vec(height),
                maxval: slice_to_vec(maxval),
            },
        );
    }
    if data.len() - end < 1 + BODY_BYTES {
        return Err(PpmError::TruncatedData);
    }
    let body = slice_subrange(data, end + 1, end + 1 + BODY_BYTES);
    let mut frame: Vec<u8> = Vec::with_capacity(FRAME_BYTES);
    let mut k: usize = 0;
    while k < GBA_PIXELS
        invariant
            k <= GBA_PIXELS,
            body@.len() == BODY_BYTES,
            frame@ == frame_of(body@).take(4 * k),
        decreases GBA_PIXELS - k,
    {
        frame.push(body[3 * k]);
        frame.push(body[3 * k + 1]);
        frame.push(body[3 * k + 2]);
        frame.push(0xFF);
        assert(frame@ =~= frame_of(body@).take(4 * (k + 1)));
        k = k + 1;
    }
    assert(frame_of(body@).take(4 * k) =~= frame_of(body@));
    Ok(frame)
}

// ---------------------------------------------------------------------------
// Messages
// ---------------------------------------------------------------------------

/// What `String::from_utf8_lossy` makes of bytes.
pub uninterp spec fn lossy_text(bytes: Seq<u8>) -> Seq<char>;

/// Trusted call of `String::from_utf8_lossy`: its text depends on the bytes
/// alone, and is what they encode where they are valid UTF-8.
#[verifier::external_body]
fn lossy(bytes: &[u8]) -> (r: String)
    ensures
        r@ == lossy_text(bytes@),
        vstd::utf8::valid_utf8(bytes@) ==> r@ == vstd::utf8::decode_utf8(bytes@),
{
    String::from_utf8_lossy(bytes).into_owned()
}

/// The message for an image of the wrong format, given the header's words.
pub open spec fn wrong_format(width: Seq<char>, height: Seq<char>, maxval: Seq<char>) -> Seq<
    char,
> {
    "expected 240x160 maxval 255, got "@ + width + "x"@ + height + " maxval "@ + maxval
}

/// The message for an image of the wrong format, given the header's words.
pub fn wrong_format_message(width: &str, height: &str, maxval: &str) -> (r: String)
    ensures
        r@ == wrong_format(width@, height@, maxval@),
{
    let mut out = String::new();
    out.append("expected 240x160 maxval 255, got ");
    out.append(width);
    out.append("x");
    out.append(height);
    out.append(" maxval ");
    out.append(maxval);
    assert(out@ =~= wrong_format(width@, height@, maxval@));
    out
}

impl PpmError {
    /// The message of this error.
    pub fn message(&self) -> (r: String)
        ensures
            r@ == match self@ {
                PpmFault::TruncatedHeader => "truncated PPM header"@,
                PpmFault::NotBinary => "not a binary PPM (P6)"@,
                PpmFault::WrongFormat(width, height, maxval) => wrong_format(
                    lossy_text(width),
                    lossy_text(height),
                    lossy_text(maxval),
                ),
                PpmFault::TruncatedData => "truncated PPM data"@,
            },
            self@ matches PpmFault::WrongFormat(width, height, maxval) ==> (
            vstd::utf8::valid_utf8(width) && vstd::utf8::valid_utf8(height)
                && vstd::utf8::valid_utf8(maxval) ==> r@ == wrong_format(
                vstd::utf8::decode_utf8(width),
                vstd::utf8::decode_utf8(height),
                vstd::utf8::decode_utf8(maxval),
            )),
    {
        match self {
            PpmError::TruncatedHeader => "truncated PPM header".to_owned(),
            PpmError::NotBinary => "not a binary PPM (P6)".to_owned(),
            PpmError::WrongFormat { width, height, maxval } => {
                let width = lossy(width.as_slice());
                let height = lossy(height.as_slice());
                let maxval = lossy(maxval.as_slice());
                wrong_format_message(width.as_str(), height.as_str(), maxval.as_str())
            },
            PpmError::TruncatedData => "truncated PPM data".to_owned(),
        }
    }
}

// ---------------------------------------------------------------------------
// Laws
// ---------------------------------------------------------------------------

/// The message for a wrong format shows the header's words whole: each stands
/// in it behind its own label.
pub proof fn the_message_shows_every_word(width: Seq<char>, height: Seq<char>, maxval: Seq<char>)
    ensures
        ({
            let text = wrong_format(width, height, maxval);
            let w = 33 + width.len() as int;
            let h = w + 1 + height.len();
            &&& text.len() == h + 8 + maxval.len()
            &&& text.take(33) == "expected 240x160 maxval 255, got "@
            &&& text.subrange(33, w) == width
            &&& text[w] == 'x'
            &&& text.subrange(w + 1, h) == height
            &&& text.subrange(h, h + 8) == " maxval "@
            &&& text.skip(h + 8) == maxval
        }),
{
    reveal_strlit("expected 240x160 maxval 255, got ");
    reveal_strlit("x");
    reveal_strlit(" maxval ");
    let text = wrong_format(width, height, maxval);
    let w = 33 + width.len() as int;
    let h = w + 1 + height.len();
    assert(text.take(33) =~= "expected 240x160 maxval 255, got "@);
    assert(text.subrange(33, w) =~= width);
    assert(text.subrange(w + 1, h) =~= height);
    assert(text.subrange(h, h + 8) =~= " maxval "@);
    assert(text.skip(h + 8) =~= maxval);
}

/// A header word of ASCII bytes is valid UTF-8, and its text has one character
/// for each byte. So a message shows such a word as it stands in the header.
pub proof fn ascii_words_are_shown_as_they_are(word: Seq<u8>)
    requires
        forall|i: int| 0 <= i < word.len() ==> #[trigger] word[i] < 0x80,
    ensures
        vstd::utf8::valid_utf8(word),
        vstd::utf8::decode_utf8(word) == Seq::new(word.len(), |i: int| word[i] as char),
    decreases word.len(),
{
    if word.len() > 0 {
        let b = word[0];
        let rest = word.subrange(1, word.len() as int);
        assert forall|i: int| 0 <= i < rest.len() implies #[trigger] rest[i] < 0x80 by {
            assert(rest[i] == word[i + 1]);
        }
        ascii_words_are_shown_as_they_are(rest);
        assert((b & 0x7F) == b) by (bit_vector)
            requires
                b < 0x80,
        ;
        assert(vstd::utf8::pop_first_scalar(word) == rest);
        assert(vstd::utf8::decode_first_scalar(word) == b as u32);
    }
    assert(vstd::utf8::decode_utf8(word) =~= Seq::new(word.len(), |i: int| word[i] as char));
}

/// The usual header of a native frame: `P6`, `240 160` and `255` on a line
/// each.
pub open spec fn native_header() -> Seq<u8> {
    seq![
        0x50u8,
        0x36u8,
        0x0au8,
        0x32u8,
        0x34u8,
        0x30u8,
        0x20u8,
        0x31u8,
        0x36u8,
        0x30u8,
        0x0au8,
        0x32u8,
        0x35u8,
        0x35u8,
        0x0au8,
    ]
}

/// An image with the usual header reads back byte for byte: each pixel has its
/// three bytes unchanged, and a full fourth byte.
pub proof fn a_native_image_reads_back(body: Seq<u8>)
    requires
        body.len() == BODY_BYTES,
    ensures
        image_of(native_header() + body) == Ok::<Seq<u8>, PpmFault>(frame_of(body)),
        ({
            let frame = image_of(native_header() + body)->Ok_0;
            &&& frame.len() == 4 * GBA_PIXELS
            &&& forall|k: int, c: int|
                0 <= k < GBA_PIXELS && 0 <= c < 3 ==> #[trigger] frame[4 * k + c] == body[3 * k + c]
            &&& forall|k: int| 0 <= k < GBA_PIXELS ==> #[trigger] frame[4 * k + 3] == 0xFF
        }),
{
    let data = native_header() + body;
    reveal_with_fuel(word_start, 3);
    reveal_with_fuel(word_end, 4);
    assert(data.subrange(0, 2) =~= seq![0x50u8, 0x36u8]);
    assert(data.subrange(3, 6) =~= seq![0x32u8, 0x34u8, 0x30u8]);
    assert(data.subrange(7, 10) =~= seq![0x31u8, 0x36u8, 0x30u8]);
    assert(data.subrange(11, 14) =~= seq![0x32u8, 0x35u8, 0x35u8]);
    assert(word_at(data, 0) == Some((data.subrange(0, 2), 2int)));
    assert(word_at(data, 2) == Some((data.subrange(3, 6), 6int)));
    assert(word_at(data, 6) == Some((data.subrange(7, 10), 10int)));
    assert(word_at(data, 10) == Some((data.subrange(11, 14), 14int)));
    assert(data.subrange(15, 15 + BODY_BYTES) =~= body);
    lemma_frame_bytes(body);
}

proof fn lemma_frame_bytes(body: Seq<u8>)
    ensures
        frame_of(body).len() == 4 * GBA_PIXELS,
        forall|k: int, c: int|
            0 <= k < GBA_PIXELS && 0 <= c < 3 ==> #[trigger] frame_of(body)[4 * k + c] == body[3 * k
                + c],
        forall|k: int| 0 <= k < GBA_PIXELS ==> #[trigger] frame_of(body)[4 * k + 3] == 0xFF,
{
    assert forall|k: int, c: int| 0 <= k < GBA_PIXELS && 0 <= c < 3 implies #[trigger] frame_of(
        body,
    )[4 * k + c] == body[3 * k + c] by {
        assert((4 * k + c) / 4 == k && (4 * k + c) % 4 == c);
    }
    assert forall|k: int| 0 <= k < GBA_PIXELS implies #[trigger] frame_of(body)[4 * k + 3]
        == 0xFF by {
        assert((4 * k + 3) % 4 == 3);
    }
}

/// What is read of an image with the given header words: the first of three
/// complaints that applies, or the bytes of the pixel data, which begin right
/// after the one byte that ends the header.
pub proof fn an_image_is_read_as_its_header_says(
    data: Seq<u8>,
    magic: Seq<u8>,
    width: Seq<u8>,
    height: Seq<u8>,
    maxval: Seq<u8>,
    a: int,
    b: int,
    c: int,
    end: int,
)
    requires
        word_at(data, 0) == Some((magic, a)),
        word_at(data, a) == Some((width, b)),
        word_at(data, b) == Some((height, c)),
        word_at(data, c) == Some((maxval, end)),
    ensures
        ({
            let native = width == seq![0x32u8, 0x34, 0x30] && height == seq![0x31u8, 0x36, 0x30]
                && maxval == seq![0x32u8, 0x35, 0x35];
            if magic != seq![0x50u8, 0x36] {
                image_of(data) == Err::<Seq<u8>, PpmFault>(PpmFault::NotBinary)
            } else if !native {
                image_of(data) == Err::<Seq<u8>, PpmFault>(
                    PpmFault::WrongFormat(width, height, maxval),
                )
            } else if data.len() < end + 1 + 240 * 160 * 3 {
                image_of(data) == Err::<Seq<u8>, PpmFault>(PpmFault::TruncatedData)
            } else {
                &&& image_of(data) is Ok
                &&& image_of(data)->Ok_0.len() == 240 * 160 * 4
                &&& forall|k: int, i: int|
                    0 <= k < 240 * 160 && 0 <= i < 3 ==> #[trigger] image_of(data)->Ok_0[4 * k + i]
                        == data[end + 1 + 3 * k + i]
                &&& forall|k: int|
                    0 <= k < 240 * 160 ==> #[trigger] image_of(data)->Ok_0[4 * k + 3] == 0xFF
            }
        }),
{
    if image_of(data) is Ok {
        let body = data.subrange(end + 1, end + 1 + BODY_BYTES);
        lemma_frame_bytes(body);
        lemma_word_at(data, 0);
        lemma_word_at(data, a);
        lemma_word_at(data, b);
        lemma_word_at(data, c);
        let frame = frame_of(body);
        assert forall|k: int, i: int| 0 <= k < 240 * 160 && 0 <= i < 3 implies #[trigger] frame[4
            * k + i] == data[end + 1 + 3 * k + i] by {
            assert(body[3 * k + i] == data[end + 1 + (3 * k + i)]);
        }
    }
}

proof fn lemma_word_at(data: Seq<u8>, pos: int)
    requires
        0 <= pos,
    ensures
        word_at(data, pos) matches Some((word, end)) ==> pos <= end <= data.len(),
{
    lemma_word_start(data, pos, false);
    if let Some(start) = word_start(data, pos, false) {
        lemma_word_end(data, start);
    }
}

proof fn lemma_word_start(data: Seq<u8>, pos: int, comment: bool)
    requires
        0 <= pos,
    ensures
        word_start(data, pos, comment) matches Some(start) ==> pos <= start < data.len(),
    decreases data.len() - pos,
{
    if pos < data.len() {
        if comment {
            lemma_word_start(data, pos + 1, data[pos] != 0x0a);
        } else if is_blank(data[pos]) {
            lemma_word_start(data, pos + 1, false);
        } else if data[pos] == 0x23 {
            lemma_word_start(data, pos + 1, true);
        }
    }
}

proof fn lemma_word_end(data: Seq<u8>, pos: int)
    requires
        0 <= pos <= data.len(),
    ensures
        pos <= word_end(data, pos) <= data.len(),
    decreases data.len() - pos,
{
    if pos < data.len() && !is_blank(data[pos]) {
        lemma_word_end(data, pos + 1);
    }
}

/// An image whose header lacks one of its four words is refused for that, and
/// no other image is.
pub proof fn a_header_has_four_words(data: Seq<u8>)
    ensures
        image_of(data) == Err::<Seq<u8>, PpmFault>(PpmFault::TruncatedHeader) <==> {
            ||| word_at(data, 0) is None
            ||| word_at(data, word_at(data, 0)->Some_0.1) is None
            ||| word_at(data, word_at(data, word_at(data, 0)->Some_0.1)->Some_0.1) is None
            ||| word_at(
                data,
                word_at(data, word_at(data, word_at(data, 0)->Some_0.1)->Some_0.1)->Some_0.1,
            ) is None
        },
{
}

/// The white space of a header is space, tab, line feed, form feed and
/// carriage return. A word is looked for past it.
pub proof fn white_space_is_skipped(data: Seq<u8>, pos: int)
    requires
        0 <= pos < data.len(),
        data[pos] == 0x20 || data[pos] == 0x09 || data[pos] == 0x0a || data[pos] == 0x0c
            || data[pos] == 0x0d,
    ensures
        word_at(data, pos) == word_at(data, pos + 1),
{
}

/// A comment reaches from `#` to the end of its line. A word is looked for
/// past it.
pub proof fn comments_are_skipped(data: Seq<u8>, pos: int, end: int)
    requires
        0 <= pos < end < data.len(),
        data[pos] == 0x23,
        data[end] == 0x0a,
        forall|i: int| pos <= i < end ==> #[trigger] data[i] != 0x0a,
    ensures
        word_at(data, pos) == word_at(data, end + 1),
{
    lemma_in_comment(data, pos + 1, end);
}

proof fn lemma_in_comment(data: Seq<u8>, pos: int, end: int)
    requires
        0 <= pos <= end < data.len(),
        data[end] == 0x0a,
        forall|i: int| pos <= i < end ==> #[trigger] data[i] != 0x0a,
    ensures
        word_start(data, pos, true) == word_start(data, end + 1, false),
    decreases end - pos,
{
    if pos < end {
        lemma_in_comment(data, pos + 1, end);
    }
}

/// There is no word at the end of the data, nor in a comment without an end.
pub proof fn no_word_is_made_up(data: Seq<u8>, pos: int)
    requires
        0 <= pos <= data.len(),
        pos < data.len() ==> data[pos] == 0x23 && forall|i: int|
            pos <= i < data.len() ==> #[trigger] data[i] != 0x0a,
    ensures
        word_at(data, pos) is None,
{
    if pos < data.len() {
        lemma_open_comment(data, pos + 1);
    }
}

proof fn lemma_open_comment(data: Seq<u8>, pos: int)
    requires
        0 <= pos <= data.len(),
        forall|i: int| pos <= i < data.len() ==> #[trigger] data[i] != 0x0a,
    ensures
        word_start(data, pos, true) is None,
    decreases data.len() - pos,
{
    if pos < data.len() {
        lemma_open_comment(data, pos + 1);
    }
}

/// A word has all bytes up to the next white space or the end of the data; a
/// `#` inside of it begins no comment.
pub proof fn a_word_reaches_to_white_space(data: Seq<u8>, pos: int, end: int)
    requires
        0 <= pos < end <= data.len(),
        data[pos] != 0x23,
        forall|i: int|
            pos <= i < end ==> #[trigger] data[i] != 0x20 && data[i] != 0x09 && data[i] != 0x0a
                && data[i] != 0x0c && data[i] != 0x0d,
        end < data.len() ==> data[end] == 0x20 || data[end] == 0x09 || data[end] == 0x0a
            || data[end] == 0x0c || data[end] == 0x0d,
    ensures
        word_at(data, pos) == Some((data.subrange(pos, end), end)),
{
    lemma_in_word(data, pos, end);
}

proof fn lemma_in_word(data: Seq<u8>, pos: int, end: int)
    requires
        0 <= pos <= end <= data.len(),
        forall|i: int| pos <= i < end ==> !is_blank(#[trigger] data[i]),
        end < data.len() ==> is_blank(data[end]),
    ensures
        word_end(data, pos) == end,
    decreases end - pos,
{
    if pos < end {
        lemma_in_word(data, pos + 1, end);
    }
}

/// A fault is what its error says, with the header's words whole.
pub proof fn a_fault_is_what_its_error_says(width: Vec<u8>, height: Vec<u8>, maxval: Vec<u8>)
    ensures
        PpmError::TruncatedHeader@ == PpmFault::TruncatedHeader,
        PpmError::NotBinary@ == PpmFault::NotBinary,
        PpmError::TruncatedData@ == PpmFault::TruncatedData,
        (PpmError::WrongFormat { width, height, maxval })@ == PpmFault::WrongFormat(
            width@,
            height@,
            maxval@,
        ),
{
}

} // verus!
