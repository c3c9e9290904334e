//! Character-level text primitives: searching, splitting and numerals.
//!
//! Specifications speak of text as a sequence of characters, the view of both
//! `str` and `String`.

use vstd::prelude::*;
use vstd::slice::slice_subrange;

verus! {

/// Trusted call of `String::push`: it appends the character to the end of the
/// string and changes nothing else.
#[verifier::external_body]
pub(crate) fn push_char(out: &mut String, c: char)
    ensures
        final(out)@ == old(out)@.push(c),
{
    out.push(c);
}

// ---------------------------------------------------------------------------
// Model
// ---------------------------------------------------------------------------

/// The characters with the Unicode `White_Space` property.
pub open spec fn is_space(c: char) -> bool {
    ||| '\u{9}' <= c <= '\u{d}'
    ||| c == '\u{20}'
    ||| c == '\u{85}'
    ||| c == '\u{a0}'
    ||| c == '\u{1680}'
    ||| '\u{2000}' <= c <= '\u{200a}'
    ||| c == '\u{2028}'
    ||| c == '\u{2029}'
    ||| c == '\u{202f}'
    ||| c == '\u{205f}'
    ||| c == '\u{3000}'
}

/// The ASCII decimal digits.
pub open spec fn is_digit(c: char) -> bool {
    '0' <= c <= '9'
}

/// How many white-space characters `s` begins with.
pub open spec fn leading_spaces(s: Seq<char>) -> nat
    decreases s.len(),
{
    if s.len() == 0 || !is_space(s[0]) {
        0
    } else {
        1 + leading_spaces(s.drop_first())
    }
}

/// How many ASCII digits `s` begins with.
pub open spec fn leading_digits(s: Seq<char>) -> nat
    decreases s.len(),
{
    if s.len() == 0 || !is_digit(s[0]) {
        0
    } else {
        1 + leading_digits(s.drop_first())
    }
}

/// Where `c` first occurs in `s`, or the length of `s` if it does not occur.
pub open spec fn index_of(s: Seq<char>, c: char) -> nat
    decreases s.len(),
{
    if s.len() == 0 || s[0] == c {
        0
    } else {
        1 + index_of(s.drop_first(), c)
    }
}

/// `s` without its leading white space.
pub open spec fn trim_start(s: Seq<char>) -> Seq<char> {
    s.skip(leading_spaces(s) as int)
}

/// Whether every character of `s` is white space.
pub open spec fn is_blank(s: Seq<char>) -> bool {
    forall|i: int| 0 <= i < s.len() ==> is_space(#[trigger] s[i])
}

/// What precedes the first `c` in `s`; all of `s` if there is none.
pub open spec fn before(s: Seq<char>, c: char) -> Seq<char> {
    s.take(index_of(s, c) as int)
}

/// Whether `pattern` occurs in `s` at position `i`.
pub open spec fn occurs_at(s: Seq<char>, pattern: Seq<char>, i: int) -> bool {
    0 <= i && i + pattern.len() <= s.len() && s.subrange(i, i + pattern.len()) == pattern
}

/// The position of the first occurrence of `pattern` in `s`.
pub open spec fn is_first_occurrence(s: Seq<char>, pattern: Seq<char>, i: int) -> bool {
    occurs_at(s, pattern, i) && forall|j: int| 0 <= j < i ==> !occurs_at(s, pattern, j)
}

/// The position of the first occurrence of `pattern` in `s`, if there is one.
pub open spec fn find(s: Seq<char>, pattern: Seq<char>) -> Option<int> {
    if exists|i: int| is_first_occurrence(s, pattern, i) {
        Some(choose|i: int| is_first_occurrence(s, pattern, i))
    } else {
        None
    }
}

/// The texts of a sequence of strings.
pub open spec fn texts(strings: Seq<String>) -> Seq<Seq<char>> {
    Seq::new(strings.len(), |i: int| strings[i]@)
}

/// The pieces of `s` between the occurrences of `c`.
pub open spec fn split_on(s: Seq<char>, c: char) -> Seq<Seq<char>>
    decreases s.len(),
{
    let k = index_of(s, c) as int;
    if k >= s.len() {
        seq![s]
    } else {
        seq![s.take(k)] + split_on(s.skip(k + 1), c)
    }
}

/// The lower-case hexadecimal digit of `d`, for `d` below sixteen.
pub open spec fn hex_digit(d: nat) -> char {
    seq!['0', '1', '2', '3', '4', '5', '6', '7', '8', '9', 'a', 'b', 'c', 'd', 'e', 'f'][d as int]
}

/// The decimal numeral of `n`, without leading zeros.
pub open spec fn decimal(n: nat) -> Seq<char>
    decreases n,
{
    if n < 10 {
        seq![hex_digit(n)]
    } else {
        decimal(n / 10).push(hex_digit(n % 10))
    }
}

/// The upper-case hexadecimal digit of `d`, for `d` below sixteen.
pub open spec fn upper_hex_digit(d: nat) -> char {
    seq!['0', '1', '2', '3', '4', '5', '6', '7', '8', '9', 'A', 'B', 'C', 'D', 'E', 'F'][d as int]
}

/// The last `width` hexadecimal digits of `n`, most significant first.
pub open spec fn hexadecimal(n: nat, width: nat, upper: bool) -> Seq<char>
    decreases width,
{
    if width == 0 {
        Seq::empty()
    } else {
        hexadecimal(n / 16, (width - 1) as nat, upper).push(
            if upper {
                upper_hex_digit(n % 16)
            } else {
                hex_digit(n % 16)
            },
        )
    }
}

/// The last `width` decimal digits of `n`, with leading zeros.
pub open spec fn padded_decimal(n: nat, width: nat) -> Seq<char>
    decreases width,
{
    if width == 0 {
        Seq::empty()
    } else {
        padded_decimal(n / 10, (width - 1) as nat).push(hex_digit(n % 10))
    }
}

/// The value of an ASCII digit.
pub open spec fn digit_value(c: char) -> nat {
    (c as int - '0' as int) as nat
}

/// The value of a string of digits read in base ten.
pub open spec fn digits_value(s: Seq<char>) -> nat
    decreases s.len(),
{
    if s.len() == 0 {
        0
    } else {
        digits_value(s.drop_last()) * 10 + digit_value(s.last())
    }
}

/// Whether `s` holds at least one character and only digits.
pub open spec fn is_numeral(s: Seq<char>) -> bool {
    s.len() > 0 && forall|i: int| 0 <= i < s.len() ==> is_digit(#[trigger] s[i])
}

/// The unsigned number written in `s`, if it is one of at most `max`. One
/// leading plus sign is allowed, and so are leading zeros.
pub open spec fn unsigned(s: Seq<char>, max: nat) -> Option<nat> {
    let digits = if s.len() > 0 && s[0] == '+' {
        s.drop_first()
    } else {
        s
    };
    if is_numeral(digits) && digits_value(digits) <= max {
        Some(digits_value(digits))
    } else {
        None
    }
}

// ---------------------------------------------------------------------------
// Lemmas
// ---------------------------------------------------------------------------

pub proof fn lemma_leading_digits(s: Seq<char>)
    ensures
        leading_digits(s) <= s.len(),
        forall|i: int| 0 <= i < leading_digits(s) ==> is_digit(#[trigger] s[i]),
        leading_digits(s) < s.len() ==> !is_digit(s[leading_digits(s) as int]),
    decreases s.len(),
{
    if s.len() == 0 || !is_digit(s[0]) {
    } else {
        let rest = s.drop_first();
        lemma_leading_digits(rest);
        assert forall|i: int| 0 <= i < leading_digits(s) implies is_digit(#[trigger] s[i]) by {
            if i > 0 {
                assert(rest[i - 1] == s[i]);
            }
        }
    }
}

pub proof fn lemma_index_of(s: Seq<char>, c: char)
    ensures
        index_of(s, c) <= s.len(),
        forall|i: int| 0 <= i < index_of(s, c) ==> #[trigger] s[i] != c,
        index_of(s, c) < s.len() ==> s[index_of(s, c) as int] == c,
    decreases s.len(),
{
    if s.len() == 0 || s[0] == c {
    } else {
        let rest = s.drop_first();
        lemma_index_of(rest, c);
        assert forall|i: int| 0 <= i < index_of(s, c) implies #[trigger] s[i] != c by {
            if i > 0 {
                assert(rest[i - 1] == s[i]);
            }
        }
    }
}

proof fn lemma_digits_value_grows(s: Seq<char>, k: int)
    requires
        0 <= k <= s.len(),
    ensures
        digits_value(s.take(k)) <= digits_value(s),
    decreases s.len() - k,
{
    if k == s.len() {
        assert(s.take(k) =~= s);
    } else {
        lemma_digits_value_grows(s, k + 1);
        assert(s.take(k + 1).drop_last() =~= s.take(k));
    }
}

/// Reading back a decimal numeral gives the number it was written from.
pub proof fn decimal_reads_back(n: nat, max: nat)
    requires
        n <= max,
    ensures
        unsigned(decimal(n), max) == Some(n),
{
    lemma_decimal(n);
    assert(decimal(n)[0] != '+');
}

pub proof fn lemma_decimal(n: nat)
    ensures
        is_numeral(decimal(n)),
        digits_value(decimal(n)) == n,
    decreases n,
{
    if n < 10 {
        assert(decimal(n).drop_last() =~= Seq::<char>::empty());
        assert(digits_value(Seq::<char>::empty()) == 0);
        assert(digit_value(hex_digit(n)) == n);
    } else {
        lemma_decimal(n / 10);
        assert(decimal(n).drop_last() =~= decimal(n / 10));
        assert(digit_value(hex_digit(n % 10)) == n % 10);
    }
}

// ---------------------------------------------------------------------------
// Operations
// ---------------------------------------------------------------------------

/// The characters of `s`.
pub fn chars_of(s: &str) -> (r: Vec<char>)
    ensures
        r@ == s@,
{
    let mut chars: Vec<char> = Vec::new();
    for c in it: s.chars()
        invariant
            chars@ == it.seq().take(it.index() as int),
    {
        chars.push(c);
    }
    chars
}

/// The string with the given characters.
pub fn string_of(chars: &[char]) -> (r: String)
    ensures
        r@ == chars@,
{
    let mut text = String::new();
    let mut i: usize = 0;
    while i < chars.len()
        invariant
            i <= chars@.len(),
            text@ == chars@.take(i as int),
        decreases chars@.len() - i,
    {
        push_char(&mut text, chars[i]);
        i = i + 1;
    }
    assert(chars@.take(i as int) =~= chars@);
    text
}

/// Whether two strings hold the same characters.
pub fn same_text(a: &str, b: &str) -> (r: bool)
    ensures
        r == (a@ == b@),
{
    let left = chars_of(a);
    let right = chars_of(b);
    if left.len() != right.len() {
        return false;
    }
    let mut i: usize = 0;
    while i < left.len()
        invariant
            i <= left@.len(),
            left@.len() == right@.len(),
            left@ == a@,
            right@ == b@,
            left@.take(i as int) == right@.take(i as int),
        decreases left@.len() - i,
    {
        if left[i] != right[i] {
            assert(a@[i as int] != b@[i as int]);
            return false;
        }
        assert(left@.take(i + 1) =~= left@.take(i as int).push(left@[i as int]));
        assert(right@.take(i + 1) =~= right@.take(i as int).push(right@[i as int]));
        i = i + 1;
    }
    assert(left@.take(i as int) =~= left@);
    assert(right@.take(i as int) =~= right@);
    true
}

/// Whether `c` is white space.
pub fn space(c: char) -> (r: bool)
    ensures
        r == is_space(c),
{
    ('\u{9}' <= c && c <= '\u{d}') || c == '\u{20}' || c == '\u{85}' || c == '\u{a0}' || c
        == '\u{1680}' || ('\u{2000}' <= c && c <= '\u{200a}') || c == '\u{2028}' || c == '\u{2029}'
        || c == '\u{202f}' || c == '\u{205f}' || c == '\u{3000}'
}

/// Whether every character is white space.
pub fn blank(chars: &[char]) -> (r: bool)
    ensures
        r == is_blank(chars@),
{
    let mut i: usize = 0;
    while i < chars.len()
        invariant
            i <= chars@.len(),
            forall|j: int| 0 <= j < i ==> is_space(#[trigger] chars@[j]),
        decreases chars@.len() - i,
    {
        if !space(chars[i]) {
            return false;
        }
        i = i + 1;
    }
    true
}

/// The position at or after `from` of the first character that is no white
/// space.
pub fn skip_spaces(chars: &[char], from: usize) -> (r: usize)
    requires
        from <= chars@.len(),
    ensures
        r <= chars@.len(),
        r == from + leading_spaces(chars@.skip(from as int)),
        chars@.skip(r as int) == trim_start(chars@.skip(from as int)),
{
    let mut i: usize = from;
    while i < chars.len() && space(chars[i])
        invariant
            from <= i <= chars@.len(),
            leading_spaces(chars@.skip(from as int)) == (i - from) + leading_spaces(
                chars@.skip(i as int),
            ),
        decreases chars@.len() - i,
    {
        assert(chars@.skip(i as int).drop_first() =~= chars@.skip(i + 1));
        i = i + 1;
    }
    assert(leading_spaces(chars@.skip(i as int)) == 0);
    assert(chars@.skip(i as int) =~= trim_start(chars@.skip(from as int)));
    i
}

/// The position of the first `c` at or after `from`, or the length.
pub fn find_char(chars: &[char], from: usize, c: char) -> (r: usize)
    requires
        from <= chars@.len(),
    ensures
        r <= chars@.len(),
        r == from + index_of(chars@.skip(from as int), c),
{
    let mut i: usize = from;
    while i < chars.len() && chars[i] != c
        invariant
            from <= i <= chars@.len(),
            index_of(chars@.skip(from as int), c) == (i - from) + index_of(
                chars@.skip(i as int),
                c,
            ),
        decreases chars@.len() - i,
    {
        assert(chars@.skip(i as int).drop_first() =~= chars@.skip(i + 1));
        i = i + 1;
    }
    assert(index_of(chars@.skip(i as int), c) == 0);
    i
}

/// The position of the first character at or after `from` that is no digit.
pub fn skip_digits(chars: &[char], from: usize) -> (r: usize)
    requires
        from <= chars@.len(),
    ensures
        r <= chars@.len(),
        r == from + leading_digits(chars@.skip(from as int)),
{
    let mut i: usize = from;
    while i < chars.len() && '0' <= chars[i] && chars[i] <= '9'
        invariant
            from <= i <= chars@.len(),
            leading_digits(chars@.skip(from as int)) == (i - from) + leading_digits(
                chars@.skip(i as int),
            ),
        decreases chars@.len() - i,
    {
        assert(chars@.skip(i as int).drop_first() =~= chars@.skip(i + 1));
        i = i + 1;
    }
    assert(leading_digits(chars@.skip(i as int)) == 0);
    i
}

/// The position of the first occurrence of `pattern`.
pub fn find_text(chars: &[char], pattern: &[char]) -> (r: Option<usize>)
    ensures
        match r {
            Some(i) => find(chars@, pattern@) == Some(i as int) && i + pattern@.len()
                <= chars@.len(),
            None => find(chars@, pattern@) is None,
        },
{
    if pattern.len() > chars.len() {
        return None;
    }
    let mut i: usize = 0;
    while i <= chars.len() - pattern.len()
        invariant
            pattern@.len() <= chars@.len(),
            i <= chars@.len() - pattern@.len() + 1,
            forall|j: int| 0 <= j < i ==> !occurs_at(chars@, pattern@, j),
        decreases chars@.len() - i + 1,
    {
        if matches_at(chars, pattern, i) {
            assert(is_first_occurrence(chars@, pattern@, i as int));
            let ghost found = find(chars@, pattern@)->Some_0;
            assert(!(found < i) && !(i < found));
            return Some(i);
        }
        if i == chars.len() - pattern.len() {
            return None;
        }
        i = i + 1;
    }
    None
}

fn matches_at(chars: &[char], pattern: &[char], at: usize) -> (r: bool)
    requires
        at + pattern@.len() <= chars@.len(),
    ensures
        r == occurs_at(chars@, pattern@, at as int),
{
    let mut k: usize = 0;
    assert(chars.len() <= usize::MAX);
    while k < pattern.len()
        invariant
            k <= pattern@.len(),
            at + pattern@.len() <= chars@.len() <= usize::MAX,
            forall|j: int| 0 <= j < k ==> chars@[at + j] == #[trigger] pattern@[j],
        decreases pattern@.len() - k,
    {
        if chars[at + k] != pattern[k] {
            assert(chars@.subrange(at as int, at + pattern@.len())[k as int] != pattern@[k as int]);
            return false;
        }
        k = k + 1;
    }
    assert(chars@.subrange(at as int, at + pattern@.len()) =~= pattern@);
    true
}

/// The pieces of the text between the occurrences of `c`.
pub fn split_text(chars: &[char], c: char) -> (r: Vec<String>)
    ensures
        texts(r@) == split_on(chars@, c),
{
    let mut pieces: Vec<String> = Vec::new();
    let mut from: usize = 0;
    assert(chars@.skip(0) =~= chars@);
    assert(texts(pieces@) + split_on(chars@, c) =~= split_on(chars@, c));
    loop
        invariant
            from <= chars@.len(),
            texts(pieces@) + split_on(chars@.skip(from as int), c) == split_on(chars@, c),
        decreases chars@.len() - from,
    {
        let ghost rest = chars@.skip(from as int);
        let ghost before = texts(pieces@);
        proof {
            lemma_index_of(rest, c);
        }
        let end = find_char(chars, from, c);
        let piece = slice_subrange(chars, from, end);
        assert(piece@ =~= rest.take(index_of(rest, c) as int));
        pieces.push(string_of(piece));
        assert(texts(pieces@) =~= before.push(piece@));
        if end == chars.len() {
            assert(rest.take(index_of(rest, c) as int) =~= rest);
            assert(texts(pieces@) =~= before + split_on(rest, c));
            return pieces;
        }
        assert(chars@.skip(end + 1) =~= rest.skip(index_of(rest, c) as int + 1));
        assert(texts(pieces@) + split_on(chars@.skip(end + 1), c) =~= before + split_on(rest, c));
        from = end + 1;
    }
}

fn hex_char(d: u8) -> (r: char)
    requires
        d < 16,
    ensures
        r == hex_digit(d as nat),
{
    let digits: [char; 16] = [
        '0', '1', '2', '3', '4', '5', '6', '7', '8', '9', 'a', 'b', 'c', 'd', 'e', 'f',
    ];
    digits[d as usize]
}

fn upper_hex_char(d: u8) -> (r: char)
    requires
        d < 16,
    ensures
        r == upper_hex_digit(d as nat),
{
    let digits: [char; 16] = [
        '0', '1', '2', '3', '4', '5', '6', '7', '8', '9', 'A', 'B', 'C', 'D', 'E', 'F',
    ];
    digits[d as usize]
}

/// Append the decimal numeral of `n` to `out`.
pub fn push_decimal(out: &mut String, n: u128)
    ensures
        final(out)@ == old(out)@ + decimal(n as nat),
    decreases n,
{
    if n >= 10 {
        push_decimal(out, n / 10);
    }
    push_char(out, hex_char((n % 10) as u8));
    assert(out@ =~= old(out)@ + decimal(n as nat));
}

/// Append the last `width` decimal digits of `n` to `out`, with leading zeros.
pub fn push_padded_decimal(out: &mut String, n: u128, width: usize)
    ensures
        final(out)@ == old(out)@ + padded_decimal(n as nat, width as nat),
    decreases width,
{
    if width > 0 {
        push_padded_decimal(out, n / 10, width - 1);
        push_char(out, hex_char((n % 10) as u8));
    }
    assert(out@ =~= old(out)@ + padded_decimal(n as nat, width as nat));
}

/// Append the last `width` hexadecimal digits of `n` to `out`.
pub fn push_hexadecimal(out: &mut String, n: u64, width: usize, upper: bool)
    ensures
        final(out)@ == old(out)@ + hexadecimal(n as nat, width as nat, upper),
    decreases width,
{
    if width > 0 {
        push_hexadecimal(out, n / 16, width - 1, upper);
        let d: u8 = (n % 16) as u8;
        push_char(
            out,
            if upper {
                upper_hex_char(d)
            } else {
                hex_char(d)
            },
        );
    }
    assert(out@ =~= old(out)@ + hexadecimal(n as nat, width as nat, upper));
}

/// Read an unsigned number of at most `max`.
pub fn parse_unsigned(chars: &[char], max: u64) -> (r: Option<u64>)
    ensures
        match r {
            Some(n) => unsigned(chars@, max as nat) == Some(n as nat),
            None => unsigned(chars@, max as nat) is None,
        },
{
    let from: usize = if chars.len() > 0 && chars[0] == '+' {
        1
    } else {
        0
    };
    let digits = slice_subrange(chars, from, chars.len());
    assert(from == 1 ==> digits@ =~= chars@.drop_first());
    assert(from == 0 ==> digits@ =~= chars@);
    if digits.len() == 0 {
        return None;
    }
    let mut value: u64 = 0;
    let mut i: usize = 0;
    assert(digits@.take(0) =~= Seq::<char>::empty());
    while i < digits.len()
        invariant
            i <= digits@.len(),
            value <= max,
            value == digits_value(digits@.take(i as int)),
            forall|j: int| 0 <= j < i ==> is_digit(#[trigger] digits@[j]),
            unsigned(chars@, max as nat) == (if is_numeral(digits@) && digits_value(digits@)
                <= max {
                Some(digits_value(digits@))
            } else {
                None
            }),
        decreases digits@.len() - i,
    {
        let c = digits[i];
        if c < '0' || c > '9' {
            return None;
        }
        let d: u64 = (c as u32 - '0' as u32) as u64;
        assert(digits@.take(i + 1).drop_last() =~= digits@.take(i as int));
        assert(digits_value(digits@.take(i + 1)) == value * 10 + d);
        if d > max || value > (max - d) / 10 {
            proof {
                lemma_digits_value_grows(digits@, i + 1);
            }
            return None;
        }
        value = value * 10 + d;
        i = i + 1;
    }
    assert(digits@.take(i as int) =~= digits@);
    Some(value)
}

// ---------------------------------------------------------------------------
// Laws
// ---------------------------------------------------------------------------

/// The white space of Unicode is these twenty-five characters.
pub proof fn white_space_is_that_of_unicode(c: char)
    ensures
        is_space(c) <==> {
            let n = c as u32;
            ||| n == 0x09 || n == 0x0A || n == 0x0B || n == 0x0C || n == 0x0D
            ||| n == 0x20 || n == 0x85 || n == 0xA0 || n == 0x1680
            ||| n == 0x2000 || n == 0x2001 || n == 0x2002 || n == 0x2003 || n == 0x2004
            ||| n == 0x2005 || n == 0x2006 || n == 0x2007 || n == 0x2008 || n == 0x2009
            ||| n == 0x200A || n == 0x2028 || n == 0x2029 || n == 0x202F || n == 0x205F
            ||| n == 0x3000
        },
{
}

/// A text is blank if and only if it has no other character than white space.
pub proof fn a_blank_text_is_white_space(s: Seq<char>)
    ensures
        is_blank(Seq::<char>::empty()),
        forall|c: char| is_blank(#[trigger] s.push(c)) <==> is_blank(s) && is_space(c),
{
    assert forall|c: char| is_blank(#[trigger] s.push(c)) <==> is_blank(s) && is_space(c) by {
        let t = s.push(c);
        if is_blank(t) {
            assert(is_space(t[s.len() as int]));
            assert forall|i: int| 0 <= i < s.len() implies is_space(#[trigger] s[i]) by {
                assert(t[i] == s[i]);
            }
        }
    }
}

/// Trimming drops the white space in front and nothing else.
pub proof fn trimming_drops_the_white_space_in_front(spaces: Seq<char>, rest: Seq<char>)
    requires
        forall|i: int| 0 <= i < spaces.len() ==> is_space(#[trigger] spaces[i]),
        rest.len() > 0 ==> !is_space(rest[0]),
    ensures
        leading_spaces(spaces + rest) == spaces.len(),
        trim_start(spaces + rest) == rest,
    decreases spaces.len(),
{
    let s = spaces + rest;
    if spaces.len() == 0 {
        assert(s =~= rest);
        assert(trim_start(rest) =~= rest);
    } else {
        assert(s[0] == spaces[0]);
        assert(s.drop_first() =~= spaces.drop_first() + rest);
        trimming_drops_the_white_space_in_front(spaces.drop_first(), rest);
        assert(trim_start(s) =~= rest);
    }
}

/// The digits in front are counted up to the first other character.
pub proof fn digits_are_counted_up_to_the_first_other(digits: Seq<char>, rest: Seq<char>)
    requires
        forall|i: int| 0 <= i < digits.len() ==> '0' <= #[trigger] digits[i] <= '9',
        rest.len() > 0 ==> !('0' <= rest[0] <= '9'),
    ensures
        leading_digits(digits + rest) == digits.len(),
    decreases digits.len(),
{
    let s = digits + rest;
    if digits.len() > 0 {
        assert(s[0] == digits[0]);
        assert(s.drop_first() =~= digits.drop_first() + rest);
        digits_are_counted_up_to_the_first_other(digits.drop_first(), rest);
    }
}

/// What stands before the first `c` is found, whatever follows it.
pub proof fn the_first_place_is_found(front: Seq<char>, c: char, rest: Seq<char>)
    requires
        forall|i: int| 0 <= i < front.len() ==> #[trigger] front[i] != c,
    ensures
        index_of(front + seq![c] + rest, c) == front.len(),
        before(front + seq![c] + rest, c) == front,
        index_of(front, c) == front.len(),
        before(front, c) == front,
{
    let s = front + seq![c] + rest;
    lemma_index_of(s, c);
    lemma_index_of(front, c);
    assert(s[front.len() as int] == c);
    if index_of(s, c) < front.len() {
        assert(front[index_of(s, c) as int] == c);
    }
    assert(before(s, c) =~= front);
    assert(before(front, c) =~= front);
}

/// A pattern is found at the first place where all of its characters stand.
pub proof fn the_first_occurrence_is_found(s: Seq<char>, pattern: Seq<char>, i: int)
    requires
        0 <= i <= s.len() - pattern.len(),
        forall|k: int| 0 <= k < pattern.len() ==> #[trigger] pattern[k] == s[i + k],
        forall|j: int| 0 <= j < i ==> #[trigger] s.subrange(j, j + pattern.len()) != pattern,
    ensures
        find(s, pattern) == Some(i),
{
    assert(s.subrange(i, i + pattern.len()) =~= pattern);
    assert forall|j: int| 0 <= j < i implies !occurs_at(s, pattern, j) by {
        assert(s.subrange(j, j + pattern.len()) != pattern);
    }
    assert(is_first_occurrence(s, pattern, i));
    let found = find(s, pattern)->Some_0;
    assert(is_first_occurrence(s, pattern, found));
    assert(!(found < i) && !(i < found));
}

/// A pattern is found only where all of its characters stand.
pub proof fn only_occurrences_are_found(s: Seq<char>, pattern: Seq<char>)
    ensures
        match find(s, pattern) {
            Some(i) => 0 <= i <= s.len() - pattern.len() && forall|k: int|
                0 <= k < pattern.len() ==> #[trigger] pattern[k] == s[i + k],
            None => forall|j: int|
                0 <= j <= s.len() - pattern.len() ==> #[trigger] s.subrange(j, j + pattern.len())
                    != pattern,
        },
{
    if let Some(i) = find(s, pattern) {
        assert(is_first_occurrence(s, pattern, i));
        let here = s.subrange(i, i + pattern.len());
        assert forall|k: int| 0 <= k < pattern.len() implies #[trigger] pattern[k] == s[i + k] by {
            assert(here[k] == s[i + k]);
        }
    } else {
        assert forall|j: int| 0 <= j <= s.len() - pattern.len() implies #[trigger] s.subrange(
            j,
            j + pattern.len(),
        ) != pattern by {
            if occurs_at(s, pattern, j) {
                lemma_some_first(s, pattern, j);
            }
        }
    }
}

proof fn lemma_some_first(s: Seq<char>, pattern: Seq<char>, j: int)
    requires
        occurs_at(s, pattern, j),
    ensures
        exists|i: int| is_first_occurrence(s, pattern, i),
    decreases j,
{
    if is_first_occurrence(s, pattern, j) {
    } else {
        let k = choose|k: int| 0 <= k < j && occurs_at(s, pattern, k);
        lemma_some_first(s, pattern, k);
    }
}

/// Pieces of text with a character between them.
pub open spec fn joined(pieces: Seq<Seq<char>>, c: char) -> Seq<char>
    decreases pieces.len(),
{
    if pieces.len() == 0 {
        Seq::empty()
    } else if pieces.len() == 1 {
        pieces[0]
    } else {
        pieces[0] + seq![c] + joined(pieces.drop_first(), c)
    }
}

/// Splitting undoes joining: however many pieces there are, all of them come
/// back, in order.
pub proof fn splitting_undoes_joining(pieces: Seq<Seq<char>>, c: char)
    requires
        pieces.len() > 0,
        forall|p: int, i: int|
            0 <= p < pieces.len() && 0 <= i < pieces[p].len() ==> #[trigger] pieces[p][i] != c,
    ensures
        split_on(joined(pieces, c), c) == pieces,
    decreases pieces.len(),
{
    let first = pieces[0];
    if pieces.len() == 1 {
        the_first_place_is_found(first, c, Seq::empty());
        assert(split_on(first, c) =~= pieces);
    } else {
        let others = pieces.drop_first();
        let rest = joined(others, c);
        let s = joined(pieces, c);
        assert forall|p: int, i: int|
            0 <= p < others.len() && 0 <= i < others[p].len() implies #[trigger] others[p][i]
            != c by {
            assert(others[p] == pieces[p + 1]);
            assert(pieces[p + 1][i] != c);
        }
        splitting_undoes_joining(others, c);
        the_first_place_is_found(first, c, rest);
        assert(s.take(first.len() as int) =~= first);
        assert(s.skip(first.len() as int + 1) =~= rest);
        assert(split_on(s, c) =~= pieces);
    }
}

/// The value of digits counts ten times what stands before the last one.
pub proof fn digits_count_by_tens(s: Seq<char>, c: char)
    requires
        '0' <= c <= '9',
    ensures
        digits_value(Seq::<char>::empty()) == 0,
        digits_value(s.push(c)) == 10 * digits_value(s) + (c as int - 0x30),
{
    assert(s.push(c).drop_last() =~= s);
}

/// A decimal numeral has digits only, the value of its number, and no zero in
/// front unless it is the numeral of zero.
pub proof fn decimals_have_no_leading_zero(n: nat)
    ensures
        decimal(n).len() > 0,
        forall|i: int| 0 <= i < decimal(n).len() ==> '0' <= #[trigger] decimal(n)[i] <= '9',
        digits_value(decimal(n)) == n,
        n > 0 ==> decimal(n)[0] != '0',
        n == 0 ==> decimal(n) == seq!['0'],
    decreases n,
{
    lemma_decimal(n);
    assert forall|i: int| 0 <= i < decimal(n).len() implies '0' <= #[trigger] decimal(n)[i]
        <= '9' by {
        assert(is_digit(decimal(n)[i]));
    }
    if n >= 10 {
        decimals_have_no_leading_zero(n / 10);
    }
}

/// A number is read from digits with at most one plus sign in front, by their
/// value, and from nothing else.
pub proof fn numbers_are_read_by_their_digits(digits: Seq<char>, max: nat)
    requires
        digits.len() > 0,
        forall|i: int| 0 <= i < digits.len() ==> '0' <= #[trigger] digits[i] <= '9',
    ensures
        unsigned(digits, max) == (if digits_value(digits) <= max {
            Some(digits_value(digits))
        } else {
            None
        }),
        unsigned(seq!['+'] + digits, max) == unsigned(digits, max),
{
    assert(digits[0] != '+');
    assert((seq!['+'] + digits).drop_first() =~= digits);
}

/// What is no such numeral is not read as a number.
pub proof fn other_texts_are_no_numbers(s: Seq<char>, max: nat)
    ensures
        unsigned(s, max) matches Some(n) ==> n <= max && s.len() > 0 && (forall|i: int|
            0 < i < s.len() ==> '0' <= #[trigger] s[i] <= '9') && ('0' <= s[0] <= '9' || (s[0]
            == '+' && s.len() > 1)),
{
    if unsigned(s, max) is Some {
        if s[0] == '+' {
            let digits = s.drop_first();
            assert forall|i: int| 0 < i < s.len() implies '0' <= #[trigger] s[i] <= '9' by {
                assert(is_digit(digits[i - 1]));
            }
        } else {
            assert(is_digit(s[0]));
            assert forall|i: int| 0 < i < s.len() implies '0' <= #[trigger] s[i] <= '9' by {
                assert(is_digit(s[i]));
            }
        }
    }
}

/// The value of a hexadecimal digit, and of no other character.
pub open spec fn hex_digit_value(c: char) -> Option<int> {
    if '0' <= c <= '9' {
        Some(c as int - 0x30)
    } else if 'a' <= c <= 'f' {
        Some(c as int - 0x61 + 10)
    } else if 'A' <= c <= 'F' {
        Some(c as int - 0x41 + 10)
    } else {
        None
    }
}

/// A hexadecimal numeral shows its number digit by digit, the last digit
/// being the lowest, with capital letters only if they are asked for.
pub proof fn hexadecimals_show_every_digit(n: nat, width: nat, upper: bool, i: int)
    requires
        0 <= i < width,
    ensures
        hexadecimal(n, width, upper).len() == width,
        hex_digit_value(hexadecimal(n, width, upper)[width - 1 - i]) == Some(
            n as int / vstd::arithmetic::power::pow(16, i as nat) % 16,
        ),
        ({
            let c = hexadecimal(n, width, upper)[width - 1 - i];
            if upper {
                !('a' <= c <= 'f')
            } else {
                !('A' <= c <= 'F')
            }
        }),
    decreases width,
{
    lemma_hexadecimal_len(n, width, upper);
    if i == 0 {
        vstd::arithmetic::power::lemma_pow0(16);
        let d = n % 16;
        assert(hexadecimal(n, width, upper).last() == (if upper {
            upper_hex_digit(d)
        } else {
            hex_digit(d)
        }));
        lemma_hex_digits(d);
    } else {
        hexadecimals_show_every_digit(n / 16, (width - 1) as nat, upper, i - 1);
        lemma_hexadecimal_len(n / 16, (width - 1) as nat, upper);
        let p = vstd::arithmetic::power::pow(16, (i - 1) as nat);
        vstd::arithmetic::power::lemma_pow_positive(16, (i - 1) as nat);
        vstd::arithmetic::power::lemma_pow1(16);
        vstd::arithmetic::power::lemma_pow_adds(16, 1, (i - 1) as nat);
        vstd::arithmetic::div_mod::lemma_div_denominator(n as int, 16, p);
        assert(hexadecimal(n, width, upper)[width - 1 - i] == hexadecimal(
            n / 16,
            (width - 1) as nat,
            upper,
        )[width - 2 - (i - 1)]);
    }
}

proof fn lemma_hexadecimal_len(n: nat, width: nat, upper: bool)
    ensures
        hexadecimal(n, width, upper).len() == width,
    decreases width,
{
    if width > 0 {
        lemma_hexadecimal_len(n / 16, (width - 1) as nat, upper);
    }
}

proof fn lemma_hex_digits(d: nat)
    requires
        d < 16,
    ensures
        hex_digit_value(hex_digit(d)) == Some(d as int),
        hex_digit_value(upper_hex_digit(d)) == Some(d as int),
        !('A' <= hex_digit(d) <= 'F'),
        !('a' <= upper_hex_digit(d) <= 'f'),
{
}

/// A padded numeral has as many digits as asked for, and the value of its
/// number if that many suffice.
pub proof fn padded_decimals_keep_the_value(n: nat, width: nat)
    requires
        n < vstd::arithmetic::power::pow(10, width),
    ensures
        padded_decimal(n, width).len() == width,
        forall|i: int| 0 <= i < width ==> '0' <= #[trigger] padded_decimal(n, width)[i] <= '9',
        digits_value(padded_decimal(n, width)) == n,
    decreases width,
{
    if width == 0 {
        vstd::arithmetic::power::lemma_pow0(10);
    } else {
        vstd::arithmetic::power::lemma_pow1(10);
        vstd::arithmetic::power::lemma_pow_adds(10, 1, (width - 1) as nat);
        padded_decimals_keep_the_value(n / 10, (width - 1) as nat);
        digits_count_by_tens(padded_decimal(n / 10, (width - 1) as nat), hex_digit(n % 10));
    }
}

/// The texts of strings are all of them, one by one and in order.
pub proof fn all_strings_have_their_text(strings: Seq<String>)
    ensures
        texts(strings).len() == strings.len(),
        forall|i: int| 0 <= i < strings.len() ==> #[trigger] texts(strings)[i] == strings[i]@,
{
}

} // verus!
