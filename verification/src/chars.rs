use vstd::prelude::*;

verus! {

// Character classes.
//
// Element symbols and digit runs are ASCII by construction, so the classes
// are stated over code points.
/// True of an ASCII uppercase letter `A`..=`Z`.
pub open spec fn is_upper(c: char) -> bool {
    65 <= c as u32 && c as u32 <= 90
}

/// True of an ASCII lowercase letter `a`..=`z`.
pub open spec fn is_lower(c: char) -> bool {
    97 <= c as u32 && c as u32 <= 122
}

/// True of an ASCII decimal digit `0`..=`9`.
pub open spec fn is_digit(c: char) -> bool {
    48 <= c as u32 && c as u32 <= 57
}

/// The numeric value of a decimal digit character.
pub open spec fn digit_val(c: char) -> int {
    c as u32 - 48
}

/// Decides [`is_upper`].
pub fn upper(c: char) -> (b: bool)
    ensures
        b == is_upper(c),
{
    let u = c as u32;
    65 <= u && u <= 90
}

/// Decides [`is_lower`].
pub fn lower(c: char) -> (b: bool)
    ensures
        b == is_lower(c),
{
    let u = c as u32;
    97 <= u && u <= 122
}

/// Decides [`is_digit`].
pub fn digit(c: char) -> (b: bool)
    ensures
        b == is_digit(c),
{
    let u = c as u32;
    48 <= u && u <= 57
}

/// The numeric value of a decimal digit character.
pub fn digit_value(c: char) -> (d: u32)
    requires
        is_digit(c),
    ensures
        d == digit_val(c),
{
    c as u32 - 48
}

// Byte offsets.
//
// Spans are measured in source bytes, not characters, so positions in the
// character sequence are translated through the width of each character's
// UTF-8 encoding.
/// The number of bytes in the UTF-8 encoding of `c`.
pub open spec fn char_len(c: char) -> int {
    if (c as u32) < 0x80 {
        1
    } else if (c as u32) < 0x800 {
        2
    } else if (c as u32) < 0x10000 {
        3
    } else {
        4
    }
}

/// The byte offset of character position `i` in `s`: the summed UTF-8
/// widths of the characters before it.
pub open spec fn byte_off(s: Seq<char>, i: int) -> int
    decreases i,
{
    if i <= 0 {
        0
    } else {
        byte_off(s, i - 1) + char_len(s[i - 1])
    }
}

/// Byte offsets grow strictly with the character position.
pub proof fn lemma_byte_off_le(s: Seq<char>, i: int, j: int)
    requires
        0 <= i <= j,
    ensures
        byte_off(s, i) <= byte_off(s, j),
        i < j ==> byte_off(s, i) + 1 <= byte_off(s, j),
    decreases j - i,
{
    if i < j {
        lemma_byte_off_le(s, i, j - 1);
    }
}

/// Computes [`char_len`] from the code point.
pub fn char_width(c: char) -> (w: usize)
    ensures
        w == char_len(c),
{
    let u = c as u32;
    if u < 0x80 {
        1
    } else if u < 0x800 {
        2
    } else if u < 0x10000 {
        3
    } else {
        4
    }
}

/// The width this module assigns to a character is exactly the length of
/// its UTF-8 encoding, as vstd's UTF-8 model defines it.
pub proof fn lemma_char_len_is_utf8_width(c: char)
    ensures
        char_len(c) == vstd::utf8::encode_scalar(c as u32).len(),
{
    vstd::utf8::char_is_scalar(c);
}

/// Decomposes a byte offset at the front: dropping the first character
/// shifts every offset left by that character's width.
proof fn lemma_byte_off_drop_first(s: Seq<char>, i: int)
    requires
        1 <= i <= s.len(),
    ensures
        byte_off(s, i) == char_len(s[0]) + byte_off(s.drop_first(), i - 1),
    decreases i,
{
    if i > 1 {
        lemma_byte_off_drop_first(s, i - 1);
        assert(s.drop_first()[i - 2] == s[i - 1]);
        assert(byte_off(s.drop_first(), i - 1) == byte_off(s.drop_first(), i - 2) + char_len(
            s.drop_first()[i - 2],
        ));
    } else {
        assert(byte_off(s, 1) == byte_off(s, 0) + char_len(s[0]));
        assert(byte_off(s, 0) == 0);
        assert(byte_off(s.drop_first(), 0) == 0);
    }
}

/// Byte offsets measure real bytes: the offset of the end of `s` is the
/// length of the UTF-8 encoding of `s`, as vstd's UTF-8 model defines it.
pub proof fn lemma_byte_off_is_utf8_len(s: Seq<char>)
    ensures
        byte_off(s, s.len() as int) == vstd::utf8::encode_utf8(s).len(),
    decreases s.len(),
{
    if s.len() > 0 {
        lemma_byte_off_is_utf8_len(s.drop_first());
        lemma_char_len_is_utf8_width(s[0]);
        lemma_byte_off_drop_first(s, s.len() as int);
    }
}

// Digit runs.
/// The first position at or after `i` in `s` that does not hold a decimal
/// digit (or the end of `s`).
pub open spec fn digit_run_end(s: Seq<char>, i: int) -> int
    decreases s.len() - i,
{
    if i < 0 || i >= s.len() {
        i
    } else if is_digit(s[i]) {
        digit_run_end(s, i + 1)
    } else {
        i
    }
}

/// The first position at or after `i` in `s` that does not hold an ASCII
/// lowercase letter (or the end of `s`).
pub open spec fn lower_run_end(s: Seq<char>, i: int) -> int
    decreases s.len() - i,
{
    if i < 0 || i >= s.len() {
        i
    } else if is_lower(s[i]) {
        lower_run_end(s, i + 1)
    } else {
        i
    }
}

/// What [`digit_run_end`] returns: the end of the maximal digit run at `i`.
pub proof fn lemma_digit_run_end(s: Seq<char>, i: int)
    requires
        0 <= i <= s.len(),
    ensures
        i <= digit_run_end(s, i) <= s.len(),
        forall|k: int| i <= k < digit_run_end(s, i) ==> is_digit(#[trigger] s[k]),
        digit_run_end(s, i) < s.len() ==> !is_digit(s[digit_run_end(s, i)]),
    decreases s.len() - i,
{
    if i < s.len() && is_digit(s[i]) {
        lemma_digit_run_end(s, i + 1);
    }
}

/// What [`lower_run_end`] returns: the end of the maximal lowercase run at
/// `i`.
pub proof fn lemma_lower_run_end(s: Seq<char>, i: int)
    requires
        0 <= i <= s.len(),
    ensures
        i <= lower_run_end(s, i) <= s.len(),
        forall|k: int| i <= k < lower_run_end(s, i) ==> is_lower(#[trigger] s[k]),
        lower_run_end(s, i) < s.len() ==> !is_lower(s[lower_run_end(s, i)]),
    decreases s.len() - i,
{
    if i < s.len() && is_lower(s[i]) {
        lemma_lower_run_end(s, i + 1);
    }
}

/// The base-10 value of the digit characters `s[i..j)`. An empty run has
/// value zero.
pub open spec fn digits_val(s: Seq<char>, i: int, j: int) -> int
    decreases j - i,
{
    if j <= i {
        0
    } else {
        digits_val(s, i, j - 1) * 10 + digit_val(s[j - 1])
    }
}

/// True when every character of `s[i..j)` is a decimal digit.
pub open spec fn all_digits(s: Seq<char>, i: int, j: int) -> bool {
    forall|k: int| i <= k < j ==> is_digit(#[trigger] s[k])
}

// Machine limits.
//
// The notation itself puts no upper bound on a repetition count or an
// explicit bond order, and a source string can in principle be longer in
// bytes than a `usize` can count. The executable parser works in `usize`
// arithmetic, so its contract asks callers for the bounds that the machine
// forces; they hold of any source a program can actually hand over.
/// Every run of decimal digits in `s` names a value that fits in `usize`.
pub open spec fn digit_runs_fit(s: Seq<char>) -> bool {
    forall|i: int, j: int|
        0 <= i <= j <= s.len() && all_digits(s, i, j) ==> (#[trigger] digits_val(s, i, j))
            <= usize::MAX
}

/// The byte length of `s` fits in `usize`.
pub open spec fn byte_len_fits(s: Seq<char>) -> bool {
    byte_off(s, s.len() as int) <= usize::MAX
}

} // verus!
