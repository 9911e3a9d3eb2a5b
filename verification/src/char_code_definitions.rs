//! Code-unit classification for the CSS syntax grammar.
//!
//! The spec functions are stated over unbounded integers so that the same
//! definitions serve both the 8-bit classifiers below and the 16-bit
//! tokenizer in `parser`.

use vstd::prelude::*;

verus! {

pub const EOF_CATEGORY: u8 = 0x80;

pub const WHITE_SPACE_CATEGORY: u8 = 0x82;

pub const DIGIT_CATEGORY: u8 = 0x83;

pub const NAME_START_CATEGORY: u8 = 0x84;

pub const NON_PRINTABLE_CATEGORY: u8 = 0x85;

/// A code point between U+0030 DIGIT ZERO and U+0039 DIGIT NINE.
pub open spec fn is_digit_spec(code: int) -> bool {
    0x30 <= code <= 0x39
}

/// A digit, or a code point in U+0041..U+0046 (A-F) or U+0061..U+0066 (a-f).
pub open spec fn is_hex_digit_spec(code: int) -> bool {
    is_digit_spec(code) || (0x41 <= code <= 0x46) || (0x61 <= code <= 0x66)
}

/// A code point between U+0041 (A) and U+005A (Z).
pub open spec fn is_uppercase_letter_spec(code: int) -> bool {
    0x41 <= code <= 0x5A
}

/// A code point between U+0061 (a) and U+007A (z).
pub open spec fn is_lowercase_letter_spec(code: int) -> bool {
    0x61 <= code <= 0x7A
}

/// An uppercase letter or a lowercase letter.
pub open spec fn is_letter_spec(code: int) -> bool {
    is_uppercase_letter_spec(code) || is_lowercase_letter_spec(code)
}

/// A code point with a value equal to or greater than U+0080.
pub open spec fn is_non_ascii_spec(code: int) -> bool {
    code >= 0x80
}

/// A letter, a non-ASCII code point, or U+005F LOW LINE (_).
pub open spec fn is_name_start_spec(code: int) -> bool {
    is_letter_spec(code) || is_non_ascii_spec(code) || code == 0x5F
}

/// A name-start code point, a digit, or U+002D HYPHEN-MINUS (-).
pub open spec fn is_name_spec(code: int) -> bool {
    is_name_start_spec(code) || is_digit_spec(code) || code == 0x2D
}

/// A code point in U+0000..U+0008, U+000B, U+000E..U+001F, or U+007F.
pub open spec fn is_non_printable_spec(code: int) -> bool {
    code <= 0x08 || code == 0x0B || (0x0E <= code <= 0x1F) || code == 0x7F
}

/// U+000A LINE FEED, with U+000D CR and U+000C FF treated alike for
/// preprocessing equivalence.
pub open spec fn is_newline_spec(code: int) -> bool {
    code == 0x0A || code == 0x0D || code == 0x0C
}

/// A newline, U+0009 CHARACTER TABULATION, or U+0020 SPACE.
pub open spec fn is_white_space_spec(code: int) -> bool {
    is_newline_spec(code) || code == 0x09 || code == 0x20
}

/// Two code points form a valid escape when the first is U+005C REVERSE
/// SOLIDUS and the second is neither a newline nor EOF (0).
pub open spec fn is_valid_escape_spec(first: int, second: int) -> bool {
    first == 0x5C && !is_newline_spec(second) && second != 0
}

/// Whether three code points would start an identifier.
pub open spec fn is_identifier_start_spec(first: int, second: int, third: int) -> bool {
    if first == 0x2D {
        is_name_start_spec(second) || second == 0x2D || is_valid_escape_spec(second, third)
    } else if is_name_start_spec(first) {
        true
    } else if first == 0x5C {
        is_valid_escape_spec(first, second)
    } else {
        false
    }
}

/// Whether three code points would start a number.
pub open spec fn is_number_start_spec(first: int, second: int, third: int) -> bool {
    if first == 0x2B || first == 0x2D {
        if is_digit_spec(second) {
            true
        } else {
            second == 0x2E && is_digit_spec(third)
        }
    } else if first == 0x2E {
        is_digit_spec(second)
    } else {
        is_digit_spec(first)
    }
}

/// The syntactic category of a code unit: EOF, whitespace, digit,
/// name-start or non-printable are collapsed onto marker values above
/// 0x7F; every other code below 0x80 is its own category.
pub open spec fn char_code_category_spec(code: int) -> int {
    if code == 0 {
        EOF_CATEGORY as int
    } else if is_non_ascii_spec(code) {
        NAME_START_CATEGORY as int
    } else if is_white_space_spec(code) {
        WHITE_SPACE_CATEGORY as int
    } else if is_digit_spec(code) {
        DIGIT_CATEGORY as int
    } else if is_name_start_spec(code) {
        NAME_START_CATEGORY as int
    } else if is_non_printable_spec(code) {
        NON_PRINTABLE_CATEGORY as int
    } else {
        code
    }
}

pub fn is_digit(code: u8) -> (r: bool)
    ensures
        r == is_digit_spec(code as int),
{
    (code >= 0x30) && (code <= 0x39)
}

pub fn is_hex_digit(code: u8) -> (r: bool)
    ensures
        r == is_hex_digit_spec(code as int),
{
    is_digit(code) || ((code >= 0x41) && (code <= 0x46)) || ((code >= 0x61) && (code <= 0x66))
}

pub fn is_uppercase_letter(code: u8) -> (r: bool)
    ensures
        r == is_uppercase_letter_spec(code as int),
{
    (code >= 0x41) && (code <= 0x5A)
}

pub fn is_lowercase_letter(code: u8) -> (r: bool)
    ensures
        r == is_lowercase_letter_spec(code as int),
{
    (code >= 0x61) && (code <= 0x7A)
}

pub fn is_letter(code: u8) -> (r: bool)
    ensures
        r == is_letter_spec(code as int),
{
    is_uppercase_letter(code) || is_lowercase_letter(code)
}

pub fn is_non_ascii(code: u8) -> (r: bool)
    ensures
        r == is_non_ascii_spec(code as int),
{
    code >= 0x80
}

pub fn is_name_start(code: u8) -> (r: bool)
    ensures
        r == is_name_start_spec(code as int),
{
    is_letter(code) || is_non_ascii(code) || code == 0x5F
}

pub fn is_name(code: u8) -> (r: bool)
    ensures
        r == is_name_spec(code as int),
{
    is_name_start(code) || is_digit(code) || code == 0x2D
}

pub fn is_non_printable(code: u8) -> (r: bool)
    ensures
        r == is_non_printable_spec(code as int),
{
    (code <= 0x08) || (code == 0x0B) || ((code >= 0x0E) && (code <= 0x1F)) || (code == 0x7F)
}

pub fn is_newline(code: u8) -> (r: bool)
    ensures
        r == is_newline_spec(code as int),
{
    (code == 0x0A) || (code == 0x0D) || (code == 0x0C)
}

pub fn is_white_space(code: u8) -> (r: bool)
    ensures
        r == is_white_space_spec(code as int),
{
    is_newline(code) || code == 0x09 || code == 0x20
}

pub fn is_valid_escape(first: u8, second: u8) -> (r: bool)
    ensures
        r == is_valid_escape_spec(first as int, second as int),
{
    (first == 0x5C) && !is_newline(second) && (second != 0)
}

/// The number of leading code units to skip when the buffer opens with a
/// byte-order mark: 3 in this 8-bit UTF-8 form, also when the mark is the
/// whole buffer.
pub open spec fn start_offset_spec(source: Seq<u8>) -> int {
    if source.len() >= 3 && source[0] == 0xEF && ((source[1] == 0xBB && source[2] == 0xBF) || (
    source[1] == 0xBF && source[2] == 0xBE)) {
        3
    } else {
        0
    }
}

pub fn get_start_offset(source: &[u8]) -> (r: usize)
    ensures
        r as int == start_offset_spec(source@),
{
    if source.len() >= 3 && source[0] == 0xEF && ((source[1] == 0xBB && source[2] == 0xBF) || (
    source[1] == 0xBF && source[2] == 0xBE)) {
        3
    } else {
        0
    }
}

pub fn is_identifier_start(first: u8, second: u8, third: u8) -> (r: bool)
    ensures
        r == is_identifier_start_spec(first as int, second as int, third as int),
{
    if first == 0x2D {
        is_name_start(second) || (second == 0x2D) || is_valid_escape(second, third)
    } else if is_name_start(first) {
        true
    } else if first == 0x5C {
        is_valid_escape(first, second)
    } else {
        false
    }
}

pub fn is_number_start(first: u8, second: u8, third: u8) -> (r: bool)
    ensures
        r == is_number_start_spec(first as int, second as int, third as int),
{
    if first == 0x2B || first == 0x2D {
        if is_digit(second) {
            true
        } else {
            (second == 0x2E) && is_digit(third)
        }
    } else if first == 0x2E {
        is_digit(second)
    } else {
        is_digit(first)
    }
}

pub fn char_code_category(char_code: u8) -> (r: u8)
    ensures
        r as int == char_code_category_spec(char_code as int),
{
    if char_code == 0 {
        EOF_CATEGORY
    } else if char_code >= 0x80 {
        NAME_START_CATEGORY
    } else if is_white_space(char_code) {
        WHITE_SPACE_CATEGORY
    } else if is_digit(char_code) {
        DIGIT_CATEGORY
    } else if is_name_start(char_code) {
        NAME_START_CATEGORY
    } else if is_non_printable(char_code) {
        NON_PRINTABLE_CATEGORY
    } else {
        char_code
    }
}

/// Case-insensitive match of the code unit at `offset` against a lowercase
/// reference code, reported as 1 for a match and 0 otherwise.
pub fn cmp_char(test_str: &[u8], test_str_length: usize, offset: usize, reference_code: u8) -> (r:
    usize)
    requires
        test_str_length <= test_str.len(),
    ensures
        r == (if offset < test_str_length && (test_str@[offset as int] == reference_code || (
        is_uppercase_letter_spec(test_str@[offset as int] as int) && (test_str@[offset as int]
            | 32) == reference_code)) {
            1int
        } else {
            0int
        }),
{
    if offset < test_str_length {
        let code = test_str[offset];
        if code == reference_code || (is_uppercase_letter(code) && ((code | 32)
            == reference_code)) {
            1
        } else {
            0
        }
    } else {
        0
    }
}

pub fn get_char_code(source: &[u8], offset: usize) -> (r: u8)
    ensures
        r == (if offset < source@.len() {
            source@[offset as int]
        } else {
            0
        }),
{
    if offset < source.len() {
        source[offset]
    } else {
        0
    }
}

pub fn get_new_line_length(source: &[u8], offset: usize, code: u8) -> (r: usize)
    requires
        offset < usize::MAX,
    ensures
        r == (if code == 13 && offset + 1 < source@.len() && source@[offset as int + 1] == 10 {
            2int
        } else {
            1int
        }),
{
    if code == 13 && get_char_code(source, offset + 1) == 10 {
        2
    } else {
        1
    }
}

} // verus!
