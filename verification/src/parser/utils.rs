//! Shared consume helpers of the tokenizer, each an exact implementation of
//! a recursive specification over the code-unit sequence.

use crate::char_code_definitions::{
    is_digit_spec, is_hex_digit_spec, is_name_spec, is_newline_spec, is_uppercase_letter_spec,
    is_valid_escape_spec, is_white_space_spec,
};
use vstd::prelude::*;

verus! {

/// The code unit at `off`, or 0 (EOF) past the end of the buffer.
pub open spec fn code_unit_at(s: Seq<u16>, off: int) -> u16 {
    if 0 <= off < s.len() {
        s[off]
    } else {
        0
    }
}

/// How many code units the newline starting at `off` spans: 2 for a CR LF
/// pair, 1 otherwise.
pub open spec fn new_line_length_spec(s: Seq<u16>, off: int, code: int) -> int {
    if code == 13 && code_unit_at(s, off + 1) == 10 {
        2
    } else {
        1
    }
}

/// The code unit lowered to its lowercase form when it is an ASCII
/// uppercase letter.
pub open spec fn to_lower_spec(c: u16) -> u16 {
    if is_uppercase_letter_spec(c as int) {
        c | 32
    } else {
        c
    }
}

/// Case-insensitive equality of `s[start..end]` against a lowercase
/// reference sequence.
pub open spec fn cmp_str_spec(s: Seq<u16>, start: int, end: int, reference: Seq<u16>) -> bool {
    &&& end - start == reference.len()
    &&& end <= s.len()
    &&& forall|i: int| 0 <= i < reference.len() ==> to_lower_spec(s[start + i]) == reference[i]
}

/// First offset at or after `off` whose code unit is not whitespace.
pub open spec fn find_white_space_end_spec(s: Seq<u16>, off: int) -> int
    decreases s.len() - off,
{
    if 0 <= off < s.len() && is_white_space_spec(s[off] as int) {
        find_white_space_end_spec(s, off + 1)
    } else {
        off
    }
}

/// First offset at or after `off` whose code unit is not a decimal digit.
pub open spec fn find_decimal_number_end_spec(s: Seq<u16>, off: int) -> int
    decreases s.len() - off,
{
    if 0 <= off < s.len() && is_digit_spec(s[off] as int) {
        find_decimal_number_end_spec(s, off + 1)
    } else {
        off
    }
}

/// First offset at or after `off`, but below `max`, whose code unit is not
/// a hex digit.
pub open spec fn hex_digits_end_spec(s: Seq<u16>, off: int, max: int) -> int
    decreases max - off,
{
    if off < max && is_hex_digit_spec(code_unit_at(s, off) as int) {
        hex_digits_end_spec(s, off + 1, max)
    } else {
        off
    }
}

/// End offset of an escaped code point whose backslash stands at `off`:
/// up to six hex digits plus one following whitespace step, or a single
/// code unit.
pub open spec fn consume_escaped_spec(s: Seq<u16>, off: int) -> int {
    let off2 = off + 2;
    if is_hex_digit_spec(code_unit_at(s, off2 - 1) as int) {
        let max = if off2 + 5 < s.len() {
            off2 + 5
        } else {
            s.len() as int
        };
        let h = hex_digits_end_spec(s, off2, max);
        let c = code_unit_at(s, h);
        if is_white_space_spec(c as int) {
            h + new_line_length_spec(s, h, c as int)
        } else {
            h
        }
    } else {
        off2
    }
}

/// End offset of the name (ident characters and valid escapes) starting
/// at `off`.
pub open spec fn consume_name_spec(s: Seq<u16>, off: int) -> int
    decreases s.len() - off,
{
    if 0 <= off < s.len() {
        let code = s[off];
        if is_name_spec(code as int) {
            consume_name_spec(s, off + 1)
        } else if is_valid_escape_spec(code as int, code_unit_at(s, off + 1) as int) {
            let e = consume_escaped_spec(s, off);
            if off < e <= s.len() {
                consume_name_spec(s, e)
            } else {
                off
            }
        } else {
            off
        }
    } else {
        off
    }
}

/// Case-insensitive match of the code unit at `off` against a lowercase
/// reference code, with EOF never matching.
pub open spec fn cmp_char_at_spec(s: Seq<u16>, off: int, reference: u16) -> bool {
    0 <= off < s.len() && (s[off] == reference || (is_uppercase_letter_spec(s[off] as int) && (
    s[off] | 32) == reference))
}

/// End offset of the numeric text (sign, digits, fraction, exponent)
/// starting at `off`.
pub open spec fn consume_number_spec(s: Seq<u16>, off: int) -> int {
    if 0 <= off < s.len() {
        let o1 = if s[off] == 0x2B || s[off] == 0x2D {
            off + 1
        } else {
            off
        };
        let o3 = if o1 < s.len() {
            let o2 = if is_digit_spec(s[o1] as int) {
                find_decimal_number_end_spec(s, o1 + 1)
            } else {
                o1
            };
            if o2 + 1 < s.len() && s[o2] == 0x2E && is_digit_spec(s[o2 + 1] as int) {
                find_decimal_number_end_spec(s, o2 + 2)
            } else {
                o2
            }
        } else {
            o1
        };
        if cmp_char_at_spec(s, o3, 101) {
            if o3 + 1 < s.len() {
                let c1 = s[o3 + 1];
                if c1 == 0x2D || c1 == 0x2B {
                    if o3 + 2 < s.len() && is_digit_spec(s[o3 + 2] as int) {
                        find_decimal_number_end_spec(s, o3 + 3)
                    } else {
                        o3
                    }
                } else if is_digit_spec(c1 as int) {
                    find_decimal_number_end_spec(s, o3 + 2)
                } else {
                    o3
                }
            } else {
                o3
            }
        } else {
            o3
        }
    } else {
        off
    }
}

/// End offset of bad-url recovery from `off`: everything through the first
/// unescaped right parenthesis, or to the end of the input.
pub open spec fn consume_bad_url_remnants_spec(s: Seq<u16>, off: int) -> int
    decreases s.len() - off,
{
    if 0 <= off < s.len() {
        let code = s[off];
        if code == 0x29 {
            off + 1
        } else {
            let e = if is_valid_escape_spec(code as int, code_unit_at(s, off + 1) as int) {
                consume_escaped_spec(s, off)
            } else {
                off
            };
            if off <= e && e + 1 <= s.len() {
                consume_bad_url_remnants_spec(s, e + 1)
            } else {
                e + 1
            }
        }
    } else {
        off
    }
}

/// The 8-bit buffer seen as 16-bit code units, one for one. All
/// classification depends only on the numeric value of a code unit, so
/// the widened buffer tokenizes exactly as the byte buffer does, with the
/// same offsets.
pub open spec fn widen_spec(b: Seq<u8>) -> Seq<u16> {
    Seq::new(b.len(), |i: int| b[i] as u16)
}

pub fn widen(source: &[u8]) -> (r: Vec<u16>)
    ensures
        r@ == widen_spec(source@),
{
    let mut out: Vec<u16> = Vec::new();
    let mut i: usize = 0;
    while i < source.len()
        invariant
            i <= source.len(),
            out@.len() == i,
            forall|j: int| 0 <= j < i ==> out@[j] == source@[j] as u16,
        decreases source.len() - i,
    {
        out.push(source[i] as u16);
        i += 1;
    }
    proof {
        assert(out@ =~= widen_spec(source@));
    }
    out
}

pub(crate) fn code_unit(source: &[u16], offset: usize) -> (r: u16)
    ensures
        r == code_unit_at(source@, offset as int),
{
    if offset < source.len() {
        source[offset]
    } else {
        0
    }
}

pub(crate) fn is_digit16(code: u16) -> (r: bool)
    ensures
        r == is_digit_spec(code as int),
{
    (code >= 0x30) && (code <= 0x39)
}

pub(crate) fn is_hex_digit16(code: u16) -> (r: bool)
    ensures
        r == is_hex_digit_spec(code as int),
{
    is_digit16(code) || ((code >= 0x41) && (code <= 0x46)) || ((code >= 0x61) && (code <= 0x66))
}

pub(crate) fn is_uppercase_letter16(code: u16) -> (r: bool)
    ensures
        r == is_uppercase_letter_spec(code as int),
{
    (code >= 0x41) && (code <= 0x5A)
}

pub(crate) fn is_name16(code: u16) -> (r: bool)
    ensures
        r == is_name_spec(code as int),
{
    ((code >= 0x41) && (code <= 0x5A)) || ((code >= 0x61) && (code <= 0x7A)) || code >= 0x80 || code
        == 0x5F || is_digit16(code) || code == 0x2D
}

pub(crate) fn is_newline16(code: u16) -> (r: bool)
    ensures
        r == is_newline_spec(code as int),
{
    (code == 0x0A) || (code == 0x0D) || (code == 0x0C)
}

pub(crate) fn is_white_space16(code: u16) -> (r: bool)
    ensures
        r == is_white_space_spec(code as int),
{
    is_newline16(code) || code == 0x09 || code == 0x20
}

pub(crate) fn is_valid_escape16(first: u16, second: u16) -> (r: bool)
    ensures
        r == is_valid_escape_spec(first as int, second as int),
{
    (first == 0x5C) && !is_newline16(second) && (second != 0)
}

/// Case-insensitive equality of `test_str[start..end]` against a lowercase
/// reference string.
pub fn cmp_str(test_str: &[u16], start: usize, end: usize, reference_str: &[u16]) -> (r: bool)
    requires
        start <= end,
    ensures
        r == cmp_str_spec(test_str@, start as int, end as int, reference_str@),
{
    if (end - start) != reference_str.len() {
        return false;
    }
    if end > test_str.len() {
        return false;
    }
    let mut i: usize = start;
    while i < end
        invariant
            start <= i <= end <= test_str.len(),
            end - start == reference_str.len(),
            forall|j: int|
                start <= j < i ==> to_lower_spec(test_str@[j]) == reference_str@[j - start],
        decreases end - i,
    {
        let reference_str_offset = i - start;
        let reference_code = reference_str[reference_str_offset];
        let mut test_code = test_str[i];
        if is_uppercase_letter16(test_code) {
            test_code = test_code | 32;
        }
        if test_code != reference_code {
            return false;
        }
        i += 1;
    }
    true
}

pub fn find_white_space_end(source: &[u16], offset: usize) -> (r: usize)
    ensures
        r as int == find_white_space_end_spec(source@, offset as int),
        offset <= r,
        offset <= source.len() ==> r <= source.len(),
{
    let mut offset = offset;
    let ghost off0 = offset as int;
    while offset < source.len()
        invariant
            off0 <= offset,
            off0 <= source.len() ==> offset <= source.len(),
            find_white_space_end_spec(source@, off0) == find_white_space_end_spec(
                source@,
                offset as int,
            ),
        ensures
            off0 <= offset,
            offset as int == find_white_space_end_spec(source@, off0),
            off0 <= source.len() ==> offset <= source.len(),
        decreases source.len() - offset,
    {
        let code = source[offset];
        if !is_white_space16(code) {
            break ;
        }
        offset += 1;
    }
    offset
}

pub fn find_decimal_number_end(source: &[u16], offset: usize) -> (r: usize)
    ensures
        r as int == find_decimal_number_end_spec(source@, offset as int),
        offset <= r,
        offset <= source.len() ==> r <= source.len(),
{
    let mut offset = offset;
    let ghost off0 = offset as int;
    while offset < source.len()
        invariant
            off0 <= offset,
            off0 <= source.len() ==> offset <= source.len(),
            find_decimal_number_end_spec(source@, off0) == find_decimal_number_end_spec(
                source@,
                offset as int,
            ),
        ensures
            off0 <= offset,
            offset as int == find_decimal_number_end_spec(source@, off0),
            off0 <= source.len() ==> offset <= source.len(),
        decreases source.len() - offset,
    {
        let code = source[offset];
        if !is_digit16(code) {
            break ;
        }
        offset += 1;
    }
    offset
}

/// End offset of an escaped code point. Assumes the U+005C REVERSE SOLIDUS
/// at `offset` has already been recognised as starting a valid escape.
pub fn consume_escaped(source: &[u16], offset: usize) -> (r: usize)
    requires
        offset <= usize::MAX - 8,
    ensures
        r as int == consume_escaped_spec(source@, offset as int),
        offset + 2 <= r,
        offset + 2 <= source.len() ==> r <= source.len(),
{
    let mut offset = offset + 2;
    let source_length = source.len();
    if is_hex_digit16(code_unit(source, offset - 1)) {
        let max_offset = if offset + 5 < source_length {
            offset + 5
        } else {
            source_length
        };
        let ghost off0 = offset as int;
        assert(off0 <= max_offset as int);
        while offset < max_offset
            invariant
                off0 <= offset <= max_offset,
                hex_digits_end_spec(source@, off0, max_offset as int) == hex_digits_end_spec(
                    source@,
                    offset as int,
                    max_offset as int,
                ),
            ensures
                off0 <= offset <= max_offset,
                offset as int == hex_digits_end_spec(source@, off0, max_offset as int),
            decreases max_offset - offset,
        {
            if !is_hex_digit16(code_unit(source, offset)) {
                break ;
            }
            offset += 1;
        }
        let code = code_unit(source, offset);
        if is_white_space16(code) {
            if code == 13 && code_unit(source, offset + 1) == 10 {
                offset += 2;
            } else {
                offset += 1;
            }
        }
    }
    offset
}

/// End offset of the name starting at `offset`. The first code points are
/// not checked here; callers decide whether an ident may begin.
pub fn consume_name(source: &[u16], offset: usize) -> (r: usize)
    requires
        source.len() < usize::MAX - 8,
    ensures
        r as int == consume_name_spec(source@, offset as int),
        offset <= r,
        offset <= source.len() ==> r <= source.len(),
{
    let mut offset = offset;
    let ghost off0 = offset as int;
    while offset < source.len()
        invariant
            off0 <= offset,
            off0 <= source.len() ==> offset <= source.len(),
            source@.len() < usize::MAX - 8,
            consume_name_spec(source@, off0) == consume_name_spec(source@, offset as int),
        ensures
            off0 <= offset,
            offset as int == consume_name_spec(source@, off0),
            off0 <= source.len() ==> offset <= source.len(),
        decreases source.len() - offset,
    {
        let code = source[offset];
        if is_name16(code) {
            offset += 1;
            continue ;
        }
        if is_valid_escape16(code, code_unit(source, offset + 1)) {
            offset = consume_escaped(source, offset) - 1;
            offset += 1;
            continue ;
        }
        break ;
    }
    offset
}

/// End offset of the numeric text starting at `offset`: an optional sign,
/// digits, an optional fraction, and an exponent only when a digit
/// follows it.
pub fn consume_number(source: &[u16], offset: usize) -> (r: usize)
    requires
        source.len() < usize::MAX - 8,
        offset <= usize::MAX - 8,
    ensures
        r as int == consume_number_spec(source@, offset as int),
        offset <= r,
        offset <= source.len() ==> r <= source.len(),
{
    let mut offset = offset;
    let source_length = source.len();
    if offset < source_length {
        let mut code: u16 = source[offset];
        if code == 0x2B || code == 0x2D {
            offset += 1;
        }
        if offset < source_length {
            code = source[offset];
            if is_digit16(code) {
                offset = find_decimal_number_end(source, offset + 1);
            }
            if offset + 1 < source_length {
                code = source[offset];
                if code == 0x2E && is_digit16(source[offset + 1]) {
                    offset += 2;
                    offset = find_decimal_number_end(source, offset);
                }
            }
        }
        let at_e = if offset < source_length {
            let c = source[offset];
            c == 101 || (is_uppercase_letter16(c) && (c | 32) == 101)
        } else {
            false
        };
        if at_e {
            let mut sign: usize = 0;
            if offset + 1 < source_length {
                code = source[offset + 1];
                let mut is_nan = false;
                if code == 0x2D || code == 0x2B {
                    sign = 1;
                    if offset + 2 < source_length {
                        code = source[offset + 2];
                    } else {
                        is_nan = true;
                    }
                }
                if !is_nan && is_digit16(code) {
                    offset = find_decimal_number_end(source, offset + 1 + sign + 1);
                }
            }
        }
    }
    offset
}

/// End offset of bad-url recovery starting at `offset`: consumes enough of
/// the input to reach a point where normal tokenizing can resume.
pub fn consume_bad_url_remnants(source: &[u16], offset: usize) -> (r: usize)
    requires
        source.len() < usize::MAX - 8,
    ensures
        r as int == consume_bad_url_remnants_spec(source@, offset as int),
        offset <= r,
        offset <= source.len() ==> r <= source.len() + 1,
{
    let mut off = offset;
    while off < source.len()
        invariant
            offset <= off,
            offset <= source.len() ==> off <= source.len() + 1,
            source@.len() < usize::MAX - 8,
            consume_bad_url_remnants_spec(source@, offset as int)
                == consume_bad_url_remnants_spec(source@, off as int),
        ensures
            offset <= off,
            offset <= source.len() ==> off <= source.len() + 1,
            off as int == consume_bad_url_remnants_spec(source@, offset as int),
        decreases source.len() + 1 - off,
    {
        let code = source[off];
        if code == 0x29 {
            return off + 1;
        }
        if is_valid_escape16(code, code_unit(source, off + 1)) {
            off = consume_escaped(source, off);
        }
        off += 1;
    }
    off
}

} // verus!
