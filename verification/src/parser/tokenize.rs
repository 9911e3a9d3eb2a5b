//! The tokenizer: one pass over a 16-bit code-unit buffer, emitting CSS
//! tokens to a caller-supplied sink.
//!
//! Every token is a half-open span `[start, end)` into the buffer. The
//! specification `tokens_spec` gives the exact token sequence of a buffer;
//! consecutive spans are contiguous, so the spans partition the post-BOM
//! input (see `lemma_token_spans_partition`).

use crate::char_code_definitions::{
    char_code_category_spec, is_identifier_start_spec, is_name_spec, is_newline_spec,
    is_number_start_spec, is_valid_escape_spec, is_white_space_spec, DIGIT_CATEGORY,
    NAME_START_CATEGORY, NON_PRINTABLE_CATEGORY, WHITE_SPACE_CATEGORY,
};
use crate::parser::types::{
    AT_KEYWORD_TOKEN, BAD_STRING_TOKEN, BAD_URL_TOKEN, CDC_TOKEN, CDO_TOKEN, COLON_TOKEN,
    COMMA_TOKEN, COMMENT_TOKEN, DELIM_TOKEN, DIMENSION_TOKEN, EOF_TOKEN, FUNCTION_TOKEN,
    HASH_TOKEN, IDENT_TOKEN, LEFT_CURLY_BRACKET_TOKEN, LEFT_PARENTHESES_TOKEN,
    LEFT_SQUARE_BRACKET_TOKEN, NUMBER_TOKEN, PERCENTAGE_TOKEN, RIGHT_CURLY_BRACKET_TOKEN,
    RIGHT_PARENTHESES_TOKEN, RIGHT_SQUARE_BRACKET_TOKEN, SEMICOLON_TOKEN, STRING_TOKEN,
    URL_TOKEN, WHITESPACE_TOKEN,
};
use crate::parser::utils::{
    cmp_str, cmp_str_spec, code_unit, code_unit_at, consume_bad_url_remnants,
    consume_bad_url_remnants_spec, consume_escaped, consume_escaped_spec, consume_name,
    consume_name_spec, consume_number, consume_number_spec, find_decimal_number_end_spec,
    find_white_space_end,
    find_white_space_end_spec, hex_digits_end_spec, is_digit16, is_name16, is_newline16,
    is_valid_escape16, is_white_space16, new_line_length_spec,
};
use vstd::prelude::*;

verus! {

/// The sequence "url", compared case-insensitively against names.
pub open spec fn url_seq_spec() -> Seq<u16> {
    seq![117u16, 114u16, 108u16]
}

/// Kind and end offset of a numeric token starting at `off`: a number,
/// then a dimension unit, a percent sign, or nothing.
pub open spec fn consume_numeric_spec(s: Seq<u16>, off: int) -> (u16, int) {
    let n = consume_number_spec(s, off);
    if is_identifier_start_spec(
        code_unit_at(s, n) as int,
        code_unit_at(s, n + 1) as int,
        code_unit_at(s, n + 2) as int,
    ) {
        (DIMENSION_TOKEN, consume_name_spec(s, n))
    } else if code_unit_at(s, n) == 0x25 {
        (PERCENTAGE_TOKEN, n + 1)
    } else {
        (NUMBER_TOKEN, n)
    }
}

/// One step of the string state machine at `off`, looking for the ending
/// quote; newlines abort as a bad string, escapes are consumed whole.
pub open spec fn string_body_spec(s: Seq<u16>, ending: u16, off: int) -> (u16, int)
    decreases s.len() - off,
{
    if 0 <= off < s.len() {
        let code = s[off];
        let cat = char_code_category_spec(code as int);
        if cat == ending as int {
            (STRING_TOKEN, off + 1)
        } else if cat == WHITE_SPACE_CATEGORY as int {
            if is_newline_spec(code as int) {
                (BAD_STRING_TOKEN, off + new_line_length_spec(s, off, code as int))
            } else {
                string_body_spec(s, ending, off + 1)
            }
        } else if code == 0x5C {
            if off == s.len() - 1 {
                string_body_spec(s, ending, off + 1)
            } else {
                let next = code_unit_at(s, off + 1);
                if is_newline_spec(next as int) {
                    string_body_spec(s, ending, off + new_line_length_spec(s, off + 1, next as int)
                        + 1)
                } else if is_valid_escape_spec(code as int, next as int) {
                    let e = consume_escaped_spec(s, off);
                    if off < e <= s.len() {
                        string_body_spec(s, ending, e)
                    } else {
                        (STRING_TOKEN, e)
                    }
                } else {
                    string_body_spec(s, ending, off + 1)
                }
            }
        } else {
            string_body_spec(s, ending, off + 1)
        }
    } else {
        (STRING_TOKEN, off)
    }
}

/// Kind and end offset of a string token whose opening quote stands at
/// `off` when `ending` is 0; otherwise the quote is `ending` and `off` is
/// already inside the string.
pub open spec fn consume_string_spec(s: Seq<u16>, ending: u16, off: int) -> (u16, int) {
    if ending == 0 {
        string_body_spec(s, code_unit_at(s, off), off + 1)
    } else {
        string_body_spec(s, ending, off)
    }
}

/// One step of the unquoted-url state machine at `off`: a right paren ends
/// a good url; quotes, parens, non-printables and bad escapes degrade to a
/// bad url; trailing whitespace is only allowed before the closing paren.
pub open spec fn url_body_spec(s: Seq<u16>, off: int) -> (u16, int)
    decreases s.len() - off,
{
    if 0 <= off < s.len() {
        let code = s[off];
        let cat = char_code_category_spec(code as int);
        if cat == 0x29 {
            (URL_TOKEN, off + 1)
        } else if cat == WHITE_SPACE_CATEGORY as int {
            let w = find_white_space_end_spec(s, off);
            if code_unit_at(s, w) == 0x29 || w >= s.len() {
                if w < s.len() {
                    (URL_TOKEN, w + 1)
                } else {
                    (URL_TOKEN, w)
                }
            } else {
                (BAD_URL_TOKEN, consume_bad_url_remnants_spec(s, w))
            }
        } else if cat == 0x22 || cat == 0x27 || cat == 0x28 || cat == NON_PRINTABLE_CATEGORY as int {
            (BAD_URL_TOKEN, consume_bad_url_remnants_spec(s, off))
        } else if cat == 0x5C {
            if is_valid_escape_spec(code as int, code_unit_at(s, off + 1) as int) {
                let e = consume_escaped_spec(s, off);
                if off < e <= s.len() {
                    url_body_spec(s, e)
                } else {
                    (URL_TOKEN, e)
                }
            } else {
                (BAD_URL_TOKEN, consume_bad_url_remnants_spec(s, off))
            }
        } else {
            url_body_spec(s, off + 1)
        }
    } else {
        (URL_TOKEN, off)
    }
}

/// Kind and end offset of an unquoted url token, with `off` just past the
/// opening parenthesis of `url(`.
pub open spec fn consume_url_spec(s: Seq<u16>, off: int) -> (u16, int) {
    url_body_spec(s, find_white_space_end_spec(s, off))
}

/// Kind and end offset of an ident-like token at `off`: a url token when
/// the name is "url" followed by `(` and an unquoted value, a function
/// token when followed by `(`, otherwise an ident.
///
/// After `url(` the whole whitespace run is skipped before looking for a
/// quote. This is the CSS syntax rule in compressed form: consuming while
/// the next two code points are whitespace and then accepting a quote or
/// whitespace-then-quote reaches the same token, since any longer
/// whitespace run still ends in whitespace before the quote.
pub open spec fn consume_ident_like_spec(s: Seq<u16>, off: int) -> (u16, int) {
    let n = consume_name_spec(s, off);
    if cmp_str_spec(s, off, n, url_seq_spec()) && code_unit_at(s, n) == 0x28 {
        let w = find_white_space_end_spec(s, n + 1);
        if code_unit_at(s, w) == 0x22 || code_unit_at(s, w) == 0x27 {
            (FUNCTION_TOKEN, off + 4)
        } else {
            consume_url_spec(s, w)
        }
    } else if code_unit_at(s, n) == 0x28 {
        (FUNCTION_TOKEN, n + 1)
    } else {
        (IDENT_TOKEN, n)
    }
}

/// End offset of a comment opening at `off`: through the first `*/`, or to
/// the end of the input. The scan mirrors an index search that stops one
/// short of the last code unit.
pub open spec fn comment_scan_spec(s: Seq<u16>, ii: int) -> int
    decreases s.len() - ii,
{
    if ii < s.len() - 1 {
        if s[ii] == 0x2A && s[ii + 1] == 0x2F {
            ii + 2
        } else {
            comment_scan_spec(s, ii + 1)
        }
    } else {
        s.len() as int
    }
}

/// Kind and raw end offset of the token starting at `off`; the category of
/// the first code unit selects the sub-machine.
pub open spec fn next_token_spec(s: Seq<u16>, off: int) -> (u16, int) {
    if 0 <= off < s.len() {
        let code = s[off];
        let cat = char_code_category_spec(code as int);
        let c1 = code_unit_at(s, off + 1) as int;
        let c2 = code_unit_at(s, off + 2) as int;
        let c3 = code_unit_at(s, off + 3) as int;
        if cat == WHITE_SPACE_CATEGORY as int {
            (WHITESPACE_TOKEN, find_white_space_end_spec(s, off + 1))
        } else if cat == 0x22 {
            consume_string_spec(s, 0, off)
        } else if cat == 0x23 {
            if is_name_spec(c1) || is_valid_escape_spec(c1, c2) {
                (HASH_TOKEN, consume_name_spec(s, off + 1))
            } else {
                (DELIM_TOKEN, off + 1)
            }
        } else if cat == 0x27 {
            consume_string_spec(s, 0, off)
        } else if cat == 0x28 {
            (LEFT_PARENTHESES_TOKEN, off + 1)
        } else if cat == 0x29 {
            (RIGHT_PARENTHESES_TOKEN, off + 1)
        } else if cat == 0x2B {
            if is_number_start_spec(code as int, c1, c2) {
                consume_numeric_spec(s, off)
            } else {
                (DELIM_TOKEN, off + 1)
            }
        } else if cat == 0x2C {
            (COMMA_TOKEN, off + 1)
        } else if cat == 0x2D {
            if is_number_start_spec(code as int, c1, c2) {
                consume_numeric_spec(s, off)
            } else if c1 == 0x2D && c2 == 0x3E {
                (CDC_TOKEN, off + 3)
            } else if is_identifier_start_spec(code as int, c1, c2) {
                consume_ident_like_spec(s, off)
            } else {
                (DELIM_TOKEN, off + 1)
            }
        } else if cat == 0x2E {
            if is_number_start_spec(code as int, c1, c2) {
                consume_numeric_spec(s, off)
            } else {
                (DELIM_TOKEN, off + 1)
            }
        } else if cat == 0x2F {
            if c1 == 0x2A {
                (COMMENT_TOKEN, comment_scan_spec(s, off + 2))
            } else {
                (DELIM_TOKEN, off + 1)
            }
        } else if cat == 0x3A {
            (COLON_TOKEN, off + 1)
        } else if cat == 0x3B {
            (SEMICOLON_TOKEN, off + 1)
        } else if cat == 0x3C {
            if c1 == 0x21 && c2 == 0x2D && c3 == 0x2D {
                (CDO_TOKEN, off + 4)
            } else {
                (DELIM_TOKEN, off + 1)
            }
        } else if cat == 0x40 {
            if is_identifier_start_spec(c1, c2, c3) {
                (AT_KEYWORD_TOKEN, consume_name_spec(s, off + 1))
            } else {
                (DELIM_TOKEN, off + 1)
            }
        } else if cat == 0x5B {
            (LEFT_SQUARE_BRACKET_TOKEN, off + 1)
        } else if cat == 0x5C {
            if is_valid_escape_spec(code as int, c1) {
                consume_ident_like_spec(s, off)
            } else {
                (DELIM_TOKEN, off + 1)
            }
        } else if cat == 0x5D {
            (RIGHT_SQUARE_BRACKET_TOKEN, off + 1)
        } else if cat == 0x7B {
            (LEFT_CURLY_BRACKET_TOKEN, off + 1)
        } else if cat == 0x7D {
            (RIGHT_CURLY_BRACKET_TOKEN, off + 1)
        } else if cat == DIGIT_CATEGORY as int {
            consume_numeric_spec(s, off)
        } else if cat == NAME_START_CATEGORY as int {
            consume_ident_like_spec(s, off)
        } else {
            (DELIM_TOKEN, off + 1)
        }
    } else {
        (EOF_TOKEN, off)
    }
}

/// The number of leading code units occupied by a byte-order mark: one in
/// this 16-bit form.
pub open spec fn bom_offset16(s: Seq<u16>) -> int {
    if s.len() > 0 && (s[0] == 0xFEFF || s[0] == 0xFFFE) {
        1
    } else {
        0
    }
}

/// The token sequence of the buffer from `off` on. Every span advances by
/// at least one code unit and is capped at the buffer length, so the spans
/// are contiguous and exhaust `[off, s.len())`.
pub open spec fn token_seq(s: Seq<u16>, off: int) -> Seq<(u16, int, int)>
    decreases s.len() - off,
{
    if 0 <= off < s.len() {
        let (k, e0) = next_token_spec(s, off);
        let adv = if e0 > off {
            e0
        } else {
            off + 1
        };
        let end = if adv > s.len() {
            s.len() as int
        } else {
            adv
        };
        seq![(k, off, end)] + token_seq(s, end)
    } else {
        Seq::empty()
    }
}

/// The full token sequence of a buffer, starting past any byte-order mark.
pub open spec fn tokens_spec(s: Seq<u16>) -> Seq<(u16, int, int)> {
    token_seq(s, bom_offset16(s))
}

/// A sink for tokens. `tokens` is the sequence of `(kind, start, end)`
/// triples the sink has absorbed; `inv` is whatever well-formedness the
/// implementation maintains across calls.
pub trait Parser: Sized {
    spec fn inv(&self) -> bool;

    spec fn tokens(&self) -> Seq<(u16, int, int)>;

    fn on_token(&mut self, token_type: u16, start: usize, end: usize)
        requires
            old(self).inv(),
        ensures
            final(self).inv(),
            final(self).tokens() == old(self).tokens().push(
                (token_type, start as int, end as int),
            ),
    ;
}

/// A sink that simply records every token.
pub struct TokenList {
    pub items: Vec<(u16, usize, usize)>,
}

impl TokenList {
    pub fn new() -> (r: TokenList)
        ensures
            r.inv(),
            r.tokens() == Seq::<(u16, int, int)>::empty(),
    {
        let r = TokenList { items: Vec::new() };
        proof {
            assert(r.tokens() =~= Seq::<(u16, int, int)>::empty());
        }
        r
    }
}

impl Parser for TokenList {
    open spec fn inv(&self) -> bool {
        true
    }

    open spec fn tokens(&self) -> Seq<(u16, int, int)> {
        self.items@.map_values(|t: (u16, usize, usize)| (t.0, t.1 as int, t.2 as int))
    }

    fn on_token(&mut self, token_type: u16, start: usize, end: usize) {
        self.items.push((token_type, start, end));
        proof {
            assert(self.tokens() =~= old(self).tokens().push(
                (token_type, start as int, end as int),
            ));
        }
    }
}

pub(crate) fn is_name_start16(code: u16) -> (r: bool)
    ensures
        r == crate::char_code_definitions::is_name_start_spec(code as int),
{
    ((code >= 0x41) && (code <= 0x5A)) || ((code >= 0x61) && (code <= 0x7A)) || code >= 0x80 || code
        == 0x5F
}

pub(crate) fn category16(code: u16) -> (r: u16)
    ensures
        r as int == char_code_category_spec(code as int),
{
    if code == 0 {
        0x80
    } else if code >= 0x80 {
        NAME_START_CATEGORY as u16
    } else if is_white_space16(code) {
        WHITE_SPACE_CATEGORY as u16
    } else if is_digit16(code) {
        DIGIT_CATEGORY as u16
    } else if is_name_start16(code) {
        NAME_START_CATEGORY as u16
    } else if (code <= 0x08) || (code == 0x0B) || ((code >= 0x0E) && (code <= 0x1F)) || (code
        == 0x7F) {
        NON_PRINTABLE_CATEGORY as u16
    } else {
        code
    }
}

pub(crate) fn is_identifier_start16(first: u16, second: u16, third: u16) -> (r: bool)
    ensures
        r == is_identifier_start_spec(first as int, second as int, third as int),
{
    if first == 0x2D {
        is_name_start16(second) || (second == 0x2D) || is_valid_escape16(second, third)
    } else if is_name_start16(first) {
        true
    } else if first == 0x5C {
        is_valid_escape16(first, second)
    } else {
        false
    }
}

pub(crate) fn is_number_start16(first: u16, second: u16, third: u16) -> (r: bool)
    ensures
        r == is_number_start_spec(first as int, second as int, third as int),
{
    if first == 0x2B || first == 0x2D {
        if is_digit16(second) {
            true
        } else {
            (second == 0x2E) && is_digit16(third)
        }
    } else if first == 0x2E {
        is_digit16(second)
    } else {
        is_digit16(first)
    }
}

/// Consume a numeric token: a number, then a dimension unit, a percent
/// sign, or nothing.
pub fn consume_numeric_token(source: &[u16], offset: &mut usize, token_type: &mut u16)
    requires
        source.len() < usize::MAX - 8,
        *old(offset) <= source.len(),
    ensures
        (*final(token_type), *final(offset) as int) == consume_numeric_spec(
            source@,
            *old(offset) as int,
        ),
        *old(offset) <= *final(offset) <= source.len(),
{
    *offset = consume_number(source, *offset);
    if is_identifier_start16(
        code_unit(source, *offset),
        code_unit(source, *offset + 1),
        code_unit(source, *offset + 2),
    ) {
        *token_type = DIMENSION_TOKEN;
        *offset = consume_name(source, *offset);
        return ;
    }
    if code_unit(source, *offset) == 0x25 {
        *token_type = PERCENTAGE_TOKEN;
        *offset = *offset + 1;
        return ;
    }
    *token_type = NUMBER_TOKEN;
}

/// Consume a string token opened by the quote at `offset` (when
/// `ending_code_point` is 0), up to an unescaped matching quote. An
/// unescaped newline aborts as a bad string; an unterminated string ends
/// at the end of the input.
pub fn consume_string_token(
    source: &[u16],
    ending_code_point: u16,
    offset: &mut usize,
    token_type: &mut u16,
)
    requires
        source.len() < usize::MAX - 8,
        *old(offset) <= source.len(),
    ensures
        (*final(token_type), *final(offset) as int) == consume_string_spec(
            source@,
            ending_code_point,
            *old(offset) as int,
        ),
        *old(offset) <= *final(offset) <= source.len() + 1,
{
    let mut ending = ending_code_point;
    if ending == 0 {
        ending = code_unit(source, *offset);
        *offset = *offset + 1;
    }
    *token_type = STRING_TOKEN;
    loop
        invariant
            source@.len() < usize::MAX - 8,
            *old(offset) <= *offset <= source.len() + 1,
            *token_type == STRING_TOKEN,
            consume_string_spec(source@, ending_code_point, *old(offset) as int)
                == string_body_spec(source@, ending, *offset as int),
        decreases source.len() + 1 - *offset,
    {
        if (*offset) >= source.len() {
            return ;
        }
        let code = source[*offset];
        let char_code = category16(code);
        if char_code == ending {
            *offset = *offset + 1;
            return ;
        }
        if char_code == WHITE_SPACE_CATEGORY as u16 {
            if is_newline16(code) {
                if code == 13 && code_unit(source, *offset + 1) == 10 {
                    *offset = *offset + 2;
                } else {
                    *offset = *offset + 1;
                }
                *token_type = BAD_STRING_TOKEN;
                return ;
            }
        } else if code == 0x5C {
            if *offset == source.len() - 1 {
                *offset = *offset + 1;
                continue ;
            }
            let next_code = code_unit(source, *offset + 1);
            if is_newline16(next_code) {
                if next_code == 13 && code_unit(source, *offset + 2) == 10 {
                    *offset = *offset + 2;
                } else {
                    *offset = *offset + 1;
                }
            } else if is_valid_escape16(code, next_code) {
                *offset = consume_escaped(source, *offset) - 1;
            }
        }
        *offset = *offset + 1;
    }
}

/// Consume an unquoted url token, `offset` standing just past the opening
/// parenthesis of `url(`. Malformed content degrades to a bad-url token.
pub fn consume_url_token(source: &[u16], offset: &mut usize, token_type: &mut u16)
    requires
        source.len() < usize::MAX - 8,
        *old(offset) <= source.len(),
    ensures
        (*final(token_type), *final(offset) as int) == consume_url_spec(
            source@,
            *old(offset) as int,
        ),
        *old(offset) <= *final(offset) <= source.len() + 1,
{
    *token_type = URL_TOKEN;
    *offset = find_white_space_end(source, *offset);
    loop
        invariant
            source@.len() < usize::MAX - 8,
            *old(offset) <= *offset <= source.len() + 1,
            *token_type == URL_TOKEN,
            consume_url_spec(source@, *old(offset) as int) == url_body_spec(
                source@,
                *offset as int,
            ),
        decreases source.len() + 1 - *offset,
    {
        if (*offset) >= source.len() {
            return ;
        }
        let code = source[*offset];
        let cat = category16(code);
        if cat == 0x29 {
            *offset = *offset + 1;
            return ;
        } else if cat == WHITE_SPACE_CATEGORY as u16 {
            *offset = find_white_space_end(source, *offset);
            if code_unit(source, *offset) == 0x29 || (*offset) >= source.len() {
                if (*offset) < source.len() {
                    *offset = *offset + 1;
                }
                return ;
            }
            *offset = consume_bad_url_remnants(source, *offset);
            *token_type = BAD_URL_TOKEN;
            return ;
        } else if cat == 0x22 || cat == 0x27 || cat == 0x28 || cat == NON_PRINTABLE_CATEGORY
            as u16 {
            *offset = consume_bad_url_remnants(source, *offset);
            *token_type = BAD_URL_TOKEN;
            return ;
        } else if cat == 0x5C {
            if is_valid_escape16(code, code_unit(source, *offset + 1)) {
                *offset = consume_escaped(source, *offset) - 1;
                *offset = *offset + 1;
                continue ;
            }
            *offset = consume_bad_url_remnants(source, *offset);
            *token_type = BAD_URL_TOKEN;
            return ;
        }
        *offset = *offset + 1;
    }
}

/// Consume an ident-like token: a name, which may turn out to open a
/// function or an unquoted url.
pub fn consume_ident_like_token(source: &[u16], offset: &mut usize, token_type: &mut u16)
    requires
        source.len() < usize::MAX - 8,
        *old(offset) <= source.len(),
    ensures
        (*final(token_type), *final(offset) as int) == consume_ident_like_spec(
            source@,
            *old(offset) as int,
        ),
        *old(offset) <= *final(offset) <= source.len() + 1,
{
    let name_start_offset = *offset;
    let url_str: Vec<u16> = vec![117, 114, 108];
    proof {
        assert(url_str@ =~= url_seq_spec());
    }
    *offset = consume_name(source, *offset);
    if cmp_str(source, name_start_offset, *offset, url_str.as_slice()) && code_unit(source, *offset)
        == 0x28 {
        *offset = find_white_space_end(source, *offset + 1);
        if code_unit(source, *offset) == 0x22 || code_unit(source, *offset) == 0x27 {
            *token_type = FUNCTION_TOKEN;
            *offset = name_start_offset + 4;
            return ;
        }
        consume_url_token(source, offset, token_type);
        return ;
    }
    if code_unit(source, *offset) == 0x28 {
        *token_type = FUNCTION_TOKEN;
        *offset = *offset + 1;
        return ;
    }
    *token_type = IDENT_TOKEN;
}

/// Tokenize the buffer from `start` on, handing each token to `parser`
/// in order.
pub(crate) fn tokenize_from<T: Parser>(source: &[u16], start: usize, parser: &mut T)
    requires
        source.len() < usize::MAX - 8,
        start <= source.len(),
        old(parser).inv(),
    ensures
        final(parser).inv(),
        final(parser).tokens() == old(parser).tokens() + token_seq(source@, start as int),
{
    let mut offset: usize = start;
    let ghost start0 = offset as int;
    let ghost toks0 = parser.tokens();
    while offset < source.len()
        invariant
            source@.len() < usize::MAX - 8,
            offset <= source.len() + 1,
            parser.inv(),
            parser.tokens().len() >= toks0.len(),
            parser.tokens().take(toks0.len() as int) == toks0,
            token_seq(source@, start0) == parser.tokens().skip(toks0.len() as int) + token_seq(
                source@,
                offset as int,
            ),
        decreases source.len() - offset,
    {
        let token_start = offset;
        let code = source[offset];
        let mut token_type: u16 = EOF_TOKEN;
        let cat = category16(code);
        if cat == WHITE_SPACE_CATEGORY as u16 {
            token_type = WHITESPACE_TOKEN;
            offset = find_white_space_end(source, offset + 1);
        } else if cat == 0x22 {
            consume_string_token(source, 0, &mut offset, &mut token_type);
        } else if cat == 0x23 {
            if is_name16(code_unit(source, offset + 1)) || is_valid_escape16(
                code_unit(source, offset + 1),
                code_unit(source, offset + 2),
            ) {
                token_type = HASH_TOKEN;
                offset = consume_name(source, offset + 1);
            } else {
                token_type = DELIM_TOKEN;
                offset += 1;
            }
        } else if cat == 0x27 {
            consume_string_token(source, 0, &mut offset, &mut token_type);
        } else if cat == 0x28 {
            token_type = LEFT_PARENTHESES_TOKEN;
            offset += 1;
        } else if cat == 0x29 {
            token_type = RIGHT_PARENTHESES_TOKEN;
            offset += 1;
        } else if cat == 0x2B {
            if is_number_start16(
                code,
                code_unit(source, offset + 1),
                code_unit(source, offset + 2),
            ) {
                consume_numeric_token(source, &mut offset, &mut token_type);
            } else {
                token_type = DELIM_TOKEN;
                offset += 1;
            }
        } else if cat == 0x2C {
            token_type = COMMA_TOKEN;
            offset += 1;
        } else if cat == 0x2D {
            if is_number_start16(
                code,
                code_unit(source, offset + 1),
                code_unit(source, offset + 2),
            ) {
                consume_numeric_token(source, &mut offset, &mut token_type);
            } else if code_unit(source, offset + 1) == 0x2D && code_unit(source, offset + 2)
                == 0x3E {
                token_type = CDC_TOKEN;
                offset = offset + 3;
            } else if is_identifier_start16(
                code,
                code_unit(source, offset + 1),
                code_unit(source, offset + 2),
            ) {
                consume_ident_like_token(source, &mut offset, &mut token_type);
            } else {
                token_type = DELIM_TOKEN;
                offset += 1;
            }
        } else if cat == 0x2E {
            if is_number_start16(
                code,
                code_unit(source, offset + 1),
                code_unit(source, offset + 2),
            ) {
                consume_numeric_token(source, &mut offset, &mut token_type);
            } else {
                token_type = DELIM_TOKEN;
                offset += 1;
            }
        } else if cat == 0x2F {
            if code_unit(source, offset + 1) == 0x2A {
                token_type = COMMENT_TOKEN;
                offset = comment_end(source, offset);
            } else {
                token_type = DELIM_TOKEN;
                offset += 1;
            }
        } else if cat == 0x3A {
            token_type = COLON_TOKEN;
            offset += 1;
        } else if cat == 0x3B {
            token_type = SEMICOLON_TOKEN;
            offset += 1;
        } else if cat == 0x3C {
            if code_unit(source, offset + 1) == 0x21 && code_unit(source, offset + 2) == 0x2D
                && code_unit(source, offset + 3) == 0x2D {
                token_type = CDO_TOKEN;
                offset = offset + 4;
            } else {
                token_type = DELIM_TOKEN;
                offset += 1;
            }
        } else if cat == 0x40 {
            if is_identifier_start16(
                code_unit(source, offset + 1),
                code_unit(source, offset + 2),
                code_unit(source, offset + 3),
            ) {
                token_type = AT_KEYWORD_TOKEN;
                offset = consume_name(source, offset + 1);
            } else {
                token_type = DELIM_TOKEN;
                offset += 1;
            }
        } else if cat == 0x5B {
            token_type = LEFT_SQUARE_BRACKET_TOKEN;
            offset += 1;
        } else if cat == 0x5C {
            if is_valid_escape16(code, code_unit(source, offset + 1)) {
                consume_ident_like_token(source, &mut offset, &mut token_type);
            } else {
                token_type = DELIM_TOKEN;
                offset += 1;
            }
        } else if cat == 0x5D {
            token_type = RIGHT_SQUARE_BRACKET_TOKEN;
            offset += 1;
        } else if cat == 0x7B {
            token_type = LEFT_CURLY_BRACKET_TOKEN;
            offset += 1;
        } else if cat == 0x7D {
            token_type = RIGHT_CURLY_BRACKET_TOKEN;
            offset += 1;
        } else if cat == DIGIT_CATEGORY as u16 {
            consume_numeric_token(source, &mut offset, &mut token_type);
        } else if cat == NAME_START_CATEGORY as u16 {
            consume_ident_like_token(source, &mut offset, &mut token_type);
        } else {
            token_type = DELIM_TOKEN;
            offset += 1;
        }
        assert((token_type, offset as int) == next_token_spec(source@, token_start as int));
        // A malformed url's recovery scan can step one past the end of the
        // buffer; the emitted span is capped at the buffer length.
        let adv = if offset > token_start {
            offset
        } else {
            token_start + 1
        };
        let end = if adv > source.len() {
            source.len()
        } else {
            adv
        };
        let ghost before = parser.tokens();
        parser.on_token(token_type, token_start, end);
        proof {
            let s = source@;
            let tok = (token_type, token_start as int, end as int);
            assert(token_seq(s, token_start as int) == seq![tok] + token_seq(s, end as int));
            assert(parser.tokens().take(toks0.len() as int) =~= toks0);
            assert(parser.tokens().skip(toks0.len() as int) =~= before.skip(toks0.len() as int)
                + seq![tok]);
            assert(before.skip(toks0.len() as int) + seq![tok] + token_seq(s, end as int)
                =~= before.skip(toks0.len() as int) + (seq![tok] + token_seq(s, end as int)));
        }
        offset = end;
    }
    proof {
        assert(token_seq(source@, offset as int) =~= Seq::<(u16, int, int)>::empty());
        assert(parser.tokens() =~= toks0 + token_seq(source@, start0));
    }
}

/// Tokenize the whole buffer, handing each token to `parser` in order.
/// The tokens absorbed by the sink are exactly `tokens_spec` of the
/// buffer: contiguous spans from the post-BOM offset to the end.
pub fn tokenize<T: Parser>(source: &[u16], parser: &mut T)
    requires
        source.len() < usize::MAX - 8,
        old(parser).inv(),
    ensures
        final(parser).inv(),
        final(parser).tokens() == old(parser).tokens() + tokens_spec(source@),
{
    let first = code_unit(source, 0);
    let start: usize = if first == 0xFEFF || first == 0xFFFE {
        1
    } else {
        0
    };
    proof {
        assert(start as int == bom_offset16(source@));
    }
    tokenize_from(source, start, parser);
}

/// The token sequence of an 8-bit buffer: the buffer widened one byte to
/// one code unit, tokenized from behind its (3-byte) byte-order mark.
pub open spec fn tokens_bytes_spec(b: Seq<u8>) -> Seq<(u16, int, int)> {
    token_seq(crate::parser::utils::widen_spec(b), crate::char_code_definitions::start_offset_spec(b))
}

/// Tokenize an 8-bit buffer, handing each token to `parser` in order.
/// Spans index the byte buffer directly.
pub fn tokenize_bytes<T: Parser>(source: &[u8], parser: &mut T)
    requires
        source.len() < usize::MAX - 8,
        old(parser).inv(),
    ensures
        final(parser).inv(),
        final(parser).tokens() == old(parser).tokens() + tokens_bytes_spec(source@),
{
    let widened = crate::parser::utils::widen(source);
    let start = crate::char_code_definitions::get_start_offset(source);
    tokenize_from(widened.as_slice(), start, parser);
}

/// The concatenation of the given token spans of `s`, in order.
pub open spec fn spans_concat(s: Seq<u16>, ts: Seq<(u16, int, int)>) -> Seq<u16>
    decreases ts.len(),
{
    if ts.len() == 0 {
        Seq::empty()
    } else {
        s.subrange(ts[0].1, ts[0].2) + spans_concat(s, ts.drop_first())
    }
}

/// Span partition: the token spans of a buffer are contiguous, in order,
/// each non-empty and within bounds, and concatenating them reproduces
/// the input from `off` on exactly once, with no gaps or overlaps.
pub proof fn lemma_token_spans_partition(s: Seq<u16>, off: int)
    requires
        0 <= off <= s.len(),
    ensures
        spans_concat(s, token_seq(s, off)) == s.subrange(off, s.len() as int),
        token_seq(s, off).len() > 0 ==> token_seq(s, off)[0].1 == off,
        off < s.len() ==> token_seq(s, off).len() > 0,
        forall|i: int|
            0 <= i < token_seq(s, off).len() ==> off <= #[trigger] token_seq(s, off)[i].1
                < token_seq(s, off)[i].2 <= s.len(),
        forall|i: int|
            0 <= i < token_seq(s, off).len() - 1 ==> #[trigger] token_seq(s, off)[i].2
                == token_seq(s, off)[i + 1].1,
        token_seq(s, off).len() > 0 ==> token_seq(s, off).last().2 == s.len(),
    decreases s.len() - off,
{
    let ts = token_seq(s, off);
    if off < s.len() {
        let (k, e0) = next_token_spec(s, off);
        let adv = if e0 > off {
            e0
        } else {
            off + 1
        };
        let end = if adv > s.len() {
            s.len() as int
        } else {
            adv
        };
        let rest = token_seq(s, end);
        lemma_token_spans_partition(s, end);
        assert(ts == seq![(k, off, end)] + rest);
        assert(ts.drop_first() =~= rest);
        assert(s.subrange(off, s.len() as int) =~= s.subrange(off, end) + s.subrange(
            end,
            s.len() as int,
        ));
        assert forall|i: int| 0 <= i < ts.len() implies off <= #[trigger] ts[i].1 < ts[i].2
            <= s.len() by {
            if i > 0 {
                assert(ts[i] == rest[i - 1]);
            }
        }
        assert forall|i: int| 0 <= i < ts.len() - 1 implies #[trigger] ts[i].2 == ts[i + 1].1 by {
            if i > 0 {
                assert(ts[i] == rest[i - 1]);
                assert(ts[i + 1] == rest[i]);
            } else {
                if rest.len() > 0 {
                    assert(ts[1] == rest[0]);
                }
            }
        }
    }
}

/// End offset of a comment opening at `offset` (which holds `/` with `*`
/// next): through the first `*/`, or the end of the input.
fn comment_end(source: &[u16], offset: usize) -> (r: usize)
    requires
        source.len() < usize::MAX - 8,
        offset < source.len(),
    ensures
        r as int == comment_scan_spec(source@, offset as int + 2),
        offset < r <= source.len(),
{
    let mut ii = offset + 2;
    while ii + 1 < source.len()
        invariant
            offset + 2 <= ii <= source.len() + 1,
            source@.len() < usize::MAX - 8,
            comment_scan_spec(source@, offset as int + 2) == comment_scan_spec(source@, ii as int),
        ensures
            offset + 2 <= ii <= source.len() + 1,
            ii + 1 >= source.len() ==> comment_scan_spec(source@, offset as int + 2)
                == source@.len(),
            ii + 1 < source.len() ==> comment_scan_spec(source@, offset as int + 2) == ii + 2
                && source@[ii as int] == 0x2A && source@[ii as int + 1] == 0x2F,
        decreases source.len() - ii,
    {
        if source[ii] == 0x2A && source[ii + 1] == 0x2F {
            break ;
        }
        ii += 1;
    }
    if ii + 1 < source.len() {
        ii + 2
    } else {
        source.len()
    }
}

/// A cut position of the buffer: at either end, beside an ASCII code
/// unit, or just past a leading 3-unit byte-order mark. Over a widened
/// UTF-8 byte buffer every cut falls on a character boundary, which is
/// what lets the rewrite layer splice token spans back into valid text.
pub open spec fn cut_at(s: Seq<u16>, p: int) -> bool {
    ||| p <= 0
    ||| p >= s.len()
    ||| s[p] < 0x80
    ||| s[p - 1] < 0x80
    ||| (p == 3 && s.len() >= 3 && s[0] == 0xEF && ((s[1] == 0xBB && s[2] == 0xBF) || (s[1]
        == 0xBF && s[2] == 0xBE)))
}

proof fn lemma_find_ws_range(s: Seq<u16>, off: int)
    requires
        0 <= off,
    ensures
        off <= find_white_space_end_spec(s, off),
        forall|p: int|
            off <= p < find_white_space_end_spec(s, off) ==> is_white_space_spec(
                #[trigger] s[p] as int,
            ),
    decreases s.len() - off,
{
    if 0 <= off < s.len() && is_white_space_spec(s[off] as int) {
        lemma_find_ws_range(s, off + 1);
    }
}

proof fn lemma_hex_digits_end_lb(s: Seq<u16>, off: int, max: int)
    ensures
        hex_digits_end_spec(s, off, max) >= off,
    decreases max - off,
{
    if off < max && crate::char_code_definitions::is_hex_digit_spec(code_unit_at(s, off) as int) {
        lemma_hex_digits_end_lb(s, off + 1, max);
    }
}

proof fn lemma_find_decimal_lb(s: Seq<u16>, off: int)
    ensures
        find_decimal_number_end_spec(s, off) >= off,
    decreases s.len() - off,
{
    if 0 <= off < s.len() && crate::char_code_definitions::is_digit_spec(s[off] as int) {
        lemma_find_decimal_lb(s, off + 1);
    }
}

proof fn lemma_consume_number_lb(s: Seq<u16>, off: int)
    requires
        0 <= off,
    ensures
        consume_number_spec(s, off) >= off,
{
    if 0 <= off < s.len() {
        let o1 = if s[off] == 0x2B || s[off] == 0x2D {
            off + 1
        } else {
            off
        };
        if o1 < s.len() {
            lemma_find_decimal_lb(s, o1 + 1);
            let o2 = if crate::char_code_definitions::is_digit_spec(s[o1] as int) {
                find_decimal_number_end_spec(s, o1 + 1)
            } else {
                o1
            };
            lemma_find_decimal_lb(s, o2 + 2);
        }
        let o3 = if o1 < s.len() {
            let o2 = if crate::char_code_definitions::is_digit_spec(s[o1] as int) {
                find_decimal_number_end_spec(s, o1 + 1)
            } else {
                o1
            };
            if o2 + 1 < s.len() && s[o2] == 0x2E && crate::char_code_definitions::is_digit_spec(
                s[o2 + 1] as int,
            ) {
                find_decimal_number_end_spec(s, o2 + 2)
            } else {
                o2
            }
        } else {
            o1
        };
        lemma_find_decimal_lb(s, o3 + 3);
        lemma_find_decimal_lb(s, o3 + 2);
    }
}

proof fn lemma_consume_escaped_lb(s: Seq<u16>, off: int)
    ensures
        consume_escaped_spec(s, off) >= off + 2,
{
    let off2 = off + 2;
    let max = if off2 + 5 < s.len() {
        off2 + 5
    } else {
        s.len() as int
    };
    lemma_hex_digits_end_lb(s, off2, max);
}

proof fn lemma_consume_name_end(s: Seq<u16>, off: int)
    requires
        0 <= off,
    ensures
        consume_name_spec(s, off) >= off,
        consume_name_spec(s, off) >= s.len() || !is_name_spec(
            s[consume_name_spec(s, off)] as int,
        ),
    decreases s.len() - off,
{
    if 0 <= off < s.len() {
        let code = s[off];
        if is_name_spec(code as int) {
            lemma_consume_name_end(s, off + 1);
        } else if is_valid_escape_spec(code as int, code_unit_at(s, off + 1) as int) {
            let e = consume_escaped_spec(s, off);
            if off < e <= s.len() {
                lemma_consume_name_end(s, e);
            }
        }
    }
}

proof fn lemma_bad_url_remnants_cut(s: Seq<u16>, off: int)
    requires
        0 <= off,
    ensures
        consume_bad_url_remnants_spec(s, off) >= off,
        off < s.len() ==> consume_bad_url_remnants_spec(s, off) >= off + 1,
        consume_bad_url_remnants_spec(s, off) >= s.len() || (consume_bad_url_remnants_spec(s, off)
            >= 1 && s[consume_bad_url_remnants_spec(s, off) - 1] == 0x29),
    decreases s.len() - off,
{
    if 0 <= off < s.len() {
        let code = s[off];
        if code != 0x29 {
            let e = if is_valid_escape_spec(code as int, code_unit_at(s, off + 1) as int) {
                consume_escaped_spec(s, off)
            } else {
                off
            };
            lemma_consume_escaped_lb(s, off);
            if off <= e && e + 1 <= s.len() {
                lemma_bad_url_remnants_cut(s, e + 1);
            }
        }
    }
}

proof fn lemma_comment_scan_cut(s: Seq<u16>, ii: int)
    requires
        0 <= ii,
    ensures
        comment_scan_spec(s, ii) == s.len() || (comment_scan_spec(s, ii) >= ii + 2
            && s[comment_scan_spec(s, ii) - 1] == 0x2F),
    decreases s.len() - ii,
{
    if ii < s.len() - 1 && !(s[ii] == 0x2A && s[ii + 1] == 0x2F) {
        lemma_comment_scan_cut(s, ii + 1);
    }
}

proof fn lemma_string_body_cut(s: Seq<u16>, ending: u16, off: int)
    requires
        0 <= off,
        ending < 0x80,
    ensures
        string_body_spec(s, ending, off).1 >= off,
        cut_at(s, string_body_spec(s, ending, off).1),
        string_body_spec(s, ending, off).0 == STRING_TOKEN || string_body_spec(s, ending, off).0
            == BAD_STRING_TOKEN,
    decreases s.len() - off,
{
    if 0 <= off < s.len() {
        let code = s[off];
        let cat = char_code_category_spec(code as int);
        if cat == ending as int {
            assert(code < 0x80);
        } else if cat == WHITE_SPACE_CATEGORY as int {
            if is_newline_spec(code as int) {
            } else {
                lemma_string_body_cut(s, ending, off + 1);
            }
        } else if code == 0x5C {
            if off == s.len() - 1 {
                lemma_string_body_cut(s, ending, off + 1);
            } else {
                let next = code_unit_at(s, off + 1);
                if is_newline_spec(next as int) {
                    lemma_string_body_cut(
                        s,
                        ending,
                        off + new_line_length_spec(s, off + 1, next as int) + 1,
                    );
                } else if is_valid_escape_spec(code as int, next as int) {
                    let e = consume_escaped_spec(s, off);
                    lemma_consume_escaped_lb(s, off);
                    if off < e <= s.len() {
                        lemma_string_body_cut(s, ending, e);
                    }
                } else {
                    lemma_string_body_cut(s, ending, off + 1);
                }
            }
        } else {
            lemma_string_body_cut(s, ending, off + 1);
        }
    }
}

proof fn lemma_url_body_cut(s: Seq<u16>, off: int)
    requires
        0 <= off,
    ensures
        url_body_spec(s, off).1 >= off,
        cut_at(s, url_body_spec(s, off).1),
        url_body_spec(s, off).0 == URL_TOKEN || url_body_spec(s, off).0 == BAD_URL_TOKEN,
    decreases s.len() - off,
{
    if 0 <= off < s.len() {
        let code = s[off];
        let cat = char_code_category_spec(code as int);
        if cat == 0x29 {
            assert(code == 0x29);
        } else if cat == WHITE_SPACE_CATEGORY as int {
            lemma_find_ws_range(s, off);
            let w = find_white_space_end_spec(s, off);
            if code_unit_at(s, w) == 0x29 || w >= s.len() {
            } else {
                lemma_bad_url_remnants_cut(s, w);
            }
        } else if cat == 0x22 || cat == 0x27 || cat == 0x28 || cat == NON_PRINTABLE_CATEGORY
            as int {
            lemma_bad_url_remnants_cut(s, off);
        } else if cat == 0x5C {
            if is_valid_escape_spec(code as int, code_unit_at(s, off + 1) as int) {
                let e = consume_escaped_spec(s, off);
                lemma_consume_escaped_lb(s, off);
                if off < e <= s.len() {
                    lemma_url_body_cut(s, e);
                }
            } else {
                lemma_bad_url_remnants_cut(s, off);
            }
        } else {
            lemma_url_body_cut(s, off + 1);
        }
    }
}

proof fn lemma_consume_numeric_cut(s: Seq<u16>, off: int)
    requires
        0 <= off,
    ensures
        cut_at(s, consume_numeric_spec(s, off).1),
{
    let n = consume_number_spec(s, off);
    lemma_consume_number_lb(s, off);
    if is_identifier_start_spec(
        code_unit_at(s, n) as int,
        code_unit_at(s, n + 1) as int,
        code_unit_at(s, n + 2) as int,
    ) {
        lemma_consume_name_end(s, n);
    } else {
        // the number's end unit starts no identifier, so it is ASCII
        assert(n < s.len() ==> s[n] < 0x80);
    }
}

proof fn lemma_consume_ident_like_cut(s: Seq<u16>, off: int)
    requires
        0 <= off,
    ensures
        cut_at(s, consume_ident_like_spec(s, off).1),
        crate::char_code_definitions::is_name_start_spec(code_unit_at(s, off) as int)
            ==> consume_ident_like_spec(s, off).1 > off,
        consume_ident_like_spec(s, off).0 == FUNCTION_TOKEN || consume_ident_like_spec(s, off).0
            == IDENT_TOKEN || consume_ident_like_spec(s, off).0 == URL_TOKEN
            || consume_ident_like_spec(s, off).0 == BAD_URL_TOKEN,
{
    let n = consume_name_spec(s, off);
    lemma_consume_name_end(s, off);
    if 0 <= off < s.len() && is_name_spec(s[off] as int) {
        lemma_consume_name_end(s, off + 1);
    }
    if cmp_str_spec(s, off, n, url_seq_spec()) && code_unit_at(s, n) == 0x28 {
        lemma_find_ws_range(s, n + 1);
        let w = find_white_space_end_spec(s, n + 1);
        if code_unit_at(s, w) == 0x22 || code_unit_at(s, w) == 0x27 {
            assert(n == off + 3 && s[n] == 0x28);
            assert(cut_at(s, off + 4));
        } else {
            lemma_find_ws_range(s, w);
            lemma_url_body_cut(s, find_white_space_end_spec(s, w));
        }
    }
}

/// The raw end of the token at `off` is a cut, once capped at the buffer
/// length; and a delim token is exactly one code unit.
proof fn lemma_next_token_cut(s: Seq<u16>, off: int)
    requires
        0 <= off < s.len(),
    ensures
        ({
            let (k, e0) = next_token_spec(s, off);
            let adv = if e0 > off {
                e0
            } else {
                off + 1
            };
            let end = if adv > s.len() {
                s.len() as int
            } else {
                adv
            };
            &&& cut_at(s, end)
            &&& (k == DELIM_TOKEN ==> e0 == off + 1)
        }),
{
    let code = s[off];
    let cat = char_code_category_spec(code as int);
    let (k, e0) = next_token_spec(s, off);
    let adv = if e0 > off {
        e0
    } else {
        off + 1
    };
    let end = if adv > s.len() {
        s.len() as int
    } else {
        adv
    };
    if cat == WHITE_SPACE_CATEGORY as int {
        lemma_find_ws_range(s, off + 1);
        assert(cut_at(s, end));
    } else if cat == 0x22 || cat == 0x27 {
        lemma_string_body_cut(s, code_unit_at(s, off), off + 1);
        assert(cut_at(s, end));
    } else if cat == 0x23 {
        lemma_consume_name_end(s, off + 1);
        assert(cut_at(s, end));
    } else if cat == 0x2B || cat == 0x2E {
        lemma_consume_numeric_cut(s, off);
        assert(cut_at(s, end));
    } else if cat == 0x2D {
        lemma_consume_numeric_cut(s, off);
        lemma_consume_ident_like_cut(s, off);
        assert(cut_at(s, end));
    } else if cat == 0x2F {
        if code_unit_at(s, off + 1) == 0x2A {
            lemma_comment_scan_cut(s, off + 2);
        }
        assert(cut_at(s, end));
    } else if cat == 0x40 {
        lemma_consume_name_end(s, off + 1);
        assert(cut_at(s, end));
    } else if cat == 0x5C {
        lemma_consume_ident_like_cut(s, off);
        assert(cut_at(s, end));
    } else if cat == DIGIT_CATEGORY as int {
        lemma_consume_numeric_cut(s, off);
        assert(cut_at(s, end));
    } else if cat == NAME_START_CATEGORY as int {
        lemma_consume_ident_like_cut(s, off);
        assert(cut_at(s, end));
    } else {
        // every remaining first unit is ASCII: a unit at or above 0x80
        // would have the name-start category
        assert(code < 0x80);
        assert(cut_at(s, end));
    }
    assert(k == DELIM_TOKEN ==> e0 == off + 1);
}

/// Every token span boundary is a cut, and every delim token spans one
/// code unit.
pub proof fn lemma_token_cuts(s: Seq<u16>, off: int)
    requires
        0 <= off <= s.len(),
        cut_at(s, off),
    ensures
        forall|i: int|
            0 <= i < token_seq(s, off).len() ==> cut_at(s, #[trigger] token_seq(s, off)[i].1)
                && cut_at(s, token_seq(s, off)[i].2),
        forall|i: int|
            0 <= i < token_seq(s, off).len() && #[trigger] token_seq(s, off)[i].0 == DELIM_TOKEN
                ==> token_seq(s, off)[i].2 == token_seq(s, off)[i].1 + 1,
    decreases s.len() - off,
{
    let ts = token_seq(s, off);
    if 0 <= off < s.len() {
        let (k, e0) = next_token_spec(s, off);
        let adv = if e0 > off {
            e0
        } else {
            off + 1
        };
        let end = if adv > s.len() {
            s.len() as int
        } else {
            adv
        };
        lemma_next_token_cut(s, off);
        lemma_token_cuts(s, end);
        let rest = token_seq(s, end);
        assert(ts == seq![(k, off, end)] + rest);
        assert forall|i: int| 0 <= i < ts.len() implies cut_at(s, #[trigger] ts[i].1) && cut_at(
            s,
            ts[i].2,
        ) by {
            if i > 0 {
                assert(ts[i] == rest[i - 1]);
            }
        }
        assert forall|i: int|
            0 <= i < ts.len() && #[trigger] ts[i].0 == DELIM_TOKEN implies ts[i].2 == ts[i].1
            + 1 by {
            if i > 0 {
                assert(ts[i] == rest[i - 1]);
            }
        }
    }
}

} // verus!
