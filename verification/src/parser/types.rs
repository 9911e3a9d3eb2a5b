//! Token kinds of the CSS syntax grammar, as stable integer tags.

use vstd::prelude::*;

verus! {

pub const EOF_TOKEN: u16 = 0;

pub const IDENT_TOKEN: u16 = 1;

pub const FUNCTION_TOKEN: u16 = 2;

pub const AT_KEYWORD_TOKEN: u16 = 3;

pub const HASH_TOKEN: u16 = 4;

pub const STRING_TOKEN: u16 = 5;

pub const BAD_STRING_TOKEN: u16 = 6;

pub const URL_TOKEN: u16 = 7;

pub const BAD_URL_TOKEN: u16 = 8;

pub const DELIM_TOKEN: u16 = 9;

pub const NUMBER_TOKEN: u16 = 10;

pub const PERCENTAGE_TOKEN: u16 = 11;

pub const DIMENSION_TOKEN: u16 = 12;

pub const WHITESPACE_TOKEN: u16 = 13;

pub const CDO_TOKEN: u16 = 14;

pub const CDC_TOKEN: u16 = 15;

pub const COLON_TOKEN: u16 = 16;

pub const SEMICOLON_TOKEN: u16 = 17;

pub const COMMA_TOKEN: u16 = 18;

pub const LEFT_SQUARE_BRACKET_TOKEN: u16 = 19;

pub const RIGHT_SQUARE_BRACKET_TOKEN: u16 = 20;

pub const LEFT_PARENTHESES_TOKEN: u16 = 21;

pub const RIGHT_PARENTHESES_TOKEN: u16 = 22;

pub const LEFT_CURLY_BRACKET_TOKEN: u16 = 23;

pub const RIGHT_CURLY_BRACKET_TOKEN: u16 = 24;

pub const COMMENT_TOKEN: u16 = 25;

} // verus!
