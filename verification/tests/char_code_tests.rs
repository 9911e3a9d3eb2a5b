use web_style_transformer::char_code_definitions::{
    char_code_category, cmp_char, get_char_code, get_new_line_length, is_digit, is_hex_digit,
    is_identifier_start, is_letter, is_lowercase_letter, is_name, is_name_start, is_newline,
    is_non_ascii, is_non_printable, is_number_start, is_uppercase_letter, is_valid_escape,
    is_white_space, DIGIT_CATEGORY, EOF_CATEGORY, NAME_START_CATEGORY, NON_PRINTABLE_CATEGORY,
    WHITE_SPACE_CATEGORY,
};
use web_style_transformer::parser::utils::{
    cmp_str, consume_bad_url_remnants, consume_escaped, consume_name, consume_number,
    find_decimal_number_end, find_white_space_end,
};

fn u16s(s: &str) -> Vec<u16> {
    s.bytes().map(|b| b as u16).collect()
}

#[test]
fn test_character_classification_macros() {
    // Test digit classification
    assert!(is_digit(b'0'));
    assert!(is_digit(b'9'));
    assert!(!is_digit(b'a'));

    // Test hex digit classification
    assert!(is_hex_digit(b'0'));
    assert!(is_hex_digit(b'A'));
    assert!(is_hex_digit(b'f'));
    assert!(!is_hex_digit(b'g'));

    // Test letter classification
    assert!(is_uppercase_letter(b'A'));
    assert!(is_uppercase_letter(b'Z'));
    assert!(!is_uppercase_letter(b'a'));

    assert!(is_lowercase_letter(b'a'));
    assert!(is_lowercase_letter(b'z'));
    assert!(!is_lowercase_letter(b'A'));

    assert!(is_letter(b'A'));
    assert!(is_letter(b'z'));
    assert!(!is_letter(b'1'));

    // Test non-ASCII
    assert!(is_non_ascii(0x0080));
    assert!(!is_non_ascii(0x007F));

    // Test name-start
    assert!(is_name_start(b'a'));
    assert!(is_name_start(b'_'));
    assert!(is_name_start(0x0080));
    assert!(!is_name_start(b'1'));

    // Test name
    assert!(is_name(b'a'));
    assert!(is_name(b'1'));
    assert!(is_name(b'-'));
    assert!(!is_name(b' '));

    // Test non-printable
    assert!(is_non_printable(0x0008));
    assert!(is_non_printable(0x000B));
    assert!(is_non_printable(0x007F));
    assert!(!is_non_printable(0x0020));

    // Test newline
    assert!(is_newline(0x000A)); // LF
    assert!(is_newline(0x000D)); // CR
    assert!(is_newline(0x000C)); // FF
    assert!(!is_newline(0x0020)); // SPACE

    // Test whitespace
    assert!(is_white_space(0x0020)); // SPACE
    assert!(is_white_space(0x0009)); // TAB
    assert!(is_white_space(0x000A)); // LF
    assert!(!is_white_space(0x0041)); // 'A'

    // Test valid escape
    assert!(is_valid_escape(0x005C, 0x0041)); // \A
    assert!(!is_valid_escape(0x005C, 0x000A)); // \newline
    assert!(!is_valid_escape(0x0041, 0x0041)); // AA

    // Test identifier start
    assert!(is_identifier_start(0x0041, 0x0042, 0x0043)); // ABC
    assert!(is_identifier_start(0x002D, 0x0041, 0x0042)); // -AB
    assert!(is_identifier_start(0x002D, 0x002D, 0x0041)); // --A
    assert!(is_identifier_start(0x005C, 0x0041, 0x0042)); // \AB
    assert!(!is_identifier_start(0x0031, 0x0032, 0x0033)); // 123

    // Test number start
    assert!(is_number_start(0x0031, 0x0032, 0x0033)); // 123
    assert!(is_number_start(0x002B, 0x0031, 0x0032)); // +12
    assert!(is_number_start(0x002D, 0x0031, 0x0032)); // -12
    assert!(is_number_start(0x002E, 0x0031, 0x0032)); // .12
    assert!(is_number_start(0x002B, 0x002E, 0x0031)); // +.1
    assert!(!is_number_start(0x0041, 0x0042, 0x0043)); // ABC
}

#[test]
fn test_char_code_category() {
    // Test basic categories
    assert_eq!(char_code_category(0x0020), WHITE_SPACE_CATEGORY); // SPACE
    assert_eq!(char_code_category(0x0031), DIGIT_CATEGORY); // '1'
    assert_eq!(char_code_category(0x0041), NAME_START_CATEGORY); // 'A'
    assert_eq!(char_code_category(0x0008), NON_PRINTABLE_CATEGORY);
    assert_eq!(char_code_category(0x0080), NAME_START_CATEGORY); // non-ASCII

    // Test specific character codes
    assert_eq!(char_code_category(0x0022), 0x0022); // quote
    assert_eq!(char_code_category(0x0023), 0x0023); // hash
    assert_eq!(char_code_category(0x0028), 0x0028); // left paren
}

#[test]
fn test_utility_functions() {
    // Test cmp_str function
    let test_str = u16s("hello");
    let reference = u16s("hello");
    assert!(cmp_str(&test_str, 0, 5, &reference));

    let reference2 = u16s("world");
    assert!(!cmp_str(&test_str, 0, 5, &reference2));

    // Test case insensitive comparison
    let test_str_upper = u16s("HELLO");
    let reference_lower = u16s("hello");
    assert!(cmp_str(&test_str_upper, 0, 5, &reference_lower));

    // Test partial string comparison
    let test_str_long = u16s("hello world");
    assert!(cmp_str(&test_str_long, 0, 5, &reference));
    let world_ref = u16s("world");
    assert!(cmp_str(&test_str_long, 6, 11, &world_ref));

    // Test out of bounds
    assert!(!cmp_str(&test_str, 0, 10, &reference)); // end > length
    assert!(!cmp_str(&test_str, 0, 3, &reference)); // different lengths

    // Test find_white_space_end
    let whitespace_str = u16s("   hello");
    assert_eq!(find_white_space_end(&whitespace_str, 0), 3);

    let no_whitespace = u16s("hello");
    assert_eq!(find_white_space_end(&no_whitespace, 0), 0);

    let all_whitespace = u16s("   ");
    assert_eq!(find_white_space_end(&all_whitespace, 0), 3);

    // Test find_decimal_number_end
    let number_str = u16s("123abc");
    assert_eq!(find_decimal_number_end(&number_str, 0), 3);

    let no_number = u16s("abc123");
    assert_eq!(find_decimal_number_end(&no_number, 0), 0);

    let all_numbers = u16s("123456");
    assert_eq!(find_decimal_number_end(&all_numbers, 0), 6);

    // Test consume_number
    let simple_number = u16s("123");
    assert_eq!(consume_number(&simple_number, 0), 3);

    let signed_number = u16s("+123");
    assert_eq!(consume_number(&signed_number, 0), 4);

    let negative_number = u16s("-123");
    assert_eq!(consume_number(&negative_number, 0), 4);

    let decimal_number = u16s("123.456");
    assert_eq!(consume_number(&decimal_number, 0), 7);

    let scientific_number = u16s("123e456");
    assert_eq!(consume_number(&scientific_number, 0), 7);

    let scientific_signed = u16s("123e+456");
    assert_eq!(consume_number(&scientific_signed, 0), 8);

    let scientific_negative = u16s("123e-456");
    assert_eq!(consume_number(&scientific_negative, 0), 8);

    // Test consume_name
    let simple_name = u16s("hello");
    assert_eq!(consume_name(&simple_name, 0), 5);

    let hyphenated_name = u16s("hello-world");
    assert_eq!(consume_name(&hyphenated_name, 0), 11);

    let name_with_digits = u16s("hello123");
    assert_eq!(consume_name(&name_with_digits, 0), 8);

    let name_with_underscore = u16s("_hello");
    assert_eq!(consume_name(&name_with_underscore, 0), 6);

    // Test consume_escaped
    let escaped_char = u16s("\\41 "); // \41 = 'A'
    assert_eq!(consume_escaped(&escaped_char, 0), 4); // includes whitespace consumption

    let escaped_simple = u16s("\\A");
    assert_eq!(consume_escaped(&escaped_simple, 0), 2);

    let escaped_hex = u16s("\\41424344");
    assert_eq!(consume_escaped(&escaped_hex, 0), 7); // max 6 hex digits after \

    // Test consume_bad_url_remnants
    let bad_url = u16s("test)");
    assert_eq!(consume_bad_url_remnants(&bad_url, 0), 5);

    let bad_url_no_close = u16s("test");
    assert_eq!(consume_bad_url_remnants(&bad_url_no_close, 0), 4);

    let bad_url_with_escape = u16s("te\\)st)");
    assert_eq!(consume_bad_url_remnants(&bad_url_with_escape, 0), 7);
}

#[test]
fn test_additional_edge_cases() {
    // Test cmp_char
    let source: &[u8] = "Hello".as_bytes();
    assert_eq!(cmp_char(source, 5, 0, b'h'), 1); // Should match (case insensitive)
    assert_eq!(cmp_char(source, 5, 0, b'H'), 1); // Should match
    assert_eq!(cmp_char(source, 5, 0, b'x'), 0); // Should not match
    assert_eq!(cmp_char(source, 5, 10, b'H'), 0); // Out of bounds

    // Test get_char_code
    assert_eq!(get_char_code(source, 0), b'H');
    assert_eq!(get_char_code(source, 10), 0); // EOF for out of bounds

    // Test get_new_line_length
    let crlf: &[u8] = "\r\n".as_bytes();
    assert_eq!(get_new_line_length(crlf, 0, 13), 2); // \r\n is 2 chars
    let lf: &[u8] = "\n".as_bytes();
    assert_eq!(get_new_line_length(lf, 0, 10), 1); // \n is 1 char

    // Test edge cases in consume_number with incomplete scientific notation
    let incomplete_sci = u16s("123e");
    assert_eq!(consume_number(&incomplete_sci, 0), 3); // Just the "123" part

    let incomplete_sci_sign = u16s("123e+");
    assert_eq!(consume_number(&incomplete_sci_sign, 0), 3); // Just the "123" part

    // Test single plus/minus not followed by digit
    let just_plus = u16s("+");
    assert_eq!(consume_number(&just_plus, 0), 1);

    let just_minus = u16s("-");
    assert_eq!(consume_number(&just_minus, 0), 1);

    // Test empty consume_name
    let empty = u16s("");
    assert_eq!(consume_name(&empty, 0), 0);

    // Test consume_escaped with short input
    let short = u16s("\\A");
    assert_eq!(consume_escaped(&short, 0), 2);

    // Test consume_escaped with non-hex
    let non_hex = u16s("\\G");
    assert_eq!(consume_escaped(&non_hex, 0), 2);
}

#[test]
fn bom_be() {}
