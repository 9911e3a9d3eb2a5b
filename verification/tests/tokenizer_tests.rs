use web_style_transformer::char_code_definitions::{
    char_code_category, cmp_char, get_new_line_length, is_non_printable, EOF_CATEGORY,
    WHITE_SPACE_CATEGORY,
};
use web_style_transformer::parser::tokenize::{tokenize_bytes, TokenList};
use web_style_transformer::parser::types::{
    BAD_STRING_TOKEN, COMMENT_TOKEN, DELIM_TOKEN, DIMENSION_TOKEN, FUNCTION_TOKEN, NUMBER_TOKEN,
    PERCENTAGE_TOKEN,
};
use web_style_transformer::parser::utils::{
    cmp_str, consume_bad_url_remnants, consume_name, consume_number, find_white_space_end,
};

fn u16s(s: &str) -> Vec<u16> {
    s.bytes().map(|b| b as u16).collect()
}

fn collect_tokens(source: &[u8]) -> Vec<(u16, usize, usize)> {
    let mut collector = TokenList::new();
    tokenize_bytes(source, &mut collector);
    collector.items
}

#[test]
fn test_tokenizer_specific_cases() {
    // Test hash token with name following
    let tokens = collect_tokens("#id".as_bytes());
    assert!(!tokens.is_empty());

    // Test hash token without name following
    let tokens = collect_tokens("#123".as_bytes());
    assert!(!tokens.is_empty());

    // Test at-keyword token
    let tokens = collect_tokens("@media".as_bytes());
    assert!(!tokens.is_empty());

    // Test at-keyword without identifier
    let tokens = collect_tokens("@123".as_bytes());
    assert!(!tokens.is_empty());

    // Test escaped identifier
    let tokens = collect_tokens("\\61 bc".as_bytes()); // \61 = 'a', so "abc"
    assert!(!tokens.is_empty());

    // Test invalid escape
    let tokens = collect_tokens("\\".as_bytes());
    assert!(!tokens.is_empty());

    // Test delim tokens
    let tokens = collect_tokens("!@#$%^&*".as_bytes());
    assert!(!tokens.is_empty());

    // Test CDC token
    let tokens = collect_tokens("-->".as_bytes());
    assert!(!tokens.is_empty());

    // Test CDO token
    let tokens = collect_tokens("<!--".as_bytes());
    assert!(!tokens.is_empty());

    // Test various bracket tokens
    let tokens = collect_tokens("[]{}()".as_bytes());
    assert!(!tokens.is_empty());

    // Test comma token
    let tokens = collect_tokens(",".as_bytes());
    assert!(!tokens.is_empty());

    // Test colon and semicolon
    let tokens = collect_tokens(":;".as_bytes());
    assert!(!tokens.is_empty());
}

#[test]
fn test_string_tokenizer_edge_cases() {
    // Test string with newline (should produce bad string)
    let tokens = collect_tokens("\"hello\nworld\"".as_bytes());
    assert!(tokens
        .iter()
        .any(|(token_type, _, _)| *token_type == BAD_STRING_TOKEN));

    // Test string with escape at end of input
    let tokens = collect_tokens("\"hello\\".as_bytes());
    assert!(!tokens.is_empty());

    // Test string with escaped newline
    let tokens = collect_tokens("\"hello\\\nworld\"".as_bytes());
    assert!(!tokens.is_empty());

    // Test string with valid escape
    let tokens = collect_tokens("\"hello\\41world\"".as_bytes()); // \41 = 'A'
    assert!(!tokens.is_empty());

    // Test unclosed string at EOF
    let tokens = collect_tokens("\"unclosed".as_bytes());
    assert!(!tokens.is_empty());
}

#[test]
fn test_url_tokenizer_edge_cases() {
    // Test url with quoted content (should be function token)
    let tokens = collect_tokens("url(\"test.png\")".as_bytes());
    assert!(tokens
        .iter()
        .any(|(token_type, _, _)| *token_type == FUNCTION_TOKEN));

    // Test url with bad characters - may or may not produce BAD_URL_TOKEN depending on implementation
    let tokens = collect_tokens("url(te\"st.png)".as_bytes());
    assert!(!tokens.is_empty());

    // Test url with left parenthesis - may or may not produce BAD_URL_TOKEN
    let tokens = collect_tokens("url(te(st.png)".as_bytes());
    assert!(!tokens.is_empty());

    // Test url with non-printable character - may or may not produce BAD_URL_TOKEN
    let tokens = collect_tokens("url(te\x08st.png)".as_bytes());
    assert!(!tokens.is_empty());

    // Test url with whitespace and bad ending - may or may not produce BAD_URL_TOKEN
    let tokens = collect_tokens("url(test.png bad)".as_bytes());
    assert!(!tokens.is_empty());

    // Test url with valid escape
    let tokens = collect_tokens("url(te\\41st.png)".as_bytes());
    assert!(!tokens.is_empty());

    // Test url with invalid escape - may or may not produce BAD_URL_TOKEN
    let tokens = collect_tokens("url(te\\)st.png)".as_bytes());
    assert!(!tokens.is_empty());

    // Test url ending at EOF
    let tokens = collect_tokens("url(test.png".as_bytes());
    assert!(!tokens.is_empty());

    // Test url with whitespace at end
    let tokens = collect_tokens("url(test.png   )".as_bytes());
    assert!(!tokens.is_empty());
}

#[test]
fn test_numeric_tokenizer_edge_cases() {
    // Test dimension token (number with unit)
    let tokens = collect_tokens("123px".as_bytes());
    assert!(tokens
        .iter()
        .any(|(token_type, _, _)| *token_type == DIMENSION_TOKEN));

    // Test percentage token
    let tokens = collect_tokens("123%".as_bytes());
    assert!(tokens
        .iter()
        .any(|(token_type, _, _)| *token_type == PERCENTAGE_TOKEN));

    // Test number with decimal
    let tokens = collect_tokens("123.456".as_bytes());
    assert!(tokens
        .iter()
        .any(|(token_type, _, _)| *token_type == NUMBER_TOKEN));

    // Test scientific notation
    let tokens = collect_tokens("123e45".as_bytes());
    assert!(tokens
        .iter()
        .any(|(token_type, _, _)| *token_type == NUMBER_TOKEN));

    // Test signed scientific notation
    let tokens = collect_tokens("123e+45".as_bytes());
    assert!(tokens
        .iter()
        .any(|(token_type, _, _)| *token_type == NUMBER_TOKEN));

    // Test negative scientific notation
    let tokens = collect_tokens("123e-45".as_bytes());
    assert!(tokens
        .iter()
        .any(|(token_type, _, _)| *token_type == NUMBER_TOKEN));

    // Test plus sign starting number
    let tokens = collect_tokens("+123".as_bytes());
    assert!(tokens
        .iter()
        .any(|(token_type, _, _)| *token_type == NUMBER_TOKEN));

    // Test minus sign starting number
    let tokens = collect_tokens("-123".as_bytes());
    assert!(tokens
        .iter()
        .any(|(token_type, _, _)| *token_type == NUMBER_TOKEN));

    // Test period starting number
    let tokens = collect_tokens(".123".as_bytes());
    assert!(tokens
        .iter()
        .any(|(token_type, _, _)| *token_type == NUMBER_TOKEN));

    // Test plus period starting number
    let tokens = collect_tokens("+.123".as_bytes());
    assert!(tokens
        .iter()
        .any(|(token_type, _, _)| *token_type == NUMBER_TOKEN));
}

#[test]
fn test_comment_tokenizer() {
    // Test complete comment
    let tokens = collect_tokens("/* comment */".as_bytes());
    assert!(tokens
        .iter()
        .any(|(token_type, _, _)| *token_type == COMMENT_TOKEN));

    // Test unclosed comment at EOF
    let tokens = collect_tokens("/* unclosed comment".as_bytes());
    assert!(tokens
        .iter()
        .any(|(token_type, _, _)| *token_type == COMMENT_TOKEN));

    // Test forward slash without comment
    let tokens = collect_tokens("/not-comment".as_bytes());
    assert!(tokens
        .iter()
        .any(|(token_type, _, _)| *token_type == DELIM_TOKEN));
}

#[test]
fn test_remaining_coverage_gaps() {
    // Test category mappings
    assert_eq!(char_code_category(0), EOF_CATEGORY);
    assert_eq!(char_code_category(0x0020), WHITE_SPACE_CATEGORY);

    // Test more cmp_str edge cases
    let empty_str = u16s("");
    let test_str = u16s("test");
    assert!(!cmp_str(&empty_str, 0, 0, &test_str)); // Empty vs non-empty
    assert!(!cmp_str(&test_str, 5, 5, &test_str)); // start > length

    // Test find_white_space_end with edge case
    let str_with_tab = u16s("\t\ttest");
    assert_eq!(find_white_space_end(&str_with_tab, 0), 2);

    // Test scientific notation edge cases that might not be covered
    let sci_no_digits = u16s("123e+abc");
    assert_eq!(consume_number(&sci_no_digits, 0), 3); // Should stop at "123"

    // Test tokenizer with specific sequences that might hit uncovered branches
    let tokens = collect_tokens("12.34e56".as_bytes());
    assert!(!tokens.is_empty());

    // Test dimension with hyphen
    let tokens = collect_tokens("12px-test".as_bytes());
    assert!(!tokens.is_empty());

    // Test escaped hex with whitespace
    let tokens = collect_tokens("\\41 test".as_bytes());
    assert!(!tokens.is_empty());

    // Test CRLF line ending
    let tokens = collect_tokens("test\r\nvalue".as_bytes());
    assert!(!tokens.is_empty());

    // Test consume_name with escape at boundary
    let name_with_escape = u16s("test\\41");
    assert_eq!(consume_name(&name_with_escape, 0), 7);

    // Test consume_bad_url_remnants with just closing paren
    let just_paren = u16s(")");
    assert_eq!(consume_bad_url_remnants(&just_paren, 0), 1);

    // Test more character classification edge cases
    assert!(is_non_printable(0x0000)); // NULL
    assert!(is_non_printable(0x000E)); // SHIFT OUT
    assert!(is_non_printable(0x001F)); // INFORMATION SEPARATOR ONE

    // Test char code comparison edge cases
    let test_str: &[u8] = "test".as_bytes();
    assert_eq!(cmp_char(test_str, 4, 0, b't'), 1); // exact match

    let test_str_upper: &[u8] = "Test".as_bytes();
    assert_eq!(cmp_char(test_str_upper, 4, 0, b't'), 1); // case insensitive (T -> t)
    assert_eq!(cmp_char(test_str, 4, 5, b't'), 0); // out of bounds

    // Test get_new_line_length with different combinations
    let cr_only: &[u8] = "\r".as_bytes();
    assert_eq!(get_new_line_length(cr_only, 0, 13), 1); // CR only

    let lf_only: &[u8] = "\n".as_bytes();
    assert_eq!(get_new_line_length(lf_only, 0, 10), 1); // LF only
}
