use web_style_transformer::char_code_definitions::get_start_offset;
use web_style_transformer::parser::parse_inline_style::{
    parse_inline_style, parse_inline_style_bytes, DeclarationList,
};
use web_style_transformer::parser::tokenize::{tokenize, tokenize_bytes, TokenList};
use web_style_transformer::transformer::transform::{
    is_digit_only, query_transform_rules, transform_inline_style_string,
};

fn u16s(s: &str) -> Vec<u16> {
    s.bytes().map(|b| b as u16).collect()
}

/// The emitted token spans partition the post-BOM input: contiguous, in
/// order, no gaps, and their concatenation reproduces the input.
#[test]
fn span_partition_samples() {
    for source in [
        "color: red;",
        "background: url( te st ) 'x' \"bad\nstring\" 12px 34% .5e6 /* c */ @media #id <!-- --> {[()]}",
        "flex:1 2 3; weird\\41 name: url(bad\"url);",
        "",
        "   ",
    ] {
        let bytes = source.as_bytes();
        let mut collector = TokenList::new();
        tokenize_bytes(bytes, &mut collector);
        let tokens = collector.items;
        let mut concat = Vec::new();
        let mut expected_start = 0;
        for (_, start, end) in &tokens {
            assert_eq!(*start, expected_start);
            assert!(start < end);
            assert!(*end <= bytes.len());
            concat.extend_from_slice(&bytes[*start..*end]);
            expected_start = *end;
        }
        assert_eq!(concat, bytes);
        if !bytes.is_empty() {
            assert_eq!(tokens.last().unwrap().2, bytes.len());
        }
    }
}

/// A declaration whose name matches no rule and is none of the special
/// properties appears byte-identical in the output.
#[test]
fn passthrough_byte_identical() {
    let source = "margin : 4px  2px;display:linear;border: 1px solid red ;flex:1;padding:0;";
    let result = transform_inline_style_string(source).0;
    assert!(result.contains("margin : 4px  2px;"));
    assert!(result.contains("border: 1px solid red ;"));
    assert!(result.contains("padding:0;"));
}

/// With no rewritten declaration at all, the primary output is empty.
#[test]
fn no_rule_means_empty_primary() {
    let (primary, children) = transform_inline_style_string("height:1px;");
    assert_eq!(primary, "");
    assert_eq!(children, "");
}

/// `linear-weight-sum` feeds only the children channel.
#[test]
fn children_channel_empty_primary() {
    let (primary, children) = transform_inline_style_string("linear-weight-sum: 1;");
    assert_eq!(primary, "");
    assert_eq!(children, "--lynx-linear-weight-sum:1;");
}

/// The 16-bit and 8-bit front ends parse ASCII text identically.
#[test]
fn dual_width_parity() {
    for source in [
        "color: red !important; flex: 1 2em;bad{};a:b",
        "  x:y;; url(a b) : v;",
    ] {
        let mut wide_sink = DeclarationList::new();
        parse_inline_style(&u16s(source), &mut wide_sink);
        let mut byte_sink = DeclarationList::new();
        parse_inline_style_bytes(source.as_bytes(), &mut byte_sink);
        assert_eq!(wide_sink.items.len(), byte_sink.items.len());
        for (a, b) in wide_sink.items.iter().zip(byte_sink.items.iter()) {
            assert_eq!(a.name_start, b.name_start);
            assert_eq!(a.name_end, b.name_end);
            assert_eq!(a.value_start, b.value_start);
            assert_eq!(a.value_end, b.value_end);
            assert_eq!(a.is_important, b.is_important);
        }
    }
}

/// A 16-bit buffer opening with a byte-order mark skips one code unit.
#[test]
fn wide_bom_is_skipped() {
    let mut source = vec![0xFEFFu16];
    source.extend(u16s("a:b;"));
    let mut sink = TokenList::new();
    tokenize(&source, &mut sink);
    assert_eq!(sink.items[0].1, 1);
    let mut decls = DeclarationList::new();
    parse_inline_style(&source, &mut decls);
    assert_eq!(decls.items.len(), 1);
    assert_eq!(decls.items[0].name_start, 1);
}

/// The 8-bit byte-order mark is three bytes, skipped even when it is the
/// whole buffer.
#[test]
fn byte_bom_offsets() {
    assert_eq!(get_start_offset("\u{FEFF}color".as_bytes()), 3);
    assert_eq!(get_start_offset(&[0xEF, 0xBB, 0xBF]), 3);
    assert_eq!(get_start_offset("color".as_bytes()), 0);
    assert_eq!(get_start_offset(&[0xEF, 0xBB]), 0);
    assert_eq!(get_start_offset(&[]), 0);
}

#[test]
fn digit_only_checks() {
    assert!(is_digit_only("123"));
    assert!(is_digit_only(""));
    assert!(!is_digit_only("12a"));
    assert!(!is_digit_only("1 2"));
}

/// An empty flex value produces no replacement pairs at all.
#[test]
fn flex_empty_value() {
    let (primary, children) = query_transform_rules("flex", "");
    assert!(primary.is_empty());
    assert!(children.is_empty());
}

/// Extra flex fields past the third are ignored.
#[test]
fn flex_extra_fields_ignored() {
    let result = transform_inline_style_string("flex:1 2 3 4 5;").0;
    assert_eq!(result, "--flex-grow:1;--flex-shrink:2;--flex-basis:3;");
}

/// The `color` keyword routes through the reset triple even for values
/// merely containing (not opening with) `linear-gradient`.
#[test]
fn color_gradient_must_be_prefix() {
    let result = transform_inline_style_string("color:not-linear-gradient(a,b);").0;
    assert_eq!(
        result,
        "--lynx-text-bg-color:initial;-webkit-background-clip:initial;background-clip:initial;color:not-linear-gradient(a,b);"
    );
}

/// Direct rule queries produce the pairs the rewritten text is built of.
#[test]
fn query_color_and_weight() {
    let (primary, children) = query_transform_rules("color", "blue");
    assert_eq!(primary.len(), 4);
    assert_eq!(primary[3].0, "color");
    assert_eq!(primary[3].1, "blue");
    assert!(children.is_empty());

    let (primary, children) = query_transform_rules("linear-weight", "2");
    assert_eq!(primary.len(), 2);
    assert_eq!(primary[0].0, "--lynx-linear-weight");
    assert_eq!(primary[0].1, "2");
    assert_eq!(primary[1].0, "--lynx-linear-weight-basis");
    assert_eq!(primary[1].1, "0");
    assert!(children.is_empty());

    let (primary, children) = query_transform_rules("linear-weight", "0");
    assert_eq!(primary.len(), 1);
    assert!(children.is_empty());

    let (primary, children) = query_transform_rules("linear-weight-sum", "3");
    assert!(primary.is_empty());
    assert_eq!(children.len(), 1);
    assert_eq!(children[0].0, "--lynx-linear-weight-sum");
    assert_eq!(children[0].1, "3");
}

/// Non-ASCII text passes through the rewrite byte-identically.
#[test]
fn non_ascii_value_passthrough() {
    let source = "flex-direction:row;font-family: 宋体;";
    let result = transform_inline_style_string(source).0;
    assert_eq!(result, "--flex-direction:row;font-family: 宋体;");
}

/// Mixed valid and malformed declarations: the malformed ones contribute
/// nothing and the valid one is rewritten.
#[test]
fn mixed_validity_transform() {
    let source = "color: red;; invalid: ;;";
    let result = transform_inline_style_string(source).0;
    assert_eq!(
        result,
        "--lynx-text-bg-color:initial;-webkit-background-clip:initial;background-clip:initial;color:red;; invalid: ;;"
    );
}

/// A bracketed (aborted) declaration contributes nothing, and its text
/// passes through ahead of the next rewritten declaration.
#[test]
fn bracket_abort_passes_through() {
    let source = "color: red{};display:linear;";
    let result = transform_inline_style_string(source).0;
    assert_eq!(
        result,
        "color: red{};--lynx-display-toggle:var(--lynx-display-linear);--lynx-display:linear;display:flex;"
    );
}

/// `!important` with no space before the `!` is still detected, and the
/// original marker text passes through after the last generated pair.
#[test]
fn important_without_space() {
    let source = "display:linear!important;";
    let result = transform_inline_style_string(source).0;
    assert_eq!(
        result,
        "--lynx-display-toggle:var(--lynx-display-linear) !important;--lynx-display:linear !important;display:flex!important;"
    );
}

/// The one-field digit test looks at the field itself, so a field set off
/// by trailing whitespace in a directly queried value still counts as
/// the grow factor.
#[test]
fn flex_single_field_digits() {
    let (primary, _) = query_transform_rules("flex", "5\t");
    assert_eq!(primary.len(), 3);
    assert_eq!(primary[0].0, "--flex-grow");
    assert_eq!(primary[0].1, "5");
    assert_eq!(primary[1].0, "--flex-shrink");
    assert_eq!(primary[1].1, "1");
    assert_eq!(primary[2].0, "--flex-basis");
    assert_eq!(primary[2].1, "0%");
}
