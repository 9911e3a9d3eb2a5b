use web_style_transformer::transformer::rules::{get_rename_rule_value, get_replace_rule_value};

#[test]
fn test_rename_rule_flex_direction() {
    let source = "flex-direction:row";
    let name = &source[0..source.len() - 4];
    let result = get_rename_rule_value(name).unwrap();
    assert_eq!(result, "--flex-direction");
}

#[test]
fn test_rename_rule_flex_direction_at_mid() {
    let source = "height:1px;flex-direction:row";
    let offset = "height:1px;".len();
    let name = &source[offset..source.len() - 4];
    let result = get_rename_rule_value(name).unwrap();
    assert_eq!(result, "--flex-direction");
}

#[test]
fn test_replace_rule_display_linear() {
    let source = "display:linear";
    let name = &source[0..7];
    let value = &source[8..];
    let result = get_replace_rule_value(name, value)
        .unwrap()
        .iter()
        .map(|pair| format!("{}:{}", pair.0, pair.1))
        .collect::<Vec<_>>()
        .join(";");
    assert_eq!(
        result,
        "--lynx-display-toggle:var(--lynx-display-linear);--lynx-display:linear;display:flex"
    );
}

#[test]
fn test_replace_rule_display_linear_at_mid() {
    let source = "height:1px;display:linear";
    let offset = "height:1px;".len();
    let name = &source[offset..offset + 7];
    let value = &source[offset + 8..];
    let result = get_replace_rule_value(name, value)
        .unwrap()
        .iter()
        .map(|pair| format!("{}:{}", pair.0, pair.1))
        .collect::<Vec<_>>()
        .join(";");
    assert_eq!(
        result,
        "--lynx-display-toggle:var(--lynx-display-linear);--lynx-display:linear;display:flex"
    );
}

#[test]
fn test_rename_rule_not_exist() {
    let source = "background-image:url(\"https://example.com\")";
    let name = &source[0.."background-image".len()];
    let result = get_rename_rule_value(name);
    assert_eq!(result, None);
}

#[test]
fn test_replace_rule_value_not_match() {
    let source = "display:grid";
    let name = &source[0..7];
    let value = &source[8..];
    let result = get_replace_rule_value(name, value);
    assert!(result.is_none());
}

#[test]
fn test_replace_rule_name_not_match() {
    let source = "height:1px";
    let name = &source[0..6];
    let value = &source[7..];
    let result = get_replace_rule_value(name, value);
    assert!(result.is_none());
}
