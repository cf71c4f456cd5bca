use power_editor::descriptions::descriptions_from_json;
use power_editor::power::{decode_cell, Value};
use power_editor::schema::{kind_at, FieldKind, COLUMN_COUNT};
use power_editor::text::{check_decimal, format_integer, parse_flag, parse_integer, text_equals};

#[test]
fn integers_format_canonically() {
    assert_eq!(format_integer(0), "0");
    assert_eq!(format_integer(42), "42");
    assert_eq!(format_integer(-7), "-7");
    assert_eq!(format_integer(i64::MAX), "9223372036854775807");
    assert_eq!(format_integer(i64::MIN), "-9223372036854775808");
}

#[test]
fn integers_parse_within_range() {
    assert_eq!(parse_integer("123"), Some(123));
    assert_eq!(parse_integer("-45"), Some(-45));
    assert_eq!(parse_integer("007"), Some(7));
    assert_eq!(parse_integer("9223372036854775807"), Some(i64::MAX));
    assert_eq!(parse_integer("-9223372036854775808"), Some(i64::MIN));
    assert_eq!(parse_integer("9223372036854775808"), None);
    assert_eq!(parse_integer(""), None);
    assert_eq!(parse_integer("-"), None);
    assert_eq!(parse_integer("1.5"), None);
    assert_eq!(parse_integer("12a"), None);
}

#[test]
fn decimals_are_checked() {
    assert!(check_decimal("1.5"));
    assert!(check_decimal("-0.25"));
    assert!(check_decimal("3"));
    assert!(check_decimal("2."));
    assert!(check_decimal(".5"));
    assert!(!check_decimal(""));
    assert!(!check_decimal("-"));
    assert!(!check_decimal("."));
    assert!(!check_decimal("1.2.3"));
    assert!(!check_decimal("fast"));
}

#[test]
fn flags_accept_three_spellings() {
    assert_eq!(parse_flag("true"), Some(true));
    assert_eq!(parse_flag("True"), Some(true));
    assert_eq!(parse_flag("TRUE"), Some(true));
    assert_eq!(parse_flag("false"), Some(false));
    assert_eq!(parse_flag("FALSE"), Some(false));
    assert_eq!(parse_flag("yes"), None);
    assert_eq!(parse_flag(""), None);
}

#[test]
fn text_equality() {
    assert!(text_equals("abc", "abc"));
    assert!(!text_equals("abc", "abd"));
    assert!(!text_equals("ab", "abc"));
}

#[test]
fn cells_decode_by_kind() {
    assert!(matches!(decode_cell(FieldKind::Integer, "12"), Some(Value::Integer(12))));
    assert!(decode_cell(FieldKind::Integer, "x").is_none());
    assert!(matches!(decode_cell(FieldKind::Integer, ""), Some(Value::Integer(0))));
    assert!(matches!(decode_cell(FieldKind::Flag, "TRUE"), Some(Value::Flag(true))));
    assert!(matches!(decode_cell(FieldKind::Flag, ""), Some(Value::Flag(false))));
    match decode_cell(FieldKind::Number, "-2.50") {
        Some(Value::Number(s)) => assert_eq!(s, "-2.50"),
        _ => panic!("expected a number"),
    }
    match decode_cell(FieldKind::Number, "") {
        Some(Value::Number(s)) => assert_eq!(s, "0"),
        _ => panic!("expected the default number"),
    }
    assert!(decode_cell(FieldKind::Number, "1e5").is_none());
    match decode_cell(FieldKind::Text, "Jab") {
        Some(Value::Text(s)) => assert_eq!(s, "Jab"),
        _ => panic!("expected text"),
    }
}

#[test]
fn values_render_canonically() {
    assert_eq!(Value::Flag(true).to_text(), "true");
    assert_eq!(Value::Flag(false).to_text(), "false");
    assert_eq!(Value::Integer(-3).to_text(), "-3");
    assert_eq!(Value::Number("0.75".to_string()).to_text(), "0.75");
}

#[test]
fn column_layout() {
    assert_eq!(COLUMN_COUNT, 179);
    assert_eq!(kind_at(0), FieldKind::Text);
    assert_eq!(kind_at(1), FieldKind::Integer);
    assert_eq!(kind_at(12), FieldKind::Flag);
    assert_eq!(kind_at(16), FieldKind::Number);
    assert_eq!(
        power_editor::schema::COLUMN_HEADER.split(',').count(),
        COLUMN_COUNT
    );
}

#[test]
fn descriptions_decode_in_key_order() {
    let pairs = descriptions_from_json("{\"b\": \"second\", \"a\": \"first\"}").unwrap();
    assert_eq!(
        pairs,
        vec![
            ("a".to_string(), "first".to_string()),
            ("b".to_string(), "second".to_string())
        ]
    );
}

#[test]
fn malformed_descriptions_are_an_error() {
    assert!(descriptions_from_json("{\"a\": 1}").is_err());
    assert!(descriptions_from_json("not json").is_err());
    assert_eq!(descriptions_from_json("{}").unwrap().len(), 0);
}
