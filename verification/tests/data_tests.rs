use chartml::calendar::civil_from_days;
use chartml::schema::{infer_columns, text_less, JsonKind};
use chartml::data::{
    all_values, cell_to_string, days_to_iso, epoch_to_iso, format_decimal128, merge_inferred,
    unique_values, CellValue, InferredType, TimeUnit,
};

fn cells(values: &[Option<&str>]) -> Vec<Option<String>> {
    values.iter().map(|v| v.map(|s| s.to_string())).collect()
}

#[test]
fn unique_values_preserves_order() {
    let column = cells(&[Some("B"), Some("A"), Some("B"), Some("C"), Some("A")]);
    assert_eq!(unique_values(&column), vec!["B", "A", "C"]);
}

#[test]
fn datatable_unique_values() {
    let column = cells(&[Some("North"), Some("South"), Some("North"), None, Some("East")]);
    assert_eq!(unique_values(&column), vec!["North", "South", "East"]);
}

#[test]
fn unique_values_skip_nulls_and_hold_each_value_once() {
    let column = cells(&[None, Some("x"), None, Some("x"), Some("y"), Some("")]);
    let unique = unique_values(&column);
    assert_eq!(unique, vec!["x", "y", ""]);
    let all = all_values(&column);
    assert_eq!(all, vec!["x", "x", "y", ""]);
    for v in &all {
        assert!(unique.contains(v));
    }
    assert!(unique_values(&Vec::new()).is_empty());
    assert!(all_values(&cells(&[None, None])).is_empty());
}

#[test]
fn civil_dates_from_day_numbers() {
    assert_eq!(civil_from_days(0), (1970, 1, 1));
    assert_eq!(civil_from_days(-1), (1969, 12, 31));
    assert_eq!(civil_from_days(19737), (2024, 1, 15));
    assert_eq!(civil_from_days(11016), (2000, 2, 29));
    assert_eq!(civil_from_days(-719468), (0, 3, 1));
    assert_eq!(civil_from_days(-719529), (-1, 12, 31));
}

#[test]
fn iso_dates_are_zero_padded() {
    assert_eq!(days_to_iso(0), "1970-01-01");
    assert_eq!(days_to_iso(19737), "2024-01-15");
    assert_eq!(days_to_iso(-719528), "0000-01-01");
    assert_eq!(days_to_iso(-719529), "-001-12-31");
    assert_eq!(days_to_iso(2932897), "10000-01-01");
}

#[test]
fn iso_datetimes_show_milliseconds_only_when_present() {
    assert_eq!(epoch_to_iso(0, 0), "1970-01-01T00:00:00");
    assert_eq!(epoch_to_iso(1705314600, 0), "2024-01-15T10:30:00");
    assert_eq!(epoch_to_iso(1705314600, 123_456_789), "2024-01-15T10:30:00.123");
    assert_eq!(epoch_to_iso(-1, 0), "1969-12-31T23:59:59");
    assert_eq!(epoch_to_iso(-86400, 0), "1969-12-31T00:00:00");
}

#[test]
fn decimals_keep_their_scale_and_sign() {
    assert_eq!(format_decimal128(12345, 2), "123.45");
    assert_eq!(format_decimal128(-12345, 2), "-123.45");
    assert_eq!(format_decimal128(-5, 2), "-0.05");
    assert_eq!(format_decimal128(5, 3), "0.005");
    assert_eq!(format_decimal128(42, 0), "42");
    assert_eq!(format_decimal128(-42, -2), "-42");
}

#[test]
fn inferred_types_merge_to_text_when_mixed() {
    let (f, b, u, n) = (InferredType::Float64, InferredType::Boolean, InferredType::Utf8, InferredType::Null);
    assert_eq!(merge_inferred(f, n), f);
    assert_eq!(merge_inferred(n, b), b);
    assert_eq!(merge_inferred(u, u), u);
    assert_eq!(merge_inferred(f, b), u);
    assert_eq!(merge_inferred(n, n), n);
}

#[test]
fn cells_render_as_text() {
    assert_eq!(cell_to_string(&CellValue::Utf8("abc".to_string())), "abc");
    assert_eq!(cell_to_string(&CellValue::Int(-7)), "-7");
    assert_eq!(cell_to_string(&CellValue::UInt(18446744073709551615)), "18446744073709551615");
    assert_eq!(cell_to_string(&CellValue::Boolean(true)), "true");
    assert_eq!(cell_to_string(&CellValue::Boolean(false)), "false");
    assert_eq!(cell_to_string(&CellValue::Date32(19737)), "2024-01-15");
    assert_eq!(cell_to_string(&CellValue::Date64(19737 * 86_400_000 + 5)), "2024-01-15");
    assert_eq!(cell_to_string(&CellValue::Date64(-1)), "1970-01-01");
    assert_eq!(
        cell_to_string(&CellValue::Timestamp { raw: 1500, unit: TimeUnit::Millisecond, has_tz: true }),
        "1970-01-01T00:00:01.500Z"
    );
    assert_eq!(
        cell_to_string(&CellValue::Timestamp { raw: -1, unit: TimeUnit::Millisecond, has_tz: false }),
        "1969-12-31T23:59:59.999"
    );
    assert_eq!(
        cell_to_string(&CellValue::Timestamp { raw: 1705314600, unit: TimeUnit::Second, has_tz: false }),
        "2024-01-15T10:30:00"
    );
    assert_eq!(
        cell_to_string(&CellValue::Timestamp { raw: 1_000_001, unit: TimeUnit::Microsecond, has_tz: false }),
        "1970-01-01T00:00:01.000"
    );
    assert_eq!(
        cell_to_string(&CellValue::Timestamp { raw: 2_250_000_000, unit: TimeUnit::Nanosecond, has_tz: false }),
        "1970-01-01T00:00:02.250"
    );
    assert_eq!(cell_to_string(&CellValue::Decimal128 { units: 995, scale: 2 }), "9.95");
}

fn row(pairs: &[(&str, JsonKind)]) -> Vec<(String, JsonKind)> {
    pairs.iter().map(|(k, v)| (k.to_string(), *v)).collect()
}

#[test]
fn inline_rows_get_sorted_columns_with_inferred_types() {
    let rows = vec![
        row(&[("revenue", JsonKind::Number), ("month", JsonKind::Text), ("note", JsonKind::Null)]),
        row(&[("month", JsonKind::Text), ("revenue", JsonKind::Number), ("active", JsonKind::Bool)]),
        row(&[("revenue", JsonKind::Text), ("active", JsonKind::Null)]),
    ];
    let cols = infer_columns(&rows);
    assert_eq!(
        cols,
        vec![
            ("active".to_string(), InferredType::Boolean),
            ("month".to_string(), InferredType::Utf8),
            ("note".to_string(), InferredType::Utf8),
            ("revenue".to_string(), InferredType::Utf8),
        ]
    );
    let numbers = vec![row(&[("x", JsonKind::Number)]), row(&[("x", JsonKind::Null)]), row(&[])];
    assert_eq!(infer_columns(&numbers), vec![("x".to_string(), InferredType::Float64)]);
    assert!(infer_columns(&Vec::new()).is_empty());
    let other = vec![row(&[("o", JsonKind::Other)])];
    assert_eq!(infer_columns(&other), vec![("o".to_string(), InferredType::Utf8)]);
}

#[test]
fn text_order_is_string_order() {
    for (a, b) in [("a", "b"), ("", "a"), ("ab", "abc"), ("Z", "a"), ("é", "z"), ("abd", "abc"), ("x", "x")] {
        assert_eq!(text_less(a, b), a < b, "{} {}", a, b);
    }
}
