use chartml::cartesian::{
    cartesian_chart_kind, get_data_labels_config, get_field_name, get_x_format, get_y_format,
    group_tick_label, grouped_integer, insert_commas, insert_commas_str, si_tick_label,
    strip_trailing_zero_decimals, without_commas, CartesianChartKind, CartesianRenderer,
};
use chartml::chart_spec::{
    get_color_field, get_size_field, should_draw_horizontal_grid, should_draw_vertical_grid,
    AxesSpec, AxisSpec, ChartConfig, DataLabelsSpec, EncodingSpec, FieldRef, FieldRefItem,
    FieldSpec, GridStyle, MarkEncoding, MarksSpec, StyleSpec, VisualizeSpec,
};
use chartml::data::InferredType;
use chartml::element::ChartError;
use chartml::schema::{infer_columns, JsonKind};
use chartml::number_format::NumberFormatter;
use chartml::metric::{missing_value_text, trend_arrow, trend_color, MetricRenderer, TrendDirection};
use chartml::pie::{check_slices, is_doughnut, pie_fields, PieRenderer};
use chartml::scatter::{color_category_index, scatter_fields, ScatterRenderer};
use chartml::sources::{
    classify_outcome, context_fetch_error, describe_transform, single_source_or_err,
    single_source_or_err_no_transform,
};
use chartml::table::{page_size, pager_info, resolve_columns, row_class, text_cell, Column, TableRenderer};

fn viz(chart_type: &str) -> VisualizeSpec {
    VisualizeSpec {
        chart_type: chart_type.to_string(),
        columns: None,
        rows: None,
        marks: None,
        axes: None,
        style: None,
        value: None,
        format: None,
        label: None,
        compare_with: None,
        invert_trend: None,
    }
}

fn config(visualize: VisualizeSpec) -> ChartConfig {
    ChartConfig { visualize, title: None }
}

fn simple(name: &str) -> Option<FieldRef> {
    Some(FieldRef::Simple(name.to_string()))
}

fn field_spec(field: Option<&str>, label: Option<&str>, format: Option<&str>) -> FieldSpec {
    FieldSpec {
        field: field.map(|s| s.to_string()),
        label: label.map(|s| s.to_string()),
        color: None,
        format: format.map(|s| s.to_string()),
        data_labels: None,
    }
}

#[test]
fn unknown_type_errors() {
    let _ = CartesianRenderer::new();
    assert_eq!(cartesian_chart_kind("bar"), Ok(CartesianChartKind::Bar));
    assert_eq!(cartesian_chart_kind("line"), Ok(CartesianChartKind::Line));
    assert_eq!(cartesian_chart_kind("area"), Ok(CartesianChartKind::Area));
    assert_eq!(
        cartesian_chart_kind("radar"),
        Err(ChartError::UnknownChartType("radar".to_string()))
    );
}

#[test]
fn cartesian_field_names() {
    assert_eq!(get_field_name(&simple("month")), Ok("month".to_string()));
    let detailed = Some(FieldRef::Detailed(Box::new(field_spec(Some("revenue"), None, None))));
    assert_eq!(get_field_name(&detailed), Ok("revenue".to_string()));
    let multiple = Some(FieldRef::Multiple(vec![
        FieldRefItem::Simple("a".to_string()),
        FieldRefItem::Simple("b".to_string()),
    ]));
    assert_eq!(get_field_name(&multiple), Ok("a".to_string()));
    let missing = Err(ChartError::MissingField("rows/columns field".to_string()));
    assert_eq!(get_field_name(&None), missing);
    assert_eq!(get_field_name(&Some(FieldRef::Multiple(vec![]))), missing);
    let range = Some(FieldRef::Detailed(Box::new(field_spec(None, Some("band"), None))));
    assert_eq!(get_field_name(&range), missing);
}

#[test]
fn cartesian_axis_formats_and_labels() {
    let mut v = viz("bar");
    assert_eq!(get_y_format(&config(v.clone())), None);
    v.axes = Some(AxesSpec {
        x: Some(AxisSpec { format: Some("%b".to_string()) }),
        left: Some(AxisSpec { format: Some("$,.0f".to_string()) }),
        right: None,
    });
    let labels = DataLabelsSpec { show: Some(true), format: Some(".1f".to_string()), position: None, color: None };
    let mut rows = field_spec(Some("revenue"), None, None);
    rows.data_labels = Some(labels);
    v.rows = Some(FieldRef::Detailed(Box::new(rows)));
    let c = config(v);
    assert_eq!(get_y_format(&c), Some("$,.0f".to_string()));
    assert_eq!(get_x_format(&c), Some("%b".to_string()));
    let dl = get_data_labels_config(&c).unwrap();
    assert_eq!(dl.show, Some(true));
    assert_eq!(dl.format, Some(".1f".to_string()));
    assert!(get_data_labels_config(&config(viz("bar"))).is_none());
}

#[test]
fn color_and_size_fields_come_from_marks() {
    let mut v = viz("scatter");
    assert_eq!(get_color_field(&config(v.clone())), None);
    v.marks = Some(MarksSpec {
        color: Some(MarkEncoding::Simple("region".to_string())),
        size: Some(MarkEncoding::Detailed(EncodingSpec { field: "population".to_string() })),
    });
    let c = config(v);
    assert_eq!(get_color_field(&c), Some("region".to_string()));
    assert_eq!(get_size_field(&c), Some("population".to_string()));
}

#[test]
fn gridlines_follow_grid_style() {
    assert!(should_draw_horizontal_grid(&GridStyle::Both));
    assert!(should_draw_vertical_grid(&GridStyle::Both));
    assert!(should_draw_horizontal_grid(&GridStyle::HorizontalOnly));
    assert!(!should_draw_vertical_grid(&GridStyle::HorizontalOnly));
    assert!(!should_draw_horizontal_grid(&GridStyle::VerticalOnly));
    assert!(should_draw_vertical_grid(&GridStyle::VerticalOnly));
    assert!(!should_draw_horizontal_grid(&GridStyle::Hidden));
    assert!(!should_draw_vertical_grid(&GridStyle::Hidden));
}

#[test]
fn tick_label_text_helpers() {
    assert_eq!(strip_trailing_zero_decimals("$1.0"), "$1");
    assert_eq!(strip_trailing_zero_decimals("$2.00"), "$2");
    assert_eq!(strip_trailing_zero_decimals("$1.5"), "$1.5");
    assert_eq!(strip_trailing_zero_decimals("3."), "3.");
    assert_eq!(strip_trailing_zero_decimals("1.2.00"), "1.2");
    assert_eq!(strip_trailing_zero_decimals("100"), "100");
    assert_eq!(insert_commas_str("1234567"), "1,234,567");
    assert_eq!(insert_commas_str("123"), "123");
    assert_eq!(insert_commas(0), "0");
    assert_eq!(insert_commas(1000), "1,000");
    assert_eq!(insert_commas(u64::MAX), "18,446,744,073,709,551,615");
    assert_eq!(grouped_integer(1234, true), "-1,234");
    assert_eq!(grouped_integer(999, false), "999");
    assert_eq!(group_tick_label("-1234567.50"), "-1,234,567.50");
    assert_eq!(group_tick_label("200000"), "200,000");
    assert_eq!(group_tick_label("0.05"), "0.05");
    assert_eq!(without_commas("$,.1f"), "$.1f");
    assert_eq!(si_tick_label("$1.0", "B"), "$1B");
    assert_eq!(si_tick_label("2.5", "M"), "2.5M");
}

#[test]
fn pie_fields_and_errors() {
    let _ = PieRenderer::new();
    assert!(is_doughnut("doughnut"));
    assert!(!is_doughnut("pie"));
    let mut v = viz("pie");
    v.columns = simple("region");
    v.rows = simple("revenue");
    assert_eq!(pie_fields(&config(v.clone())), Ok(("region".to_string(), "revenue".to_string())));
    v.rows = None;
    assert_eq!(
        pie_fields(&config(v.clone())),
        Err(ChartError::MissingField("columns/rows field".to_string()))
    );
    v.columns = Some(FieldRef::Multiple(vec![]));
    assert_eq!(pie_fields(&config(v)), Err(ChartError::MissingField("field".to_string())));
    assert_eq!(check_slices(3), Ok(()));
    assert_eq!(check_slices(0), Err(ChartError::DataError("No data for pie chart".to_string())));
}

#[test]
fn scatter_fields_and_errors() {
    let _ = ScatterRenderer::default();
    let mut v = viz("scatter");
    v.columns = simple("x");
    v.rows = Some(FieldRef::Multiple(vec![FieldRefItem::Detailed(Box::new(field_spec(Some("y"), None, None)))]));
    assert_eq!(scatter_fields(&config(v.clone())), Ok(("x".to_string(), "y".to_string())));
    v.rows = Some(FieldRef::Detailed(Box::new(field_spec(None, None, None))));
    assert_eq!(
        scatter_fields(&config(v.clone())),
        Err(ChartError::InvalidSpec(
            "Field spec has no `field` (range-mark specs are not supported for scatter axes)".to_string()
        ))
    );
    v.rows = Some(FieldRef::Multiple(vec![]));
    assert_eq!(
        scatter_fields(&config(v.clone())),
        Err(ChartError::InvalidSpec("Empty field reference list".to_string()))
    );
    v.columns = None;
    assert_eq!(
        scatter_fields(&config(v)),
        Err(ChartError::InvalidSpec("Missing required field reference".to_string()))
    );
}

#[test]
fn scatter_points_take_the_slot_of_their_category() {
    let cats = vec!["North".to_string(), "South".to_string(), "East".to_string()];
    assert_eq!(color_category_index(&cats, &Some("South".to_string())), 1);
    assert_eq!(color_category_index(&cats, &Some("West".to_string())), 0);
    assert_eq!(color_category_index(&cats, &None), 0);
}

fn table_viz() -> VisualizeSpec {
    let mut v = viz("table");
    v.columns = simple("region");
    v.rows = Some(FieldRef::Multiple(vec![
        FieldRefItem::Detailed(Box::new(field_spec(Some("revenue"), Some("Revenue"), Some("$,.0f")))),
        FieldRefItem::Detailed(Box::new(field_spec(None, Some("Band"), None))),
        FieldRefItem::Simple("units".to_string()),
    ]));
    v
}

fn names(list: &[&str]) -> Vec<String> {
    list.iter().map(|s| s.to_string()).collect()
}

#[test]
fn renders_drop_in_bar_spec() {
    let mut v = viz("table");
    v.columns = simple("month");
    v.rows = Some(FieldRef::Multiple(vec![
        FieldRefItem::Detailed(Box::new(field_spec(Some("revenue"), Some("Revenue"), Some("$,.0f")))),
        FieldRefItem::Detailed(Box::new(field_spec(Some("cost"), Some("Cost"), Some("$,.0f")))),
    ]));
    let cols = resolve_columns(&v, &names(&["cost", "month", "revenue"]));
    let labels: Vec<String> = cols.iter().map(|c| c.label.clone()).collect();
    assert!(labels.iter().any(|c| c == "month"));
    assert!(labels.iter().any(|c| c == "Revenue"));
    assert!(labels.iter().any(|c| c == "Cost"));
    let revenue = cols.iter().find(|c| c.field == "revenue").unwrap();
    let fmt = revenue.format.clone().unwrap();
    assert_eq!(NumberFormatter::new(&fmt).assemble(false, "1200", ""), "$1,200");
    assert_eq!(text_cell(&Some("Jan".to_string())), "Jan");
}

#[test]
fn falls_back_to_all_fields_when_no_spec() {
    let cols = resolve_columns(&viz("table"), &names(&["cost", "month", "revenue"]));
    let labels: Vec<String> = cols.iter().map(|c| c.label.clone()).collect();
    for name in ["cost", "month", "revenue"] {
        assert!(labels.iter().any(|c| c == name), "missing header {name}: {labels:?}");
    }
    let plain = Column::plain("a");
    assert_eq!((plain.field, plain.label, plain.format), ("a".to_string(), "a".to_string(), None));
}

#[test]
fn empty_columns_errors() {
    let r = TableRenderer::new().plan(&viz("table"), &Vec::new(), 10);
    assert!(matches!(r, Err(ChartError::DataError(m)) if m == "Table has no columns to render"));
}

#[test]
fn page_size_zero_is_clamped_to_one() {
    let mut v = table_viz();
    v.style = Some(StyleSpec { page_size: Some(0) });
    assert_eq!(page_size(&v), 1);
    let plan = TableRenderer::new().plan(&v, &Vec::new(), 3).unwrap();
    assert_eq!(plan.rows_shown, 1);
    assert_eq!(plan.pager, Some("Showing 1\u{2013}1 of 3 \u{b7} Page 1 of 3".to_string()));
}

#[test]
fn pagination_limits_rows() {
    let mut v = table_viz();
    assert_eq!(page_size(&v), 50);
    v.style = Some(StyleSpec { page_size: Some(2) });
    let plan = TableRenderer::new().plan(&v, &Vec::new(), 5).unwrap();
    assert_eq!(plan.rows_shown, 2);
    assert_eq!(plan.columns.len(), 3);
    assert_eq!(plan.pager, Some("Showing 1\u{2013}2 of 5 \u{b7} Page 1 of 3".to_string()));
    let small = TableRenderer::default().plan(&v, &Vec::new(), 2).unwrap();
    assert_eq!(small.rows_shown, 2);
    assert_eq!(small.pager, None);
    assert_eq!(pager_info(50, 120, 3), "Showing 1\u{2013}50 of 120 \u{b7} Page 1 of 3");
}

#[test]
fn null_string_cell_renders_em_dash() {
    // a row whose month is null: the month cell holds no text
    let cols = resolve_columns(&viz("table"), &names(&["month", "revenue"]));
    assert_eq!(cols[0].field, "month");
    assert_eq!(text_cell(&None), "\u{2014}");
    assert_eq!(text_cell(&Some(String::new())), "");
    assert_eq!(text_cell(&Some("North".to_string())), "North");
    assert_eq!(row_class(0), "chartml-table-row");
    assert_eq!(row_class(1), "chartml-table-row chartml-table-row-alt");
}

#[test]
fn metric_empty_data_errors() {
    let mut v = viz("metric");
    let renderer = MetricRenderer::new();
    assert!(matches!(
        renderer.plan(&config(v.clone()), 3),
        Err(ChartError::MissingField(m)) if m == "visualize.value"
    ));
    v.value = Some("revenue".to_string());
    assert!(matches!(
        renderer.plan(&config(v.clone()), 0),
        Err(ChartError::DataError(m)) if m == "No data for metric chart"
    ));
    let plan = renderer.plan(&config(v.clone()), 1).unwrap();
    assert_eq!(plan.value_field, "revenue");
    assert_eq!(plan.label, "revenue");
    let titled = ChartConfig { visualize: v.clone(), title: Some("Sales".to_string()) };
    assert_eq!(MetricRenderer::default().plan(&titled, 1).unwrap().label, "Sales");
    v.label = Some("Total".to_string());
    let labelled = ChartConfig { visualize: v, title: Some("Sales".to_string()) };
    assert_eq!(renderer.plan(&labelled, 1).unwrap().label, "Total");
}

#[test]
fn metric_inverted_trend() {
    assert_eq!(trend_color(TrendDirection::Up, false, "#666"), "#34a853");
    assert_eq!(trend_color(TrendDirection::Down, false, "#666"), "#dc3545");
    assert_eq!(trend_color(TrendDirection::Up, true, "#666"), "#dc3545");
    assert_eq!(trend_color(TrendDirection::Down, true, "#666"), "#34a853");
    assert_eq!(trend_color(TrendDirection::Flat, true, "#666"), "#666");
    assert_eq!(trend_color(TrendDirection::Unordered, false, "#666"), "#dc3545");
    assert_eq!(trend_arrow(TrendDirection::Up), "\u{2191}");
    assert_eq!(trend_arrow(TrendDirection::Down), "\u{2193}");
    assert_eq!(trend_arrow(TrendDirection::Flat), "\u{2192}");
    assert_eq!(trend_arrow(TrendDirection::Unordered), "\u{2192}");
}

#[test]
fn metric_null_value_renders_em_dash() {
    let mut v = viz("metric");
    v.value = Some("current".to_string());
    v.label = Some("Revenue".to_string());
    v.format = Some("$,.0f".to_string());
    let plan = MetricRenderer::new().plan(&config(v), 1).expect("a null value must not error");
    assert_eq!(plan.value_field, "current");
    assert_eq!(plan.label, "Revenue");
    assert_eq!(missing_value_text(), "\u{2014}");
}

#[test]
fn source_helpers() {
    assert_eq!(describe_transform(true, true, true), "sql");
    assert_eq!(describe_transform(false, true, true), "aggregate");
    assert_eq!(describe_transform(false, false, true), "forecast");
    assert_eq!(describe_transform(false, false, false), "transform");

    let mut hits = Vec::new();
    let mut misses = Vec::new();
    classify_outcome("visitors", true, &mut hits, &mut misses);
    classify_outcome("sessions", false, &mut hits, &mut misses);
    assert_eq!(hits, vec!["visitors"]);
    assert_eq!(misses, vec!["sessions"]);

    let err = context_fetch_error(&ChartError::DataError("timeout".to_string()), "visitors");
    assert_eq!(err, ChartError::DataError("source 'visitors' fetch failed: Data error: timeout".to_string()));

    assert_eq!(single_source_or_err(&names(&["only"]), "sql"), Ok(0));
    assert_eq!(
        single_source_or_err(&names(&["a", "b"]), "sql"),
        Err(ChartError::InvalidSpec(
            "Multi-source `data:` map (got 2 sources: a, b) with transform `sql` requires a registered TransformMiddleware to join the sources. Call `register_transform(DataFusionTransform)` (or another middleware) before rendering.".to_string()
        ))
    );
    assert_eq!(single_source_or_err_no_transform(&names(&["only"])), Ok(0));
    assert_eq!(
        single_source_or_err_no_transform(&names(&["a", "b", "c"])),
        Err(ChartError::InvalidSpec(
            "Named data sources require a transform block when multiple sources are defined (got 3 sources: a, b, c).".to_string()
        ))
    );
}

#[test]
fn null_cell_renders_em_dash() {
    // A column of nulls is typed as text, and a null text cell shows an em dash.
    let rows = vec![vec![
        ("month".to_string(), JsonKind::Text),
        ("revenue".to_string(), JsonKind::Null),
    ]];
    let cols = infer_columns(&rows);
    assert_eq!(cols[1], ("revenue".to_string(), InferredType::Utf8));
    let plan = TableRenderer::new().plan(&table_viz(), &names(&["month", "revenue"]), 1).unwrap();
    assert_eq!(plan.rows_shown, 1);
    assert_eq!(text_cell(&None), "\u{2014}");
}
