use chartml::element::{ChartError, TextAnchor};
use chartml::layout::{
    apply_transform, char_width, family_is_monospace, text_width, AxisLayout, AxisPosition,
    StackLayout, StackOffset, StackOrder, TextTransform,
};
use chartml::number_format::{parse_spec, NumberFormatter};

#[test]
fn family_is_monospace_recognises_common_stacks() {
    assert!(family_is_monospace("Geist Mono, monospace"));
    assert!(family_is_monospace("'JetBrains Mono', monospace"));
    assert!(family_is_monospace("ui-monospace, Menlo, monospace"));
    assert!(family_is_monospace("Consolas, Courier New, monospace"));
    assert!(!family_is_monospace("system-ui, sans-serif"));
    assert!(!family_is_monospace("Inter, Liberation Sans, Arial, sans-serif"));
}

#[test]
fn monospace_check_ignores_ascii_case() {
    for family in ["MENLO", "Fira Code", "mono", "Roboto Mono", "SOURCE CODE PRO", "Helvetica"] {
        assert_eq!(
            family_is_monospace(family),
            family_is_monospace(&family.to_ascii_lowercase())
        );
    }
    assert!(family_is_monospace("Roboto Mono"));
    assert!(family_is_monospace("monoid"));
    assert!(!family_is_monospace(""));
}

#[test]
fn text_anchor_display() {
    assert_eq!(TextAnchor::Start.to_string(), "start");
    assert_eq!(TextAnchor::Middle.to_string(), "middle");
    assert_eq!(TextAnchor::End.to_string(), "end");
}

#[test]
fn errors_display_their_kind() {
    assert_eq!(ChartError::InvalidSpec("no rows".into()).to_string(), "Invalid spec: no rows");
    assert_eq!(ChartError::YamlParse("bad".into()).to_string(), "YAML parse error: bad");
    assert_eq!(ChartError::UnknownChartType("radar".into()).to_string(), "Unknown chart type: radar");
    assert_eq!(ChartError::MissingField("rows".into()).to_string(), "Missing required field: rows");
    assert_eq!(ChartError::PluginError("x".into()).to_string(), "Plugin error: x");
    assert_eq!(ChartError::DataError("empty".into()).to_string(), "Data error: empty");
    assert_eq!(ChartError::RenderError("svg".into()).to_string(), "Render error: svg");
}

#[test]
fn axis_layout_builders_keep_other_settings() {
    let axis = AxisLayout::left().tick_count(8).formatter(NumberFormatter::new("$,.0f"));
    assert_eq!(axis.position(), AxisPosition::Left);
    assert_eq!(AxisLayout::bottom().position(), AxisPosition::Bottom);
    assert_eq!(AxisLayout::right().position(), AxisPosition::Right);
    assert_eq!(AxisLayout::new(AxisPosition::Top).position(), AxisPosition::Top);
    let _ = parse_spec("$,.0f");
}

#[test]
fn stack_layout_builders() {
    let stack = StackLayout::new();
    assert_eq!(stack.current_order(), StackOrder::InputOrder);
    assert_eq!(stack.current_offset(), StackOffset::ZeroBaseline);
    let stack = stack.order(StackOrder::Descending).offset(StackOffset::Normalize);
    assert_eq!(stack.current_order(), StackOrder::Descending);
    assert_eq!(stack.current_offset(), StackOffset::Normalize);
}

#[test]
fn text_width_sums_character_widths() {
    assert_eq!(char_width('M'), 9);
    assert_eq!(char_width('i'), 4);
    assert_eq!(char_width('t'), 5);
    assert_eq!(char_width(' '), 4);
    assert_eq!(char_width('a'), 7);
    assert_eq!(text_width(""), 0);
    assert_eq!(text_width("Wit a"), 9 + 4 + 5 + 4 + 7);
}

#[test]
fn text_transforms() {
    assert_eq!(apply_transform("Revenue", &TextTransform::Unchanged), "Revenue");
    assert_eq!(apply_transform("Revenue", &TextTransform::Uppercase), "REVENUE");
    assert_eq!(apply_transform("Straße", &TextTransform::Uppercase), "STRASSE");
    assert_eq!(apply_transform("Revenue", &TextTransform::Lowercase), "revenue");
}
