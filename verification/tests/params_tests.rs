use chartml::params::{control_kind, param_control, ParamControlKind, ParamDefaultView};

fn view(json: &str) -> ParamDefaultView {
    ParamDefaultView { json: json.to_string(), text: None, string_items: None, start: None, end: None }
}

#[test]
fn multiselect_joins_string_items() {
    let mut d = view("[\"East\",\"West\",3]");
    d.string_items = Some(vec!["East".to_string(), "West".to_string()]);
    let c = param_control("multiselect", "Regions", None, Some(d));
    assert_eq!(c.kind, ParamControlKind::MultiSelect);
    assert_eq!(c.label, "Regions");
    assert_eq!(c.class, "chartml-param-control chartml-param-multiselect");
    assert_eq!(c.min_width, Some(140));
    assert_eq!(c.content, "East, West");
}

#[test]
fn multiselect_with_a_non_array_default_shows_its_json() {
    let c = param_control("multiselect", "Regions", None, Some(view("\"East\"")));
    assert_eq!(c.content, "\"East\"");
    let none = param_control("multiselect", "Regions", None, None);
    assert_eq!(none.content, "");
}

#[test]
fn select_shows_the_choice_and_an_arrow() {
    let mut d = view("\"Q1\"");
    d.text = Some("Q1".to_string());
    let c = param_control("select", "Quarter", None, Some(d));
    assert_eq!(c.class, "chartml-param-control chartml-param-select");
    assert_eq!(c.min_width, Some(120));
    assert_eq!(c.content, "Q1 \u{25be}");
    assert_eq!(param_control("select", "Quarter", None, Some(view("3"))).content, " \u{25be}");
}

#[test]
fn daterange_shows_start_and_end() {
    let mut d = view("{\"start\":\"2024-01-01\",\"end\":\"2024-12-31\"}");
    d.start = Some("2024-01-01".to_string());
    d.end = Some("2024-12-31".to_string());
    let c = param_control("daterange", "Period", None, Some(d));
    assert_eq!(c.class, "chartml-param-control chartml-param-daterange");
    assert_eq!(c.min_width, None);
    assert_eq!(c.content, "2024-01-01 \u{2192} 2024-12-31");
    assert_eq!(param_control("daterange", "Period", None, None).content, "");
}

#[test]
fn number_and_text_show_json_or_placeholder() {
    let n = param_control("number", "Limit", None, Some(view("10")));
    assert_eq!(n.class, "chartml-param-control chartml-param-number");
    assert_eq!(n.min_width, Some(80));
    assert_eq!(n.content, "10");
    let t = param_control("text", "Search", Some("Type here".to_string()), Some(view("\"abc\"")));
    assert_eq!(t.class, "chartml-param-control chartml-param-text");
    assert_eq!(t.content, "Type here");
    let u = param_control("slider", "Other", None, Some(view("\"abc\"")));
    assert_eq!(u.kind, ParamControlKind::Text);
    assert_eq!(u.content, "\"abc\"");
    assert_eq!(control_kind("number"), ParamControlKind::Number);
}
