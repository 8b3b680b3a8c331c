use chartml::annotations::{
    annotation_color, annotation_kind, label_at_end, resolve_dash_array, vertical_line_slot, AnnotationKind,
};

fn s(t: &str) -> Option<String> {
    Some(t.to_string())
}

#[test]
fn dash_array_prefers_explicit_then_style() {
    assert_eq!(resolve_dash_array(&s("4,2"), &s("dotted")), s("4,2"));
    assert_eq!(resolve_dash_array(&None, &s("dashed")), s("6,4"));
    assert_eq!(resolve_dash_array(&None, &s("dotted")), s("2,3"));
    assert_eq!(resolve_dash_array(&None, &s("solid")), None);
    assert_eq!(resolve_dash_array(&None, &None), None);
}

#[test]
fn annotation_kind_by_type_and_orientation() {
    assert_eq!(annotation_kind("line", &None), AnnotationKind::HorizontalLine);
    assert_eq!(annotation_kind("line", &s("horizontal")), AnnotationKind::HorizontalLine);
    assert_eq!(annotation_kind("line", &s("vertical")), AnnotationKind::VerticalLine);
    assert_eq!(annotation_kind("band", &None), AnnotationKind::HorizontalBand);
    assert_eq!(annotation_kind("band", &s("vertical")), AnnotationKind::Unsupported);
    assert_eq!(annotation_kind("point", &None), AnnotationKind::Unsupported);
}

#[test]
fn annotation_defaults() {
    assert_eq!(annotation_color(&None), "#666");
    assert_eq!(annotation_color(&s("#f00")), "#f00");
    assert!(label_at_end(&None));
    assert!(label_at_end(&s("end")));
    assert!(!label_at_end(&s("start")));
}

#[test]
fn vertical_line_finds_its_category() {
    let cats = Some(vec!["Jan".to_string(), "Feb".to_string(), "Mar".to_string()]);
    assert_eq!(vertical_line_slot(&cats, "Feb"), Some(1));
    assert_eq!(vertical_line_slot(&cats, "Apr"), None);
    assert_eq!(vertical_line_slot(&None, "Feb"), None);
}
