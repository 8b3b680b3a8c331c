use vstd::prelude::*;

use crate::sources::{join_names, joined, push_str};
use crate::text::{str_eq, string_from, string_of, texts};

verus! {

/// What a parameter control reads of a parameter's default value: its JSON
/// text, its text when it is a string, the string items of an array, and
/// the `start` and `end` strings of an object.
#[derive(Clone, Debug)]
pub struct ParamDefaultView {
    /// The value written as JSON.
    pub json: String,
    /// The value itself when it is a JSON string.
    pub text: Option<String>,
    /// When the value is an array, its string items in order (other items left out).
    pub string_items: Option<Vec<String>>,
    /// The string under `start`, when the value is an object that has one.
    pub start: Option<String>,
    /// The string under `end`, when the value is an object that has one.
    pub end: Option<String>,
}

/// The kind of control drawn for a parameter type.
#[derive(Clone, Copy, Debug, PartialEq, Eq, Structural)]
pub enum ParamControlKind {
    MultiSelect,
    Select,
    DateRange,
    Number,
    Text,
}

/// A parameter's control: its label, the CSS class and minimum width of
/// the control box, and the text shown inside it.
#[derive(Clone, Debug)]
pub struct ParamControl {
    pub kind: ParamControlKind,
    pub label: String,
    pub class: String,
    /// The minimum width in pixels, where the control has one.
    pub min_width: Option<u32>,
    pub content: String,
}

/// The control kind of a parameter type; unknown types get a text box.
pub open spec fn spec_control_kind(param_type: Seq<char>) -> ParamControlKind {
    if param_type == "multiselect"@ {
        ParamControlKind::MultiSelect
    } else if param_type == "select"@ {
        ParamControlKind::Select
    } else if param_type == "daterange"@ {
        ParamControlKind::DateRange
    } else if param_type == "number"@ {
        ParamControlKind::Number
    } else {
        ParamControlKind::Text
    }
}

/// The CSS class of a control box.
pub open spec fn control_class(kind: ParamControlKind) -> Seq<char> {
    "chartml-param-control chartml-param-"@ + match kind {
        ParamControlKind::MultiSelect => "multiselect"@,
        ParamControlKind::Select => "select"@,
        ParamControlKind::DateRange => "daterange"@,
        ParamControlKind::Number => "number"@,
        ParamControlKind::Text => "text"@,
    }
}

/// The minimum width of a control box in pixels.
pub open spec fn control_min_width(kind: ParamControlKind) -> Option<u32> {
    match kind {
        ParamControlKind::MultiSelect => Some(140u32),
        ParamControlKind::Select => Some(120u32),
        ParamControlKind::Number => Some(80u32),
        _ => None,
    }
}

/// A string option's text, or nothing.
pub open spec fn text_or_empty(s: Option<String>) -> Seq<char> {
    match s {
        Some(t) => t@,
        None => Seq::empty(),
    }
}

/// The text shown in a control: the joined string items (or the JSON text)
/// for a multiselect, the selected string and a down arrow for a select,
/// `start → end` for a date range, the JSON text for a number, and the
/// placeholder or else the JSON text for a text box; nothing where the
/// parameter has no default.
pub open spec fn control_content(
    kind: ParamControlKind,
    placeholder: Option<String>,
    default: Option<ParamDefaultView>,
) -> Seq<char> {
    let json = match default {
        Some(d) => d.json@,
        None => Seq::empty(),
    };
    match kind {
        ParamControlKind::MultiSelect => match default {
            Some(d) => match d.string_items {
                Some(items) => joined(texts(items@), items@.len() as int),
                None => d.json@,
            },
            None => Seq::empty(),
        },
        ParamControlKind::Select => (match default {
            Some(d) => text_or_empty(d.text),
            None => Seq::empty(),
        }) + " \u{25be}"@,
        ParamControlKind::DateRange => match default {
            Some(d) => text_or_empty(d.start) + " \u{2192} "@ + text_or_empty(d.end),
            None => Seq::empty(),
        },
        ParamControlKind::Number => json,
        ParamControlKind::Text => match placeholder {
            Some(p) => p@,
            None => json,
        },
    }
}

fn push_opt(out: &mut Vec<char>, s: &Option<String>)
    ensures
        final(out)@ == old(out)@ + text_or_empty(*s),
{
    match s {
        Some(t) => push_str(out, t.as_str()),
        None => {
            assert(old(out)@ + text_or_empty(*s) =~= old(out)@);
        },
    }
}

/// The control kind for a parameter type.
pub fn control_kind(param_type: &str) -> (r: ParamControlKind)
    ensures
        r == spec_control_kind(param_type@),
{
    if str_eq(param_type, "multiselect") {
        ParamControlKind::MultiSelect
    } else if str_eq(param_type, "select") {
        ParamControlKind::Select
    } else if str_eq(param_type, "daterange") {
        ParamControlKind::DateRange
    } else if str_eq(param_type, "number") {
        ParamControlKind::Number
    } else {
        ParamControlKind::Text
    }
}

/// The control drawn for a parameter: a box whose class, minimum width and
/// text follow the parameter's type, under the parameter's label.
pub fn param_control(
    param_type: &str,
    label: &str,
    placeholder: Option<String>,
    default: Option<ParamDefaultView>,
) -> (r: ParamControl)
    ensures
        r.kind == spec_control_kind(param_type@),
        r.label@ == label@,
        r.class@ == control_class(r.kind),
        r.min_width == control_min_width(r.kind),
        r.content@ == control_content(r.kind, placeholder, default),
{
    let kind = control_kind(param_type);
    let mut class: Vec<char> = Vec::new();
    push_str(&mut class, "chartml-param-control chartml-param-");
    let (suffix, min_width) = match kind {
        ParamControlKind::MultiSelect => ("multiselect", Some(140u32)),
        ParamControlKind::Select => ("select", Some(120u32)),
        ParamControlKind::DateRange => ("daterange", None),
        ParamControlKind::Number => ("number", Some(80u32)),
        ParamControlKind::Text => ("text", None),
    };
    push_str(&mut class, suffix);
    assert(class@ =~= control_class(kind));
    let mut content: Vec<char> = Vec::new();
    match kind {
        ParamControlKind::MultiSelect => {
            match &default {
                Some(d) => match &d.string_items {
                    Some(items) => {
                        content = join_names(items);
                    },
                    None => push_str(&mut content, d.json.as_str()),
                },
                None => {},
            }
        },
        ParamControlKind::Select => {
            match &default {
                Some(d) => push_opt(&mut content, &d.text),
                None => {},
            }
            push_str(&mut content, " \u{25be}");
        },
        ParamControlKind::DateRange => {
            match &default {
                Some(d) => {
                    push_opt(&mut content, &d.start);
                    push_str(&mut content, " \u{2192} ");
                    push_opt(&mut content, &d.end);
                },
                None => {},
            }
        },
        ParamControlKind::Number => {
            match &default {
                Some(d) => push_str(&mut content, d.json.as_str()),
                None => {},
            }
        },
        ParamControlKind::Text => {
            match &placeholder {
                Some(p) => push_str(&mut content, p.as_str()),
                None => match &default {
                    Some(d) => push_str(&mut content, d.json.as_str()),
                    None => {},
                },
            }
        },
    }
    assert(content@ =~= control_content(kind, placeholder, default));
    ParamControl {
        kind,
        label: string_from(label),
        class: string_of(&class),
        min_width,
        content: string_of(&content),
    }
}

} // verus!
