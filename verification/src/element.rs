use vstd::prelude::*;

use crate::text::{chars_of, extend_chars, string_of};

verus! {

/// Horizontal anchor of a text element.
#[derive(Debug, Clone, Copy, PartialEq, Eq, Structural)]
pub enum TextAnchor {
    Start,
    Middle,
    End,
}

/// The SVG `text-anchor` value of an anchor.
pub open spec fn anchor_text(a: TextAnchor) -> Seq<char> {
    match a {
        TextAnchor::Start => "start"@,
        TextAnchor::Middle => "middle"@,
        TextAnchor::End => "end"@,
    }
}

impl TextAnchor {
    /// The SVG `text-anchor` value: `start`, `middle` or `end`.
    pub fn to_string(&self) -> (r: String)
        ensures
            r@ == anchor_text(*self),
    {
        match self {
            TextAnchor::Start => crate::text::string_from("start"),
            TextAnchor::Middle => crate::text::string_from("middle"),
            TextAnchor::End => crate::text::string_from("end"),
        }
    }
}

/// Errors raised while parsing, validating or rendering a chart.
#[derive(Debug, Clone, PartialEq, Eq)]
pub enum ChartError {
    YamlParse(String),
    InvalidSpec(String),
    UnknownChartType(String),
    MissingField(String),
    PluginError(String),
    DataError(String),
    RenderError(String),
}

/// The message of an error: a prefix naming its kind, then its detail.
pub open spec fn error_message(e: ChartError) -> Seq<char> {
    match e {
        ChartError::YamlParse(s) => "YAML parse error: "@ + s@,
        ChartError::InvalidSpec(s) => "Invalid spec: "@ + s@,
        ChartError::UnknownChartType(s) => "Unknown chart type: "@ + s@,
        ChartError::MissingField(s) => "Missing required field: "@ + s@,
        ChartError::PluginError(s) => "Plugin error: "@ + s@,
        ChartError::DataError(s) => "Data error: "@ + s@,
        ChartError::RenderError(s) => "Render error: "@ + s@,
    }
}

pub(crate) fn prefixed(prefix: &str, detail: &String) -> (r: String)
    ensures
        r@ == prefix@ + detail@,
{
    let mut cs = chars_of(prefix);
    let d = chars_of(detail.as_str());
    extend_chars(&mut cs, &d);
    string_of(&cs)
}

impl ChartError {
    /// The error's message, e.g. `Invalid spec: no rows`.
    pub fn to_string(&self) -> (r: String)
        ensures
            r@ == error_message(*self),
    {
        match self {
            ChartError::YamlParse(s) => prefixed("YAML parse error: ", s),
            ChartError::InvalidSpec(s) => prefixed("Invalid spec: ", s),
            ChartError::UnknownChartType(s) => prefixed("Unknown chart type: ", s),
            ChartError::MissingField(s) => prefixed("Missing required field: ", s),
            ChartError::PluginError(s) => prefixed("Plugin error: ", s),
            ChartError::DataError(s) => prefixed("Data error: ", s),
            ChartError::RenderError(s) => prefixed("Render error: ", s),
        }
    }
}

} // verus!
