use vstd::prelude::*;

use crate::chart_spec::ChartConfig;
use crate::element::ChartError;
use crate::text::string_from;

verus! {

/// Renderer of single-number metric cards.
pub struct MetricRenderer;

impl Default for MetricRenderer {
    fn default() -> (r: Self)
        ensures
            r == MetricRenderer,
    {
        MetricRenderer
    }
}

/// How a metric moved against the value it is compared with: the sign of
/// the change, or `Unordered` when the change is not a number.
#[derive(Debug, Clone, Copy, PartialEq, Eq, Structural)]
pub enum TrendDirection {
    Up,
    Down,
    Flat,
    Unordered,
}

/// The color of a rise or fall that is good news.
pub open spec fn good_color() -> Seq<char> {
    "#34a853"@
}

/// The color of a rise or fall that is bad news.
pub open spec fn bad_color() -> Seq<char> {
    "#dc3545"@
}

/// The color of a trend: `neutral` when nothing moved; otherwise good news
/// is a rise, or a fall when the trend is inverted.
pub open spec fn spec_trend_color(dir: TrendDirection, invert: bool, neutral: Seq<char>) -> Seq<char> {
    if dir == TrendDirection::Flat {
        neutral
    } else if (if invert { dir == TrendDirection::Down } else { dir == TrendDirection::Up }) {
        good_color()
    } else {
        bad_color()
    }
}

/// The arrow of a trend.
pub open spec fn spec_trend_arrow(dir: TrendDirection) -> Seq<char> {
    match dir {
        TrendDirection::Up => "\u{2191}"@,
        TrendDirection::Down => "\u{2193}"@,
        _ => "\u{2192}"@,
    }
}

/// What a metric card shows besides its number: the field it reads and its
/// caption.
pub struct MetricPlan {
    pub value_field: String,
    pub label: String,
}

/// The caption of a card: its `label`, else the chart title, else the field.
pub open spec fn spec_metric_label(config: ChartConfig, field: Seq<char>) -> Seq<char> {
    match config.visualize.label {
        Some(l) => l@,
        None => match config.title {
            Some(t) => t@,
            None => field,
        },
    }
}

impl MetricRenderer {
    pub fn new() -> Self {
        MetricRenderer
    }

    /// Checks a metric card against its data (`row_count` rows): it needs a
    /// `value` field, then at least one row.
    pub fn plan(&self, config: &ChartConfig, row_count: usize) -> (r: Result<MetricPlan, ChartError>)
        ensures
            r is Ok <==> (config.visualize.value is Some && row_count > 0),
            match r {
                Ok(p) => config.visualize.value matches Some(f) && p.value_field@ == f@
                    && p.label@ == spec_metric_label(*config, f@),
                Err(e) => if config.visualize.value is None {
                    e matches ChartError::MissingField(m) && m@ == "visualize.value"@
                } else {
                    e matches ChartError::DataError(m) && m@ == "No data for metric chart"@
                },
            },
    {
        let field = match &config.visualize.value {
            Some(f) => f,
            None => {
                return Err(ChartError::MissingField(string_from("visualize.value")));
            },
        };
        if row_count == 0 {
            return Err(ChartError::DataError(string_from("No data for metric chart")));
        }
        let label = match &config.visualize.label {
            Some(l) => string_from(l.as_str()),
            None => match &config.title {
                Some(t) => string_from(t.as_str()),
                None => string_from(field.as_str()),
            },
        };
        Ok(MetricPlan { value_field: string_from(field.as_str()), label })
    }
}

/// The text a card shows when its value is null.
pub fn missing_value_text() -> (r: String)
    ensures
        r@ == "\u{2014}"@,
{
    string_from("\u{2014}")
}

/// The color of a trend; `neutral` is the theme's secondary text color.
pub fn trend_color(dir: TrendDirection, invert: bool, neutral: &str) -> (r: String)
    ensures
        r@ == spec_trend_color(dir, invert, neutral@),
{
    let is_positive = if invert {
        dir == TrendDirection::Down
    } else {
        dir == TrendDirection::Up
    };
    if dir == TrendDirection::Flat {
        string_from(neutral)
    } else if is_positive {
        string_from("#34a853")
    } else {
        string_from("#dc3545")
    }
}

/// The arrow of a trend: up, down, or sideways.
pub fn trend_arrow(dir: TrendDirection) -> (r: &'static str)
    ensures
        r@ == spec_trend_arrow(dir),
{
    match dir {
        TrendDirection::Up => "\u{2191}",
        TrendDirection::Down => "\u{2193}",
        _ => "\u{2192}",
    }
}

} // verus!
