use vstd::prelude::*;

verus! {

/// Data-label settings of a measure.
#[derive(Debug, Clone)]
pub struct DataLabelsSpec {
    pub show: Option<bool>,
    pub format: Option<String>,
    pub position: Option<String>,
    pub color: Option<String>,
}

/// A field with display settings.
#[derive(Debug, Clone)]
pub struct FieldSpec {
    /// The data field; absent for range marks.
    pub field: Option<String>,
    pub label: Option<String>,
    pub color: Option<String>,
    pub format: Option<String>,
    pub data_labels: Option<DataLabelsSpec>,
}

/// One entry of a list of fields.
#[derive(Debug, Clone)]
pub enum FieldRefItem {
    Simple(String),
    Detailed(Box<FieldSpec>),
}

/// A reference to one or more fields (`rows:` / `columns:`).
#[derive(Debug, Clone)]
pub enum FieldRef {
    Simple(String),
    Detailed(Box<FieldSpec>),
    Multiple(Vec<FieldRefItem>),
}

/// A field used by an encoding channel.
#[derive(Debug, Clone)]
pub struct EncodingSpec {
    pub field: String,
}

/// An encoding channel: a field name or a detailed encoding.
#[derive(Debug, Clone)]
pub enum MarkEncoding {
    Simple(String),
    Detailed(EncodingSpec),
}

/// Encodings of the marks.
#[derive(Debug, Clone)]
pub struct MarksSpec {
    pub color: Option<MarkEncoding>,
    pub size: Option<MarkEncoding>,
}

/// Settings of one axis.
#[derive(Debug, Clone)]
pub struct AxisSpec {
    pub format: Option<String>,
}

/// Settings of the axes.
#[derive(Debug, Clone)]
pub struct AxesSpec {
    pub x: Option<AxisSpec>,
    pub left: Option<AxisSpec>,
    pub right: Option<AxisSpec>,
}

/// Presentation settings of a chart (`style:`).
#[derive(Debug, Clone)]
pub struct StyleSpec {
    /// Rows per page of a table.
    pub page_size: Option<usize>,
}

/// The `visualize:` block of a chart.
#[derive(Debug, Clone)]
pub struct VisualizeSpec {
    pub chart_type: String,
    pub columns: Option<FieldRef>,
    pub rows: Option<FieldRef>,
    pub marks: Option<MarksSpec>,
    pub axes: Option<AxesSpec>,
    pub style: Option<StyleSpec>,
    /// The measure shown by a metric card.
    pub value: Option<String>,
    /// Number format of a metric card.
    pub format: Option<String>,
    /// Caption of a metric card.
    pub label: Option<String>,
    /// The field a metric card is compared with.
    pub compare_with: Option<String>,
    /// Whether a fall counts as good news on a metric card.
    pub invert_trend: Option<bool>,
}

/// What a renderer is given besides the data.
#[derive(Debug, Clone)]
pub struct ChartConfig {
    pub visualize: VisualizeSpec,
    pub title: Option<String>,
}

/// Which gridlines a theme draws.
#[derive(Debug, Clone, Copy, PartialEq, Eq, Structural)]
pub enum GridStyle {
    Both,
    HorizontalOnly,
    VerticalOnly,
    Hidden,
}

/// The field an encoding names.
pub open spec fn encoding_field(enc: MarkEncoding) -> Seq<char> {
    match enc {
        MarkEncoding::Simple(name) => name@,
        MarkEncoding::Detailed(spec) => spec.field@,
    }
}

/// The field of an encoding channel.
pub fn encoding_field_name(enc: &MarkEncoding) -> (r: String)
    ensures
        r@ == encoding_field(*enc),
{
    match enc {
        MarkEncoding::Simple(name) => crate::text::string_from(name.as_str()),
        MarkEncoding::Detailed(spec) => crate::text::string_from(spec.field.as_str()),
    }
}

/// The field of the color channel of a chart, if it has one.
pub open spec fn color_field_of(config: ChartConfig) -> Option<Seq<char>> {
    match config.visualize.marks {
        Some(marks) => match marks.color {
            Some(enc) => Some(encoding_field(enc)),
            None => None,
        },
        None => None,
    }
}

/// The field of the size channel of a chart, if it has one.
pub open spec fn size_field_of(config: ChartConfig) -> Option<Seq<char>> {
    match config.visualize.marks {
        Some(marks) => match marks.size {
            Some(enc) => Some(encoding_field(enc)),
            None => None,
        },
        None => None,
    }
}

/// Extract color/series field from marks.
pub fn get_color_field(config: &ChartConfig) -> (r: Option<String>)
    ensures
        r matches Some(s) ==> color_field_of(*config) == Some(s@),
        r is None ==> color_field_of(*config) is None,
{
    match &config.visualize.marks {
        Some(marks) => match &marks.color {
            Some(enc) => Some(encoding_field_name(enc)),
            None => None,
        },
        None => None,
    }
}

/// Extract the size field name from marks.size encoding, if present.
pub fn get_size_field(config: &ChartConfig) -> (r: Option<String>)
    ensures
        r matches Some(s) ==> size_field_of(*config) == Some(s@),
        r is None ==> size_field_of(*config) is None,
{
    match &config.visualize.marks {
        Some(marks) => match &marks.size {
            Some(enc) => Some(encoding_field_name(enc)),
            None => None,
        },
        None => None,
    }
}

/// Whether horizontal (constant-y) gridlines should be drawn.
pub fn should_draw_horizontal_grid(style: &GridStyle) -> (r: bool)
    ensures
        r == (*style == GridStyle::Both || *style == GridStyle::HorizontalOnly),
{
    match style {
        GridStyle::Both | GridStyle::HorizontalOnly => true,
        _ => false,
    }
}

/// Whether vertical (constant-x) gridlines should be drawn.
pub fn should_draw_vertical_grid(style: &GridStyle) -> (r: bool)
    ensures
        r == (*style == GridStyle::Both || *style == GridStyle::VerticalOnly),
{
    match style {
        GridStyle::Both | GridStyle::VerticalOnly => true,
        _ => false,
    }
}

} // verus!
