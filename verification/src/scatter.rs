use vstd::prelude::*;

use crate::chart_spec::{ChartConfig, FieldRef, FieldRefItem};
use crate::element::ChartError;
use crate::text::{index_of_text, string_from, texts};

pub use crate::chart_spec::{get_color_field, get_size_field};

verus! {

/// Renderer of scatter and bubble charts.
pub struct ScatterRenderer;

impl ScatterRenderer {
    pub fn new() -> Self {
        ScatterRenderer
    }
}

impl Default for ScatterRenderer {
    fn default() -> (r: Self)
        ensures
            r == ScatterRenderer,
    {
        ScatterRenderer::new()
    }
}

/// The field a scatter axis reads, or the message of the invalid-spec
/// error when it has none.
pub open spec fn scatter_field(field_ref: Option<FieldRef>) -> Result<Seq<char>, Seq<char>> {
    match field_ref {
        Some(FieldRef::Simple(name)) => Ok(name@),
        Some(FieldRef::Detailed(spec)) => match spec.field {
            Some(f) => Ok(f@),
            None => Err(no_field_message()),
        },
        Some(FieldRef::Multiple(items)) => if items.len() == 0 {
            Err("Empty field reference list"@)
        } else {
            match items[0] {
                FieldRefItem::Simple(name) => Ok(name@),
                FieldRefItem::Detailed(spec) => match spec.field {
                    Some(f) => Ok(f@),
                    None => Err(no_field_message()),
                },
            }
        },
        None => Err("Missing required field reference"@),
    }
}

/// The message for a detailed spec without a field (a range mark).
pub open spec fn no_field_message() -> Seq<char> {
    "Field spec has no `field` (range-mark specs are not supported for scatter axes)"@
}

fn field_or_err(field: &Option<String>) -> (r: Result<String, ChartError>)
    ensures
        match r {
            Ok(s) => field matches Some(f) && s@ == f@,
            Err(e) => field is None && (e matches ChartError::InvalidSpec(m) && m@ == no_field_message()),
        },
{
    match field {
        Some(f) => Ok(string_from(f.as_str())),
        None => Err(ChartError::InvalidSpec(string_from(
            "Field spec has no `field` (range-mark specs are not supported for scatter axes)",
        ))),
    }
}

/// The field name of a scatter axis (`columns` for x, `rows` for y).
pub fn get_field_name(field_ref: &Option<FieldRef>) -> (r: Result<String, ChartError>)
    ensures
        match r {
            Ok(s) => scatter_field(*field_ref) == Ok::<Seq<char>, Seq<char>>(s@),
            Err(e) => e matches ChartError::InvalidSpec(m)
                && scatter_field(*field_ref) == Err::<Seq<char>, Seq<char>>(m@),
        },
{
    match field_ref {
        Some(FieldRef::Simple(name)) => Ok(string_from(name.as_str())),
        Some(FieldRef::Detailed(spec)) => field_or_err(&spec.field),
        Some(FieldRef::Multiple(items)) => {
            if items.len() == 0 {
                Err(ChartError::InvalidSpec(string_from("Empty field reference list")))
            } else {
                match &items[0] {
                    FieldRefItem::Simple(name) => Ok(string_from(name.as_str())),
                    FieldRefItem::Detailed(spec) => field_or_err(&spec.field),
                }
            }
        },
        None => Err(ChartError::InvalidSpec(string_from("Missing required field reference"))),
    }
}

/// The x field (`columns`) and the y field (`rows`) of a scatter chart, the
/// x field being looked up first.
pub fn scatter_fields(config: &ChartConfig) -> (r: Result<(String, String), ChartError>)
    ensures
        match r {
            Ok((x, y)) => scatter_field(config.visualize.columns) == Ok::<Seq<char>, Seq<char>>(x@)
                && scatter_field(config.visualize.rows) == Ok::<Seq<char>, Seq<char>>(y@),
            Err(e) => e matches ChartError::InvalidSpec(m) && (
                scatter_field(config.visualize.columns) == Err::<Seq<char>, Seq<char>>(m@)
                || (scatter_field(config.visualize.columns) is Ok
                    && scatter_field(config.visualize.rows) == Err::<Seq<char>, Seq<char>>(m@))),
        },
{
    let x = get_field_name(&config.visualize.columns)?;
    let y = get_field_name(&config.visualize.rows)?;
    Ok((x, y))
}

/// The palette slot of a point: the position of its color value among the
/// chart's categories, or the first slot when it has none or an unknown one.
pub fn color_category_index(categories: &Vec<String>, value: &Option<String>) -> (r: usize)
    ensures
        value matches Some(v) ==> (texts(categories@).contains(v@) ==> r < categories@.len()
            && categories@[r as int]@ == v@
            && forall|j: int| 0 <= j < r ==> #[trigger] categories@[j]@ != v@),
        value matches Some(v) ==> (!texts(categories@).contains(v@) ==> r == 0),
        value is None ==> r == 0,
{
    match value {
        Some(v) => match index_of_text(categories, v.as_str()) {
            Some(i) => {
                assert(texts(categories@)[i as int] == v@);
                i
            },
            None => 0,
        },
        None => 0,
    }
}

} // verus!
