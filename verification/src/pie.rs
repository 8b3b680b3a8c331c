use vstd::prelude::*;

use crate::chart_spec::{ChartConfig, FieldRef, FieldRefItem};
use crate::element::ChartError;
use crate::text::{str_eq, string_from};

verus! {

/// Renderer of pie and doughnut charts.
pub struct PieRenderer;

impl PieRenderer {
    pub fn new() -> Self {
        PieRenderer
    }
}

/// A doughnut is a pie with a hole; every other type is drawn as a full pie.
pub fn is_doughnut(chart_type: &str) -> (r: bool)
    ensures
        r == (chart_type@ == "doughnut"@),
{
    str_eq(chart_type, "doughnut")
}

/// The field a pie reads from `columns` / `rows`, or the name of what is
/// missing: the whole reference, or the field of an empty list or of a
/// detailed spec that names none.
pub open spec fn pie_field(field_ref: Option<FieldRef>) -> Result<Seq<char>, Seq<char>> {
    match field_ref {
        Some(FieldRef::Simple(name)) => Ok(name@),
        Some(FieldRef::Detailed(spec)) => match spec.field {
            Some(f) => Ok(f@),
            None => Err("field"@),
        },
        Some(FieldRef::Multiple(items)) => if items.len() == 0 {
            Err("field"@)
        } else {
            match items[0] {
                FieldRefItem::Simple(name) => Ok(name@),
                FieldRefItem::Detailed(spec) => match spec.field {
                    Some(f) => Ok(f@),
                    None => Err("field"@),
                },
            }
        },
        None => Err("columns/rows field"@),
    }
}

/// A pie reads the field its reference names: a bare name, a detailed spec
/// that names a field, or the first entry of a list that names one each
/// give that field; only a missing reference, an empty list or a spec
/// without a field is an error.
pub proof fn lemma_pie_field_is_named_field(field_ref: Option<FieldRef>)
    ensures
        field_ref matches Some(FieldRef::Simple(n)) ==> pie_field(field_ref) == Ok::<Seq<char>, Seq<char>>(n@),
        field_ref matches Some(FieldRef::Detailed(spec)) ==> match spec.field {
            Some(f) => pie_field(field_ref) == Ok::<Seq<char>, Seq<char>>(f@),
            None => pie_field(field_ref) is Err,
        },
        field_ref matches Some(FieldRef::Multiple(items)) && items@.len() == 0 ==> pie_field(field_ref) is Err,
        field_ref matches Some(FieldRef::Multiple(items)) ==> items@.len() > 0 ==> match items@[0] {
            FieldRefItem::Simple(n) => pie_field(field_ref) == Ok::<Seq<char>, Seq<char>>(n@),
            FieldRefItem::Detailed(spec) => match spec.field {
                Some(f) => pie_field(field_ref) == Ok::<Seq<char>, Seq<char>>(f@),
                None => pie_field(field_ref) is Err,
            },
        },
        field_ref is None ==> pie_field(field_ref) is Err,
{
}

fn detailed_field(field: &Option<String>) -> (r: Result<String, ChartError>)
    ensures
        match r {
            Ok(s) => field matches Some(f) && s@ == f@,
            Err(e) => field is None && (e matches ChartError::MissingField(m) && m@ == "field"@),
        },
{
    match field {
        Some(f) => Ok(string_from(f.as_str())),
        None => Err(ChartError::MissingField(string_from("field"))),
    }
}

/// The field name of a pie's `columns` or `rows`.
pub fn get_field_name(field_ref: &Option<FieldRef>) -> (r: Result<String, ChartError>)
    ensures
        match r {
            Ok(s) => pie_field(*field_ref) == Ok::<Seq<char>, Seq<char>>(s@),
            Err(e) => e matches ChartError::MissingField(m)
                && pie_field(*field_ref) == Err::<Seq<char>, Seq<char>>(m@),
        },
{
    match field_ref {
        Some(FieldRef::Simple(name)) => Ok(string_from(name.as_str())),
        Some(FieldRef::Detailed(spec)) => detailed_field(&spec.field),
        Some(FieldRef::Multiple(items)) => {
            if items.len() == 0 {
                Err(ChartError::MissingField(string_from("field")))
            } else {
                match &items[0] {
                    FieldRefItem::Simple(name) => Ok(string_from(name.as_str())),
                    FieldRefItem::Detailed(spec) => detailed_field(&spec.field),
                }
            }
        },
        None => Err(ChartError::MissingField(string_from("columns/rows field"))),
    }
}

/// The category field (`columns`) and the value field (`rows`) of a pie,
/// the category being looked up first.
pub fn pie_fields(config: &ChartConfig) -> (r: Result<(String, String), ChartError>)
    ensures
        match r {
            Ok((c, v)) => pie_field(config.visualize.columns) == Ok::<Seq<char>, Seq<char>>(c@)
                && pie_field(config.visualize.rows) == Ok::<Seq<char>, Seq<char>>(v@),
            Err(e) => e matches ChartError::MissingField(m) && (
                pie_field(config.visualize.columns) == Err::<Seq<char>, Seq<char>>(m@)
                || (pie_field(config.visualize.columns) is Ok
                    && pie_field(config.visualize.rows) == Err::<Seq<char>, Seq<char>>(m@))),
        },
{
    let col = get_field_name(&config.visualize.columns)?;
    let row = get_field_name(&config.visualize.rows)?;
    Ok((col, row))
}

/// A pie needs at least one slice: rows with both a label and a value.
pub fn check_slices(slice_count: usize) -> (r: Result<(), ChartError>)
    ensures
        r is Ok <==> slice_count > 0,
        r matches Err(e) ==> (e matches ChartError::DataError(m) && m@ == "No data for pie chart"@),
{
    if slice_count == 0 {
        Err(ChartError::DataError(string_from("No data for pie chart")))
    } else {
        Ok(())
    }
}

} // verus!
