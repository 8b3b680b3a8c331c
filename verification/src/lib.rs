use vstd::prelude::*;

pub mod text;
pub mod calendar;
pub mod data;
pub mod schema;
pub mod color;
pub mod number_format;
pub mod date_format;
pub mod element;
pub mod layout;
pub mod labels;
pub mod chart_spec;
pub mod cartesian;
pub mod pie;
pub mod scatter;
pub mod table;
pub mod metric;
pub mod sources;
pub mod params;
pub mod annotations;

verus! {

} // verus!
