use vstd::prelude::*;

use crate::text::{index_of_text, str_eq, string_from, texts};

verus! {

/// The stroke dash pattern of an annotation: its own dash array first,
/// then the style shorthand (`dashed` is `6,4`, `dotted` is `2,3`), and none
/// for a solid line.
pub open spec fn spec_dash_array(dash_array: Option<Seq<char>>, style: Option<Seq<char>>) -> Option<Seq<char>> {
    match dash_array {
        Some(d) => Some(d),
        None => match style {
            Some(s) => if s == "dashed"@ {
                Some("6,4"@)
            } else if s == "dotted"@ {
                Some("2,3"@)
            } else {
                None
            },
            None => None,
        },
    }
}

/// The text of an optional string.
pub open spec fn opt_text(s: Option<String>) -> Option<Seq<char>> {
    match s {
        Some(t) => Some(t@),
        None => None,
    }
}

/// Resolves an annotation's dash pattern (see `spec_dash_array`).
pub fn resolve_dash_array(dash_array: &Option<String>, style: &Option<String>) -> (r: Option<String>)
    ensures
        opt_text(r) == spec_dash_array(opt_text(*dash_array), opt_text(*style)),
{
    match dash_array {
        Some(d) => Some(string_from(d.as_str())),
        None => match style {
            Some(s) => if str_eq(s.as_str(), "dashed") {
                Some(string_from("6,4"))
            } else if str_eq(s.as_str(), "dotted") {
                Some(string_from("2,3"))
            } else {
                None
            },
            None => None,
        },
    }
}

/// What an annotation draws.
#[derive(Clone, Copy, Debug, PartialEq, Eq, Structural)]
pub enum AnnotationKind {
    /// A vertical line at an x-axis category.
    VerticalLine,
    /// A horizontal line at a y value.
    HorizontalLine,
    /// A horizontal band between two y values.
    HorizontalBand,
    /// Nothing: another type or orientation.
    Unsupported,
}

/// The kind of an annotation from its type and orientation (horizontal
/// when none is given).
pub open spec fn spec_annotation_kind(annotation_type: Seq<char>, orientation: Option<Seq<char>>) -> AnnotationKind {
    let o = match orientation {
        Some(o) => o,
        None => "horizontal"@,
    };
    if annotation_type == "line"@ && o == "vertical"@ {
        AnnotationKind::VerticalLine
    } else if annotation_type == "line"@ && o == "horizontal"@ {
        AnnotationKind::HorizontalLine
    } else if annotation_type == "band"@ && o == "horizontal"@ {
        AnnotationKind::HorizontalBand
    } else {
        AnnotationKind::Unsupported
    }
}

/// Classifies an annotation by its type and orientation.
pub fn annotation_kind(annotation_type: &str, orientation: &Option<String>) -> (r: AnnotationKind)
    ensures
        r == spec_annotation_kind(annotation_type@, opt_text(*orientation)),
{
    let horizontal = match orientation {
        Some(o) => str_eq(o.as_str(), "horizontal"),
        None => true,
    };
    let vertical = match orientation {
        Some(o) => str_eq(o.as_str(), "vertical"),
        None => false,
    };
    proof {
        reveal_strlit("horizontal");
        reveal_strlit("vertical");
        assert("horizontal"@.len() != "vertical"@.len());
        let o = match opt_text(*orientation) {
            Some(o) => o,
            None => "horizontal"@,
        };
        assert(horizontal == (o == "horizontal"@));
        assert(vertical == (o == "vertical"@));
    }
    if str_eq(annotation_type, "line") && vertical {
        AnnotationKind::VerticalLine
    } else if str_eq(annotation_type, "line") && horizontal {
        AnnotationKind::HorizontalLine
    } else if str_eq(annotation_type, "band") && horizontal {
        AnnotationKind::HorizontalBand
    } else {
        AnnotationKind::Unsupported
    }
}

/// The color of an annotation: its own, or `#666`.
pub fn annotation_color(color: &Option<String>) -> (r: String)
    ensures
        r@ == match opt_text(*color) {
            Some(c) => c,
            None => "#666"@,
        },
{
    match color {
        Some(c) => string_from(c.as_str()),
        None => string_from("#666"),
    }
}

/// Whether a horizontal line's label goes at the line's end (the default)
/// rather than its start.
pub fn label_at_end(label_position: &Option<String>) -> (r: bool)
    ensures
        r == match opt_text(*label_position) {
            Some(p) => p == "end"@,
            None => true,
        },
{
    match label_position {
        Some(p) => str_eq(p.as_str(), "end"),
        None => true,
    }
}

/// The slot of a vertical line among the x-axis categories: the first
/// category equal to its value; none when there are no categories or none
/// matches (the annotation is then skipped).
pub fn vertical_line_slot(categories: &Option<Vec<String>>, value: &str) -> (r: Option<usize>)
    ensures
        match categories {
            None => r is None,
            Some(cats) => match r {
                Some(i) => i < cats@.len() && cats@[i as int]@ == value@
                    && forall|j: int| 0 <= j < i ==> #[trigger] cats@[j]@ != value@,
                None => !texts(cats@).contains(value@),
            },
        },
{
    match categories {
        Some(cats) => index_of_text(cats, value),
        None => None,
    }
}

} // verus!
