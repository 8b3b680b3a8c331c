use vstd::prelude::*;

use crate::chart_spec::{FieldRef, FieldRefItem, FieldSpec, VisualizeSpec};
use crate::element::ChartError;
use crate::text::{chars_of, dec, extend_chars, string_from, string_of, texts, u128_digits};

verus! {

/// Rows on one page of a table when the spec sets no page size.
pub const DEFAULT_PAGE_SIZE: usize = 50;

/// A column of a table: the field it shows, its header and its number
/// format.
pub struct Column {
    pub field: String,
    pub label: String,
    pub format: Option<String>,
}

/// A column as text: (field, label, format).
pub type ColumnText = (Seq<char>, Seq<char>, Option<Seq<char>>);

/// The text of an optional string.
pub open spec fn opt_text(o: Option<String>) -> Option<Seq<char>> {
    match o {
        Some(s) => Some(s@),
        None => None,
    }
}

/// A column as text.
pub open spec fn column_text(c: Column) -> ColumnText {
    (c.field@, c.label@, opt_text(c.format))
}

/// The columns of a list, as text.
pub open spec fn columns_text(cs: Seq<Column>) -> Seq<ColumnText> {
    Seq::new(cs.len(), |i: int| column_text(cs[i]))
}

/// The column of a bare field name: headed by the name, unformatted.
pub open spec fn plain_column(field: Seq<char>) -> ColumnText {
    (field, field, None)
}

/// The column of a detailed field: headed by its label, or by the field
/// when it has none; a range mark, without a field, gives no column.
pub open spec fn spec_column(spec: FieldSpec) -> Option<ColumnText> {
    match spec.field {
        Some(f) => Some((
            f@,
            match spec.label {
                Some(l) => l@,
                None => f@,
            },
            opt_text(spec.format),
        )),
        None => None,
    }
}

/// The columns one entry of a list gives.
pub open spec fn item_columns(item: FieldRefItem) -> Seq<ColumnText> {
    match item {
        FieldRefItem::Simple(name) => seq![plain_column(name@)],
        FieldRefItem::Detailed(spec) => match spec_column(*spec) {
            Some(c) => seq![c],
            None => Seq::empty(),
        },
    }
}

/// The columns of the first `n` entries of a list, in order.
pub open spec fn items_columns(items: Seq<FieldRefItem>, n: int) -> Seq<ColumnText>
    decreases n,
{
    if n <= 0 {
        Seq::empty()
    } else {
        items_columns(items, n - 1) + item_columns(items[n - 1])
    }
}

/// The columns a field reference gives, in order.
pub open spec fn ref_columns(field_ref: FieldRef) -> Seq<ColumnText> {
    match field_ref {
        FieldRef::Simple(name) => seq![plain_column(name@)],
        FieldRef::Detailed(spec) => match spec_column(*spec) {
            Some(c) => seq![c],
            None => Seq::empty(),
        },
        FieldRef::Multiple(items) => items_columns(items@, items@.len() as int),
    }
}

/// The columns an optional field reference gives.
pub open spec fn opt_ref_columns(field_ref: Option<FieldRef>) -> Seq<ColumnText> {
    match field_ref {
        Some(r) => ref_columns(r),
        None => Seq::empty(),
    }
}

/// The columns of a table: the category (`columns`) first, then each
/// measure (`rows`); with neither, every field of the data in order.
pub open spec fn table_columns(viz: VisualizeSpec, field_names: Seq<Seq<char>>) -> Seq<ColumnText> {
    let from_spec = opt_ref_columns(viz.columns) + opt_ref_columns(viz.rows);
    if from_spec.len() == 0 {
        Seq::new(field_names.len(), |i: int| plain_column(field_names[i]))
    } else {
        from_spec
    }
}

/// A table shows the spec's category columns first and then its measure
/// columns, each in the order the spec gives them; a bare category name is
/// the first column, headed by that name. With no column from the spec it
/// shows every field of the data, in order, headed by its name.
pub proof fn lemma_table_columns_order(viz: VisualizeSpec, field_names: Seq<Seq<char>>)
    ensures
        ({
            let cats = opt_ref_columns(viz.columns);
            let measures = opt_ref_columns(viz.rows);
            let shown = table_columns(viz, field_names);
            &&& cats.len() + measures.len() > 0 ==> {
                &&& shown.len() == cats.len() + measures.len()
                &&& forall|i: int| 0 <= i < cats.len() ==> #[trigger] shown[i] == cats[i]
                &&& forall|i: int| 0 <= i < measures.len() ==> #[trigger] shown[cats.len() + i] == measures[i]
            }
            &&& viz.columns matches Some(FieldRef::Simple(n)) ==> shown.len() > 0 && shown[0] == (n@, n@, None::<Seq<char>>)
            &&& cats.len() + measures.len() == 0 ==> {
                &&& shown.len() == field_names.len()
                &&& forall|i: int| 0 <= i < field_names.len() ==> #[trigger] shown[i] == (field_names[i], field_names[i], None::<Seq<char>>)
            }
        }),
{
    let cats = opt_ref_columns(viz.columns);
    let measures = opt_ref_columns(viz.rows);
    if let Some(FieldRef::Simple(n)) = viz.columns {
        assert(cats == seq![plain_column(n@)]);
    }
    assert forall|i: int| 0 <= i < measures.len() implies #[trigger] (cats + measures)[cats.len() + i] == measures[i] by {}
}

fn copy_opt(o: &Option<String>) -> (r: Option<String>)
    ensures
        opt_text(r) == opt_text(*o),
{
    match o {
        Some(s) => Some(string_from(s.as_str())),
        None => None,
    }
}

impl Column {
    /// The column of a bare field name.
    pub fn plain(field: &str) -> (r: Column)
        ensures
            column_text(r) == plain_column(field@),
    {
        Column { field: string_from(field), label: string_from(field), format: None }
    }

    /// The column of a detailed field; `None` for a range mark, which has no
    /// single field to show.
    pub fn from_field_spec(spec: &FieldSpec) -> (r: Option<Column>)
        ensures
            match r {
                Some(c) => spec_column(*spec) == Some(column_text(c)),
                None => spec_column(*spec) is None,
            },
    {
        match &spec.field {
            Some(f) => {
                let label = match &spec.label {
                    Some(l) => string_from(l.as_str()),
                    None => string_from(f.as_str()),
                };
                Some(Column { field: string_from(f.as_str()), label, format: copy_opt(&spec.format) })
            },
            None => None,
        }
    }
}

fn push_item(out: &mut Vec<Column>, item: &FieldRefItem)
    ensures
        columns_text(final(out)@) == columns_text(old(out)@) + item_columns(*item),
{
    match item {
        FieldRefItem::Simple(name) => {
            out.push(Column::plain(name.as_str()));
        },
        FieldRefItem::Detailed(spec) => {
            match Column::from_field_spec(spec) {
                Some(c) => {
                    out.push(c);
                },
                None => {},
            }
        },
    }
    assert(columns_text(out@) =~= columns_text(old(out)@) + item_columns(*item));
}

/// Appends the columns of a field reference to `out`.
pub fn append_field_ref(out: &mut Vec<Column>, field_ref: &FieldRef)
    ensures
        columns_text(final(out)@) == columns_text(old(out)@) + ref_columns(*field_ref),
{
    match field_ref {
        FieldRef::Simple(name) => {
            out.push(Column::plain(name.as_str()));
            assert(columns_text(out@) =~= columns_text(old(out)@) + ref_columns(*field_ref));
        },
        FieldRef::Detailed(spec) => {
            match Column::from_field_spec(spec) {
                Some(c) => {
                    out.push(c);
                },
                None => {},
            }
            assert(columns_text(out@) =~= columns_text(old(out)@) + ref_columns(*field_ref));
        },
        FieldRef::Multiple(items) => {
            let ghost start = columns_text(out@);
            let mut i: usize = 0;
            while i < items.len()
                invariant
                    i <= items@.len(),
                    columns_text(out@) == start + items_columns(items@, i as int),
                decreases items@.len() - i,
            {
                push_item(out, &items[i]);
                i = i + 1;
                assert(columns_text(out@) =~= start + items_columns(items@, i as int));
            }
        },
    }
}

/// The columns a table shows, given the field names of its data in schema
/// order.
pub fn resolve_columns(viz: &VisualizeSpec, field_names: &Vec<String>) -> (r: Vec<Column>)
    ensures
        columns_text(r@) == table_columns(*viz, texts(field_names@)),
{
    let mut out: Vec<Column> = Vec::new();
    assert(columns_text(out@) =~= Seq::<ColumnText>::empty());
    match &viz.columns {
        Some(c) => append_field_ref(&mut out, c),
        None => {},
    }
    match &viz.rows {
        Some(r) => append_field_ref(&mut out, r),
        None => {},
    }
    assert(columns_text(out@) =~= opt_ref_columns(viz.columns) + opt_ref_columns(viz.rows));
    if out.len() == 0 {
        assert(columns_text(out@) =~= Seq::new(0 as nat, |k: int| plain_column(field_names@[k]@)));
        let mut i: usize = 0;
        while i < field_names.len()
            invariant
                i <= field_names@.len(),
                out@.len() == i,
                columns_text(out@) == Seq::new(i as nat, |k: int| plain_column(field_names@[k]@)),
            decreases field_names@.len() - i,
        {
            let c = Column::plain(field_names[i].as_str());
            let ghost before = out@;
            out.push(c);
            assert(out@ == before.push(c));
            assert(columns_text(out@).len() == i + 1);
            assert(columns_text(out@)[i as int] == plain_column(field_names@[i as int]@));
            assert forall|k: int| 0 <= k < i implies #[trigger] columns_text(out@)[k] == plain_column(field_names@[k]@) by {
                assert(columns_text(out@)[k] == column_text(before[k]));
                assert(columns_text(before)[k] == column_text(before[k]));
            }
            i = i + 1;
            assert(columns_text(out@) =~= Seq::new(i as nat, |k: int| plain_column(field_names@[k]@)));
        }
        assert(columns_text(out@) =~= table_columns(*viz, texts(field_names@)));
    }
    out
}

/// Rows per page: the spec's `pageSize`, at least one, or the default.
pub open spec fn spec_page_size(viz: VisualizeSpec) -> nat {
    match viz.style {
        Some(style) => match style.page_size {
            Some(p) => if p < 1 { 1 } else { p as nat },
            None => DEFAULT_PAGE_SIZE as nat,
        },
        None => DEFAULT_PAGE_SIZE as nat,
    }
}

/// Rows per page of a table; a page size of zero counts as one.
pub fn page_size(viz: &VisualizeSpec) -> (r: usize)
    ensures
        r as nat == spec_page_size(*viz),
        r >= 1,
{
    match &viz.style {
        Some(style) => match style.page_size {
            Some(p) => if p < 1 { 1 } else { p },
            None => DEFAULT_PAGE_SIZE,
        },
        None => DEFAULT_PAGE_SIZE,
    }
}

/// The footer of a table with more rows than one page shows.
pub open spec fn pager_text(shown: nat, total: nat, pages: nat) -> Seq<char> {
    "Showing 1\u{2013}"@ + dec(shown) + " of "@ + dec(total) + " \u{b7} Page 1 of "@ + dec(pages)
}

fn push_str(out: &mut Vec<char>, s: &str)
    ensures
        final(out)@ == old(out)@ + s@,
{
    let cs = chars_of(s);
    extend_chars(out, &cs);
}

fn push_number(out: &mut Vec<char>, n: usize)
    ensures
        final(out)@ == old(out)@ + dec(n as nat),
{
    let cs = u128_digits(n as u128);
    extend_chars(out, &cs);
}

/// The footer text, e.g. `Showing 1–50 of 120 · Page 1 of 3`.
pub fn pager_info(shown: usize, total: usize, pages: usize) -> (r: String)
    ensures
        r@ == pager_text(shown as nat, total as nat, pages as nat),
{
    let mut out: Vec<char> = Vec::new();
    push_str(&mut out, "Showing 1\u{2013}");
    push_number(&mut out, shown);
    push_str(&mut out, " of ");
    push_number(&mut out, total);
    push_str(&mut out, " \u{b7} Page 1 of ");
    push_number(&mut out, pages);
    assert(out@ =~= pager_text(shown as nat, total as nat, pages as nat));
    string_of(&out)
}

/// The class of a body row: every second row is marked as alternate.
pub fn row_class(row: usize) -> (r: &'static str)
    ensures
        row % 2 == 1 ==> r@ == "chartml-table-row chartml-table-row-alt"@,
        row % 2 == 0 ==> r@ == "chartml-table-row"@,
{
    if row % 2 == 1 {
        "chartml-table-row chartml-table-row-alt"
    } else {
        "chartml-table-row"
    }
}

/// The text of a non-numeric cell: its value, or an em dash for a null.
pub fn text_cell(value: &Option<String>) -> (r: String)
    ensures
        match value {
            Some(s) => r@ == s@,
            None => r@ == "\u{2014}"@,
        },
{
    match value {
        Some(s) => string_from(s.as_str()),
        None => string_from("\u{2014}"),
    }
}

/// What a table shows of its data: its columns, the number of rows on the
/// first page, and the footer when there are more pages.
pub struct TablePlan {
    pub columns: Vec<Column>,
    pub rows_shown: usize,
    pub pager: Option<String>,
}

/// Renderer of tables.
pub struct TableRenderer;

impl Default for TableRenderer {
    fn default() -> (r: Self)
        ensures
            r == TableRenderer,
    {
        TableRenderer
    }
}

impl TableRenderer {
    pub fn new() -> Self {
        TableRenderer
    }

    /// Lays out a table of `total_rows` rows whose data has the fields
    /// `field_names`: it fails when there is no column to show.
    pub fn plan(&self, viz: &VisualizeSpec, field_names: &Vec<String>, total_rows: usize) -> (r: Result<TablePlan, ChartError>)
        ensures
            r is Ok <==> table_columns(*viz, texts(field_names@)).len() > 0,
            match r {
                Ok(p) => {
                    let ps = spec_page_size(*viz);
                    &&& columns_text(p.columns@) == table_columns(*viz, texts(field_names@))
                    &&& p.rows_shown == if total_rows < ps { total_rows as nat } else { ps }
                    &&& (p.pager is Some <==> total_rows > ps)
                    &&& (p.pager matches Some(t) ==> t@ == pager_text(ps, total_rows as nat, ((total_rows + ps - 1) / (ps as int)) as nat))
                },
                Err(e) => e matches ChartError::DataError(m) && m@ == "Table has no columns to render"@,
            },
    {
        let columns = resolve_columns(viz, field_names);
        if columns.len() == 0 {
            return Err(ChartError::DataError(string_from("Table has no columns to render")));
        }
        let ps = page_size(viz);
        let shown = if total_rows < ps { total_rows } else { ps };
        let pager = if total_rows > ps {
            let q = total_rows / ps;
            let pages = if total_rows % ps == 0 {
                q
            } else {
                assert(q < total_rows) by (nonlinear_arith)
                    requires
                        ps >= 1,
                        q == total_rows / ps,
                        total_rows % ps != 0,
                ;
                q + 1
            };
            assert(pages as int == (total_rows + ps - 1) / (ps as int)) by (nonlinear_arith)
                requires
                    ps >= 1,
                    q == total_rows / ps,
                    pages as int == q as int + if total_rows as int % ps as int == 0 { 0int } else { 1int },
            ;
            Some(pager_info(shown, total_rows, pages))
        } else {
            None
        };
        Ok(TablePlan { columns, rows_shown: shown, pager })
    }
}

} // verus!
