use vstd::prelude::*;

use crate::chart_spec::{ChartConfig, DataLabelsSpec, FieldRef, FieldRefItem};
use crate::element::ChartError;
use crate::data::pow10;
use crate::number_format::{
    commas_chars, commas_upto, find_char, first_index_of, lemma_commas_removed, lemma_remove_char_concat,
    remove_char, with_commas,
};
use crate::text::{chars_of, dec, extend_chars, string_from, string_of, u128_digits};

pub use crate::chart_spec::get_color_field;

verus! {

/// Renderer of bar, line and area charts.
pub struct CartesianRenderer;

impl CartesianRenderer {
    pub fn new() -> Self {
        CartesianRenderer
    }
}

impl Default for CartesianRenderer {
    fn default() -> (r: Self)
        ensures
            r == CartesianRenderer,
    {
        Self::new()
    }
}

/// The kinds of chart the cartesian renderer draws.
#[derive(Debug, Clone, Copy, PartialEq, Eq, Structural)]
pub enum CartesianChartKind {
    Bar,
    Line,
    Area,
}

/// Which cartesian chart a `type:` names: `bar`, `line` or `area`; any
/// other type is unknown to this renderer.
pub open spec fn spec_cartesian_kind(chart_type: Seq<char>) -> Result<CartesianChartKind, Seq<char>> {
    if chart_type == "bar"@ {
        Ok(CartesianChartKind::Bar)
    } else if chart_type == "line"@ {
        Ok(CartesianChartKind::Line)
    } else if chart_type == "area"@ {
        Ok(CartesianChartKind::Area)
    } else {
        Err(chart_type)
    }
}

/// Selects the chart drawn for a `type:`, or the unknown-type error.
pub fn cartesian_chart_kind(chart_type: &str) -> (r: Result<CartesianChartKind, ChartError>)
    ensures
        r matches Ok(k) ==> spec_cartesian_kind(chart_type@) == Ok::<CartesianChartKind, Seq<char>>(k),
        r matches Err(e) ==> (e matches ChartError::UnknownChartType(t) && spec_cartesian_kind(chart_type@) == Err::<CartesianChartKind, Seq<char>>(t@)),
{
    if crate::text::str_eq(chart_type, "bar") {
        Ok(CartesianChartKind::Bar)
    } else if crate::text::str_eq(chart_type, "line") {
        Ok(CartesianChartKind::Line)
    } else if crate::text::str_eq(chart_type, "area") {
        Ok(CartesianChartKind::Area)
    } else {
        Err(ChartError::UnknownChartType(string_from(chart_type)))
    }
}

/// The field a reference names: the name itself, the field of a detailed
/// spec, or the first entry of a list.
pub open spec fn first_field(field_ref: FieldRef) -> Option<Option<Seq<char>>> {
    match field_ref {
        FieldRef::Simple(name) => Some(Some(name@)),
        FieldRef::Detailed(spec) => Some(match spec.field { Some(f) => Some(f@), None => None }),
        FieldRef::Multiple(items) => if items.len() == 0 {
            None
        } else {
            match items[0] {
                FieldRefItem::Simple(name) => Some(Some(name@)),
                FieldRefItem::Detailed(spec) => Some(match spec.field { Some(f) => Some(f@), None => None }),
            }
        },
    }
}

/// The field name of `rows` / `columns`, or a missing-field error when
/// there is none.
pub open spec fn spec_field_name(field_ref: Option<FieldRef>) -> Option<Seq<char>> {
    match field_ref {
        Some(r) => match first_field(r) {
            Some(Some(f)) => Some(f),
            _ => None,
        },
        None => None,
    }
}

fn field_of_spec(field: &Option<String>) -> (r: Option<String>)
    ensures
        r matches Some(s) ==> field matches Some(f) && s@ == f@,
        r is None ==> field is None,
{
    match field {
        Some(f) => Some(string_from(f.as_str())),
        None => None,
    }
}

/// Extract the field name from a FieldRef (Simple, Detailed, or Multiple).
pub fn get_field_name(field_ref: &Option<FieldRef>) -> (r: Result<String, ChartError>)
    ensures
        r matches Ok(s) ==> spec_field_name(*field_ref) == Some(s@),
        r matches Err(e) ==> (spec_field_name(*field_ref) is None
            && (e matches ChartError::MissingField(m) && m@ == "rows/columns field"@)),
{
    let found = match field_ref {
        Some(FieldRef::Simple(name)) => Some(string_from(name.as_str())),
        Some(FieldRef::Detailed(spec)) => field_of_spec(&spec.field),
        Some(FieldRef::Multiple(items)) => {
            if items.len() == 0 {
                None
            } else {
                match &items[0] {
                    FieldRefItem::Simple(name) => Some(string_from(name.as_str())),
                    FieldRefItem::Detailed(spec) => field_of_spec(&spec.field),
                }
            }
        },
        None => None,
    };
    match found {
        Some(s) => Ok(s),
        None => Err(ChartError::MissingField(string_from("rows/columns field"))),
    }
}

/// The format of an axis, if the axes block gives one.
pub open spec fn axis_format(config: ChartConfig, left: bool) -> Option<Seq<char>> {
    match config.visualize.axes {
        Some(axes) => match (if left { axes.left } else { axes.x }) {
            Some(a) => match a.format {
                Some(f) => Some(f@),
                None => None,
            },
            None => None,
        },
        None => None,
    }
}

/// Extract the y-axis (rows/left) format string from the spec.
pub fn get_y_format(config: &ChartConfig) -> (r: Option<String>)
    ensures
        r matches Some(s) ==> axis_format(*config, true) == Some(s@),
        r is None ==> axis_format(*config, true) is None,
{
    match &config.visualize.axes {
        Some(axes) => match &axes.left {
            Some(a) => field_of_spec(&a.format),
            None => None,
        },
        None => None,
    }
}

/// Extract the x-axis (columns) format string from the spec.
pub fn get_x_format(config: &ChartConfig) -> (r: Option<String>)
    ensures
        r matches Some(s) ==> axis_format(*config, false) == Some(s@),
        r is None ==> axis_format(*config, false) is None,
{
    match &config.visualize.axes {
        Some(axes) => match &axes.x {
            Some(a) => field_of_spec(&a.format),
            None => None,
        },
        None => None,
    }
}

/// The data-label settings of a detailed `rows` field.
pub open spec fn data_labels_of(config: ChartConfig) -> Option<DataLabelsSpec> {
    match config.visualize.rows {
        Some(FieldRef::Detailed(spec)) => spec.data_labels,
        _ => None,
    }
}

/// Get dataLabels config from the rows field spec.
pub fn get_data_labels_config(config: &ChartConfig) -> (r: Option<&DataLabelsSpec>)
    ensures
        r matches Some(d) ==> data_labels_of(*config) == Some(*d),
        r is None ==> data_labels_of(*config) is None,
{
    match &config.visualize.rows {
        Some(FieldRef::Detailed(spec)) => spec.data_labels.as_ref(),
        _ => None,
    }
}

/// Index of the last `c` in `s`, if any.
pub open spec fn last_index_of(s: Seq<char>, c: char) -> Option<int> {
    if s.contains(c) {
        Some(choose|i: int| 0 <= i < s.len() && s[i] == c && forall|j: int| i < j < s.len() ==> s[j] != c)
    } else {
        None
    }
}

/// Whether every character of `s` is `0`.
pub open spec fn all_zeros(s: Seq<char>) -> bool {
    forall|k: int| 0 <= k < s.len() ==> s[k] == '0'
}

/// A formatted number without a fraction made only of zeros: what follows
/// the last point is dropped, with the point, when it is one or more zeros.
pub open spec fn stripped_zero_decimals(s: Seq<char>) -> Seq<char> {
    match last_index_of(s, '.') {
        Some(p) => {
            let after = s.subrange(p + 1, s.len() as int);
            if after.len() > 0 && all_zeros(after) {
                s.subrange(0, p)
            } else {
                s
            }
        },
        None => s,
    }
}

fn find_last_char(cs: &Vec<char>, c: char) -> (r: Option<usize>)
    ensures
        r matches Some(p) ==> last_index_of(cs@, c) == Some(p as int) && p < cs@.len(),
        r is None ==> last_index_of(cs@, c) is None,
{
    let mut i: usize = cs.len();
    while i > 0
        invariant
            i <= cs@.len(),
            forall|j: int| i <= j < cs@.len() ==> cs@[j] != c,
        decreases i,
    {
        if cs[i - 1] == c {
            let p = i - 1;
            proof {
                assert(cs@.contains(c));
                let w = choose|k: int| 0 <= k < cs@.len() && cs@[k] == c && forall|j: int| k < j < cs@.len() ==> cs@[j] != c;
                assert(0 <= p < cs@.len() && cs@[p as int] == c && forall|j: int| p < j < cs@.len() ==> cs@[j] != c);
                if w < p {
                    assert(cs@[p as int] != c);
                } else if w > p {
                    assert(cs@[w] != c);
                }
            }
            return Some(p);
        }
        i = i - 1;
    }
    assert(!cs@.contains(c));
    None
}

fn copy_range(cs: &Vec<char>, from: usize, to: usize) -> (out: Vec<char>)
    requires
        from <= to <= cs@.len(),
    ensures
        out@ == cs@.subrange(from as int, to as int),
{
    let mut out: Vec<char> = Vec::new();
    let mut k: usize = from;
    while k < to
        invariant
            from <= k <= to <= cs@.len(),
            out@ == cs@.subrange(from as int, k as int),
        decreases to - k,
    {
        out.push(cs[k]);
        k = k + 1;
        assert(out@ =~= cs@.subrange(from as int, k as int));
    }
    out
}

/// Strip trailing ".0", ".00", etc. from a formatted number string.
pub fn strip_trailing_zero_decimals(s: &str) -> (out: String)
    ensures
        out@ == stripped_zero_decimals(s@),
{
    let cs = chars_of(s);
    match find_last_char(&cs, '.') {
        Some(p) => {
            let n = cs.len();
            let mut zeros = p + 1 < n;
            let mut k: usize = p + 1;
            while k < n
                invariant
                    p < n == cs@.len(),
                    p + 1 <= k <= n,
                    zeros == (p + 1 < n && forall|j: int| p + 1 <= j < k ==> cs@[j] == '0'),
                decreases n - k,
            {
                if cs[k] != '0' {
                    zeros = false;
                }
                k = k + 1;
            }
            let ghost after = cs@.subrange(p + 1, n as int);
            assert(zeros ==> all_zeros(after)) by {
                if zeros {
                    assert forall|q: int| 0 <= q < after.len() implies after[q] == '0' by {
                        assert(after[q] == cs@[p + 1 + q]);
                    }
                }
            }
            assert(all_zeros(after) && after.len() > 0 ==> zeros) by {
                if all_zeros(after) && after.len() > 0 {
                    assert forall|j: int| p + 1 <= j < n implies cs@[j] == '0' by {
                        assert(cs@[j] == after[j - p - 1]);
                    }
                }
            }
            if zeros {
                let prefix = copy_range(&cs, 0, p);
                string_of(&prefix)
            } else {
                string_from(s)
            }
        },
        None => string_from(s),
    }
}

/// Insert commas into a string of digits (no sign).
pub fn insert_commas_str(digits: &str) -> (out: String)
    requires
        digits@.len() <= usize::MAX / 4,
    ensures
        out@ == with_commas(digits@),
{
    crate::number_format::insert_commas(digits)
}

/// The digits of `n` grouped by three with commas.
pub fn insert_commas(n: u64) -> (out: String)
    ensures
        out@ == with_commas(dec(n as nat)),
{
    let digits = u128_digits(n as u128);
    proof { lemma_dec_short(n as nat); }
    let grouped = commas_chars(&digits);
    string_of(&grouped)
}

proof fn lemma_dec_short(n: nat)
    requires
        n <= u64::MAX,
    ensures
        dec(n).len() <= 20,
{
    assert(pow10(20) == 100000000000000000000nat) by {
        reveal_with_fuel(pow10, 21);
    }
    lemma_dec_len_bound(n, 20);
}

proof fn lemma_dec_len_bound(n: nat, k: nat)
    requires
        n < pow10(k),
        k >= 1,
    ensures
        dec(n).len() <= k,
    decreases k,
{
    if n >= 10 {
        if k == 1 {
            assert(pow10(1) == 10) by {
                reveal_with_fuel(pow10, 2);
            }
        } else {
            let k1 = (k - 1) as nat;
            assert(n / 10 < pow10(k1));
            lemma_dec_len_bound(n / 10, k1);
        }
    }
}

/// A whole number as an axis shows it: its digits grouped by three, after
/// a minus sign when it is below zero.
pub fn grouped_integer(abs: u64, negative: bool) -> (out: String)
    ensures
        out@ == (if negative { seq!['-'] } else { Seq::<char>::empty() }) + with_commas(dec(abs as nat)),
{
    let grouped = insert_commas(abs);
    if negative {
        let mut cs: Vec<char> = Vec::new();
        cs.push('-');
        let g = chars_of(grouped.as_str());
        extend_chars(&mut cs, &g);
        string_of(&cs)
    } else {
        assert(Seq::<char>::empty() + grouped@ =~= grouped@);
        grouped
    }
}

/// A tick label in fixed notation with commas put into its whole part; a
/// leading minus sign stays in front of the groups.
pub open spec fn tick_grouped(s: Seq<char>) -> Seq<char> {
    let int_part = match first_index_of(s, '.') {
        Some(p) => s.subrange(0, p),
        None => s,
    };
    let rest = match first_index_of(s, '.') {
        Some(p) => s.subrange(p, s.len() as int),
        None => Seq::<char>::empty(),
    };
    if int_part.len() > 0 && int_part[0] == '-' {
        seq!['-'] + with_commas(int_part.subrange(1, int_part.len() as int)) + rest
    } else {
        with_commas(int_part) + rest
    }
}

/// Puts comma separators into the whole part of a tick value already
/// written in fixed notation.
pub fn group_tick_label(formatted: &str) -> (out: String)
    requires
        formatted@.len() <= usize::MAX / 4,
    ensures
        out@ == tick_grouped(formatted@),
{
    let cs = chars_of(formatted);
    let n = cs.len();
    let p = match find_char(&cs, '.') {
        Some(p) => p,
        None => n,
    };
    let negative = p > 0 && cs[0] == '-';
    let start: usize = if negative { 1 } else { 0 };
    let digits = copy_range(&cs, start, p);
    let grouped = commas_chars(&digits);
    let mut out: Vec<char> = Vec::new();
    if negative {
        out.push('-');
    }
    extend_chars(&mut out, &grouped);
    let rest = copy_range(&cs, p, n);
    extend_chars(&mut out, &rest);
    proof {
        let int_part = cs@.subrange(0, p as int);
        if negative {
            assert(int_part.subrange(1, int_part.len() as int) =~= cs@.subrange(1, p as int));
        }
        if first_index_of(cs@, '.') is None {
            assert(cs@.subrange(0, n as int) =~= cs@);
            assert(cs@.subrange(n as int, n as int) =~= Seq::<char>::empty());
        }
        if negative {
            assert(out@ =~= seq!['-'] + with_commas(cs@.subrange(1, p as int)) + cs@.subrange(p as int, n as int));
        } else {
            assert(out@ =~= with_commas(cs@.subrange(0, p as int)) + cs@.subrange(p as int, n as int));
        }
    }
    string_of(&out)
}

proof fn lemma_remove_absent(t: Seq<char>, c: char)
    requires
        !t.contains(c),
    ensures
        remove_char(t, c) == t,
    decreases t.len(),
{
    if t.len() > 0 {
        assert(!t.drop_last().contains(c)) by {
            if t.drop_last().contains(c) {
                let k = choose|k: int| 0 <= k < t.drop_last().len() && t.drop_last()[k] == c;
                assert(t[k] == c);
            }
        }
        lemma_remove_absent(t.drop_last(), c);
        assert(t[t.len() - 1] != c);
        assert(t.drop_last().push(t.last()) =~= t);
    }
}

proof fn lemma_subrange_absent(t: Seq<char>, c: char, i: int, j: int)
    requires
        !t.contains(c),
        0 <= i <= j <= t.len(),
    ensures
        !t.subrange(i, j).contains(c),
{
    if t.subrange(i, j).contains(c) {
        let k = choose|k: int| 0 <= k < t.subrange(i, j).len() && t.subrange(i, j)[k] == c;
        assert(t[i + k] == c);
    }
}

proof fn lemma_commas_first(s: Seq<char>, b: int, n: int)
    requires
        1 <= n <= s.len(),
    ensures
        commas_upto(s, b, n).len() >= 1,
        commas_upto(s, b, n)[0] == s[0],
    decreases n,
{
    let i = n - 1;
    let sep: Seq<char> = if i > 0 && (b - i) % 3 == 0 { seq![','] } else { Seq::empty() };
    let prefix = commas_upto(s, b, i);
    assert(commas_upto(s, b, n) == prefix + sep + seq![s[i]]);
    if n > 1 {
        lemma_commas_first(s, b, n - 1);
        assert((prefix + sep + seq![s[i]])[0] == prefix[0]);
    } else {
        assert(prefix =~= Seq::<char>::empty());
        assert(sep =~= Seq::<char>::empty());
        assert((prefix + sep + seq![s[i]])[0] == s[0]);
    }
}

proof fn lemma_first_from(s: Seq<char>, c: char, k: int) -> (p: int)
    requires
        0 <= k <= s.len(),
        forall|j: int| 0 <= j < k ==> s[j] != c,
        exists|i: int| k <= i < s.len() && s[i] == c,
    ensures
        0 <= p < s.len() && s[p] == c && forall|j: int| 0 <= j < p ==> s[j] != c,
    decreases s.len() - k,
{
    if s[k] == c {
        k
    } else {
        lemma_first_from(s, c, k + 1)
    }
}

proof fn lemma_first_index(s: Seq<char>, c: char)
    ensures
        s.contains(c) ==> (first_index_of(s, c) matches Some(p) && 0 <= p < s.len() && s[p] == c
            && forall|j: int| 0 <= j < p ==> s[j] != c),
{
    if s.contains(c) {
        let w = lemma_first_from(s, c, 0);
        assert(0 <= w < s.len() && s[w] == c && forall|j: int| 0 <= j < w ==> s[j] != c);
    }
}

/// Grouping a tick label only inserts commas: removing them gives the label
/// back. A negative label keeps its minus sign in front, followed by the
/// label's next character, so the sign is never grouped with the digits.
#[verifier::rlimit(40)]
pub proof fn lemma_tick_grouped_keeps_sign(s: Seq<char>)
    requires
        !s.contains(','),
    ensures
        remove_char(tick_grouped(s), ',') == s,
        s.len() > 0 && s[0] == '-' ==> tick_grouped(s)[0] == '-',
        s.len() > 1 && s[0] == '-' ==> tick_grouped(s).len() > 1 && tick_grouped(s)[1] == s[1],
{
    let p: int = match first_index_of(s, '.') {
        Some(p) => p,
        None => s.len() as int,
    };
    lemma_first_index(s, '.');
    let int_part = s.subrange(0, p);
    let rest = s.subrange(p, s.len() as int);
    assert(first_index_of(s, '.') is None ==> int_part =~= s && rest =~= Seq::<char>::empty());
    assert(int_part + rest =~= s);
    lemma_subrange_absent(s, ',', 0, p);
    lemma_subrange_absent(s, ',', p, s.len() as int);
    lemma_remove_absent(rest, ',');
    if int_part.len() > 0 && int_part[0] == '-' {
        let x = int_part.subrange(1, int_part.len() as int);
        lemma_subrange_absent(int_part, ',', 1, int_part.len() as int);
        lemma_commas_removed(x);
        lemma_remove_char_concat(seq!['-'] + with_commas(x), rest, ',');
        lemma_remove_char_concat(seq!['-'], with_commas(x), ',');
        let minus: Seq<char> = seq!['-'];
        assert(!minus.contains(',')) by {
            if minus.contains(',') {
                let k = choose|k: int| 0 <= k < minus.len() && minus[k] == ',';
                assert(minus[k] == '-');
            }
        }
        lemma_remove_absent(minus, ',');
        assert(seq!['-'] + x + rest =~= s);
        if x.len() > 0 {
            lemma_commas_first(x, crate::number_format::utf8_len(x), x.len() as int);
            assert(x[0] == s[1]);
        } else if s.len() > 1 {
            assert(p == 1);
            assert(rest[0] == s[1]);
            assert(with_commas(x) =~= Seq::<char>::empty());
        }
    } else {
        lemma_commas_removed(int_part);
        lemma_remove_char_concat(with_commas(int_part), rest, ',');
        if s.len() > 0 && s[0] == '-' {
            assert(p > 0);
            assert(int_part[0] == '-');
        }
    }
}

/// A format string without its comma-grouping flag, for numbers already
/// scaled down to a few digits.
pub fn without_commas(fmt: &str) -> (out: String)
    ensures
        out@ == remove_char(fmt@, ','),
{
    let cs = chars_of(fmt);
    let mut out: Vec<char> = Vec::new();
    let mut i: usize = 0;
    while i < cs.len()
        invariant
            i <= cs@.len(),
            out@ == remove_char(cs@.subrange(0, i as int), ','),
        decreases cs@.len() - i,
    {
        assert(cs@.subrange(0, i as int + 1).drop_last() =~= cs@.subrange(0, i as int));
        if cs[i] != ',' {
            out.push(cs[i]);
        }
        i = i + 1;
        assert(out@ =~= remove_char(cs@.subrange(0, i as int), ','));
    }
    assert(cs@.subrange(0, cs@.len() as int) =~= cs@);
    string_of(&out)
}

/// An abbreviated tick label: the scaled number without a zero fraction,
/// then the magnitude suffix (`K`, `M` or `B`).
pub fn si_tick_label(formatted: &str, suffix: &str) -> (out: String)
    ensures
        out@ == stripped_zero_decimals(formatted@) + suffix@,
{
    let cleaned = strip_trailing_zero_decimals(formatted);
    let mut cs = chars_of(cleaned.as_str());
    let sx = chars_of(suffix);
    extend_chars(&mut cs, &sx);
    string_of(&cs)
}

} // verus!
