use vstd::prelude::*;

use arrow::array::{Array, ArrayRef, StringArray, UInt32Array};
use arrow::compute::{concat_batches, take};
use arrow::error::ArrowError;
use arrow::ipc::reader::StreamReader;
use arrow::ipc::writer::StreamWriter;
use arrow::record_batch::RecordBatch;
use std::io::Cursor;

use crate::calendar::{civil_from_days, civil_of};
use crate::element::{prefixed, ChartError};
use crate::text::{
    dec, extend_chars, i128_abs, i128_dec, i128_dec_zero_padded, index_of_text, int_dec,
    int_dec_zero_padded, string_from, string_of, texts, u128_digits,
};

verus! {

/// `YYYY-MM-DD` for a (year, month, day) triple, as `{:04}-{:02}-{:02}` prints it.
pub open spec fn iso_date(t: (int, int, int)) -> Seq<char> {
    int_dec_zero_padded(t.0, 4) + seq!['-'] + int_dec_zero_padded(t.1, 2) + seq!['-']
        + int_dec_zero_padded(t.2, 2)
}

/// `HH:MM:SS` for a number of seconds into a day.
pub open spec fn iso_time(day_secs: int) -> Seq<char> {
    int_dec_zero_padded(day_secs / 3600, 2) + seq![':'] + int_dec_zero_padded(
        (day_secs % 3600) / 60,
        2,
    ) + seq![':'] + int_dec_zero_padded(day_secs % 60, 2)
}

/// ISO date-time text for epoch seconds and sub-second nanoseconds; the
/// milliseconds are shown only when the nanoseconds are not zero.
pub open spec fn iso_datetime(secs: int, nanos: int) -> Seq<char> {
    iso_date(civil_of(secs / 86400)) + seq!['T'] + iso_time(secs % 86400) + if nanos == 0 {
        Seq::empty()
    } else {
        seq!['.'] + int_dec_zero_padded(nanos / 1_000_000, 3)
    }
}

fn push_padded(out: &mut Vec<char>, x: i128, width: usize)
    ensures
        final(out)@ == old(out)@ + int_dec_zero_padded(x as int, width as nat),
{
    let p = i128_dec_zero_padded(x, width);
    extend_chars(out, &p);
}

fn iso_date_chars(days: i64) -> (out: Vec<char>)
    requires
        days <= i64::MAX - 719468,
    ensures
        out@ == iso_date(civil_of(days as int)),
{
    let (y, m, d) = civil_from_days(days);
    let mut out: Vec<char> = Vec::new();
    push_padded(&mut out, y as i128, 4);
    out.push('-');
    push_padded(&mut out, m as i128, 2);
    out.push('-');
    push_padded(&mut out, d as i128, 2);
    proof {
        let t = civil_of(days as int);
        assert(out@ =~= iso_date(t));
    }
    out
}

/// ISO date (`YYYY-MM-DD`) of a day count since 1970-01-01.
pub fn days_to_iso(days: i64) -> (out: String)
    requires
        days <= i64::MAX - 719468,
    ensures
        out@ == iso_date(civil_of(days as int)),
{
    let cs = iso_date_chars(days);
    string_of(&cs)
}

fn iso_time_chars(day_secs: i64) -> (out: Vec<char>)
    requires
        0 <= day_secs < 86400,
    ensures
        out@ == iso_time(day_secs as int),
{
    let hours = day_secs / 3600;
    let minutes = (day_secs % 3600) / 60;
    let seconds = day_secs % 60;
    let mut out: Vec<char> = Vec::new();
    push_padded(&mut out, hours as i128, 2);
    out.push(':');
    push_padded(&mut out, minutes as i128, 2);
    out.push(':');
    push_padded(&mut out, seconds as i128, 2);
    proof {
        assert(out@ =~= iso_time(day_secs as int));
    }
    out
}

fn floor_day(secs: i64) -> (r: (i64, i64))
    requires
        secs >= i64::MIN + 86399,
    ensures
        r.0 == secs / 86400,
        r.1 == secs % 86400,
        r.0 <= i64::MAX - 719468,
{
    let days = if secs >= 0 { secs / 86400 } else { (secs - 86399) / 86400 };
    let day_secs = secs - days * 86400;
    (days, day_secs)
}

/// ISO date-time (`YYYY-MM-DDTHH:MM:SS`, with `.mmm` when `nanos` is not
/// zero) of epoch seconds plus nanoseconds.
pub fn epoch_to_iso(secs: i64, nanos: u32) -> (out: String)
    requires
        secs >= i64::MIN + 86399,
    ensures
        out@ == iso_datetime(secs as int, nanos as int),
{
    let (days, day_secs) = floor_day(secs);
    let mut out = iso_date_chars(days);
    out.push('T');
    let t = iso_time_chars(day_secs);
    extend_chars(&mut out, &t);
    if nanos != 0 {
        let millis = nanos / 1_000_000;
        out.push('.');
        push_padded(&mut out, millis as i128, 3);
    }
    proof {
        assert(out@ =~= iso_datetime(secs as int, nanos as int));
    }
    string_of(&out)
}

/// Ten to the power `n`.
pub open spec fn pow10(n: nat) -> nat
    decreases n,
{
    if n == 0 { 1 } else { 10 * pow10((n - 1) as nat) }
}

proof fn lemma_pow10_monotone(a: nat, b: nat)
    requires
        a <= b,
    ensures
        pow10(a) <= pow10(b),
        pow10(a) >= 1,
    decreases b,
{
    if b > a {
        lemma_pow10_monotone(a, (b - 1) as nat);
    } else if a > 0 {
        lemma_pow10_monotone((a - 1) as nat, (a - 1) as nat);
    }
}

proof fn lemma_pow10_38()
    ensures
        pow10(38) == 100000000000000000000000000000000000000nat,
{
    reveal_with_fuel(pow10, 39);
}

fn pow10_u128(n: u32) -> (r: u128)
    requires
        n <= 38,
    ensures
        r as nat == pow10(n as nat),
{
    let mut r: u128 = 1;
    let mut i: u32 = 0;
    while i < n
        invariant
            i <= n <= 38,
            r as nat == pow10(i as nat),
        decreases n - i,
    {
        proof {
            lemma_pow10_monotone((i + 1) as nat, 38);
            lemma_pow10_38();
        }
        r = r * 10;
        i = i + 1;
    }
    r
}

/// A signed integer part, a point and a zero-padded fraction: the text of
/// a decimal whose magnitude has quotient `q` and remainder `r`.
pub open spec fn decimal_parts(negative: bool, q: int, r: int, scale: nat) -> Seq<char> {
    let whole = if negative { -q } else { q };
    let sign: Seq<char> = if negative && whole == 0 { seq!['-'] } else { Seq::empty() };
    sign + int_dec(whole) + seq!['.'] + int_dec_zero_padded(r, scale)
}

/// Text of a decimal with `raw` units of `10^-scale`: the integer part (with
/// a `-` also when it is zero and `raw` is negative), a point and exactly
/// `scale` fraction digits; `raw` itself when `scale` is not positive.
pub open spec fn decimal_text(raw: int, scale: int) -> Seq<char> {
    if scale <= 0 {
        int_dec(raw)
    } else {
        let p = pow10(scale as nat) as int;
        let a = if raw < 0 { -raw } else { raw };
        decimal_parts(raw < 0, a / p, a % p, scale as nat)
    }
}

fn decimal_parts_chars(raw: i128, q: u128, r: u128, scale: i8) -> (out: Vec<char>)
    requires
        q as int <= crate::text::abs_nat(raw as int),
        r <= i128::MAX,
        scale > 0,
    ensures
        out@ == decimal_parts(raw < 0, q as int, r as int, scale as nat),
{
    let whole = signed_quotient(raw, q);
    let mut out: Vec<char> = Vec::new();
    if raw < 0 && whole == 0 {
        out.push('-');
    }
    let w = i128_dec(whole);
    extend_chars(&mut out, &w);
    out.push('.');
    let f = i128_dec_zero_padded(r as i128, scale as usize);
    extend_chars(&mut out, &f);
    proof {
        assert(out@ =~= decimal_parts(raw < 0, q as int, r as int, scale as nat));
    }
    out
}

fn signed_quotient(raw: i128, q: u128) -> (whole: i128)
    requires
        q as int <= crate::text::abs_nat(raw as int),
    ensures
        whole as int == if raw < 0 { -(q as int) } else { q as int },
{
    if raw < 0 {
        if q == 0 { 0 } else { -((q - 1) as i128) - 1 }
    } else {
        q as i128
    }
}

/// Formats a 128-bit decimal value with the given scale.
pub fn format_decimal128(raw: i128, scale: i8) -> (out: String)
    requires
        scale <= 38,
    ensures
        out@ == decimal_text(raw as int, scale as int),
{
    if scale <= 0 {
        let cs = i128_dec(raw);
        return string_of(&cs);
    }
    let divisor = pow10_u128(scale as u32);
    proof {
        lemma_pow10_monotone(0, scale as nat);
        lemma_pow10_monotone(scale as nat, 38);
        lemma_pow10_38();
    }
    let a = i128_abs(raw);
    let q = a / divisor;
    let r = a % divisor;
    let out = decimal_parts_chars(raw, q, r, scale);
    assert(decimal_text(raw as int, scale as int)
        == decimal_parts(raw < 0, q as int, r as int, scale as nat));
    string_of(&out)
}

/// Column type inferred from JSON values.
#[derive(Debug, Clone, Copy, PartialEq, Eq)]
pub enum InferredType {
    Float64,
    Boolean,
    Utf8,
    Null,
}

/// Combines the type inferred so far for a column with the type of one more
/// value: nulls never change the type, equal types stay, and any mix of
/// two different non-null types becomes text.
pub fn merge_inferred(existing: InferredType, new: InferredType) -> (r: InferredType)
    ensures
        r == (if new == InferredType::Null {
            existing
        } else if existing == InferredType::Null {
            new
        } else if existing == new {
            existing
        } else {
            InferredType::Utf8
        }),
{
    match (existing, new) {
        (_, InferredType::Null) => existing,
        (InferredType::Null, _) => new,
        (InferredType::Float64, InferredType::Float64) => existing,
        (InferredType::Boolean, InferredType::Boolean) => existing,
        (InferredType::Utf8, InferredType::Utf8) => existing,
        _ => InferredType::Utf8,
    }
}


/// Unit of a timestamp cell.
#[derive(Debug, Clone, Copy, PartialEq, Eq)]
pub enum TimeUnit {
    Second,
    Millisecond,
    Microsecond,
    Nanosecond,
}

/// One non-null, non-float value of a column, as the table holds it.
#[derive(Debug, Clone)]
pub enum CellValue {
    /// Text (also large text).
    Utf8(String),
    /// Any signed integer column.
    Int(i64),
    /// Any unsigned integer column.
    UInt(u64),
    Boolean(bool),
    /// Days since 1970-01-01.
    Date32(i32),
    /// Milliseconds since 1970-01-01.
    Date64(i64),
    /// A count of `unit`s since the epoch; `has_tz` when the column names a time zone.
    Timestamp { raw: i64, unit: TimeUnit, has_tz: bool },
    /// `units` of `10^-scale`.
    Decimal128 { units: i128, scale: i8 },
}

/// Integer division rounding toward zero, as Rust's `/` on signed values.
pub open spec fn trunc_div(a: int, b: int) -> int {
    if a < 0 { -((-a) / b) } else { a / b }
}

/// Units per second of a time unit.
pub open spec fn units_per_second(unit: TimeUnit) -> int {
    match unit {
        TimeUnit::Second => 1,
        TimeUnit::Millisecond => 1000,
        TimeUnit::Microsecond => 1_000_000,
        TimeUnit::Nanosecond => 1_000_000_000,
    }
}

/// Whether a cell can be shown without overflowing the date arithmetic or
/// the decimal scale.
pub open spec fn cell_in_range(cell: CellValue) -> bool {
    match cell {
        CellValue::Timestamp { raw, unit, .. } => unit == TimeUnit::Second ==> raw >= i64::MIN + 86399,
        CellValue::Decimal128 { scale, .. } => scale <= 38,
        _ => true,
    }
}

/// The text shown for a cell: integers in decimal, booleans as
/// `true`/`false`, dates as `YYYY-MM-DD`, timestamps as ISO date-times (with
/// `Z` when the column has a time zone) and decimals with their scale.
pub open spec fn cell_text(cell: CellValue) -> Seq<char> {
    match cell {
        CellValue::Utf8(s) => s@,
        CellValue::Int(v) => int_dec(v as int),
        CellValue::UInt(v) => int_dec(v as int),
        CellValue::Boolean(b) => if b { seq!['t', 'r', 'u', 'e'] } else { seq!['f', 'a', 'l', 's', 'e'] },
        CellValue::Date32(d) => iso_date(civil_of(d as int)),
        CellValue::Date64(ms) => iso_date(civil_of(trunc_div(ms as int, 86_400_000))),
        CellValue::Timestamp { raw, unit, has_tz } => {
            let per = units_per_second(unit);
            let secs = raw as int / per;
            let nanos = (raw as int % per) * (1_000_000_000int / per);
            iso_datetime(secs, nanos) + if has_tz { seq!['Z'] } else { Seq::empty() }
        },
        CellValue::Decimal128 { units, scale } => decimal_text(units as int, scale as int),
    }
}

fn i64_trunc_div(a: i64, b: i64) -> (r: i64)
    requires
        b > 1,
    ensures
        r == trunc_div(a as int, b as int),
        -4611686018427387904 <= r <= 4611686018427387903,
{
    if a < 0 {
        let na: u64 = if a == i64::MIN { 9223372036854775808u64 } else { (-a) as u64 };
        let q = na / (b as u64);
        assert(q <= na / 2) by (nonlinear_arith)
            requires q == na / (b as u64), b > 1;
        -(q as i64)
    } else {
        let q = a / b;
        assert(q <= a / 2) by (nonlinear_arith)
            requires q == a / b, b > 1, a >= 0;
        q
    }
}

fn i64_floor_divmod(a: i64, b: i64) -> (r: (i64, i64))
    requires
        b > 1,
    ensures
        r.0 == a as int / b as int,
        r.1 == a as int % b as int,
{
    let t = i64_trunc_div(a, b);
    proof {
        let ai = a as int;
        let bi = b as int;
        let ti = t as int;
        if ai < 0 {
            assert(ti == -((-ai) / bi));
            assert((-ai) / bi * bi <= -ai) by (nonlinear_arith) requires bi > 1, -ai > 0;
            assert((-ai) / bi * bi >= 0) by (nonlinear_arith) requires bi > 1, -ai > 0;
            assert(ti * bi == -((-ai) / bi * bi)) by (nonlinear_arith) requires ti == -((-ai) / bi);
        } else {
            assert(ai / bi * bi <= ai) by (nonlinear_arith) requires bi > 1, ai >= 0;
            assert(ai / bi * bi >= 0) by (nonlinear_arith) requires bi > 1, ai >= 0;
        }
    }
    let rem = a - t * b;
    let (q, r) = if rem < 0 { (t - 1, rem + b) } else { (t, rem) };
    proof {
        let ai = a as int;
        let bi = b as int;
        vstd::arithmetic::div_mod::lemma_fundamental_div_mod(ai, bi);
        vstd::arithmetic::div_mod::lemma_fundamental_div_mod(-ai, bi);
        if ai < 0 {
            assert(rem as int == -((-ai) % bi)) by (nonlinear_arith)
                requires rem as int == ai - (t as int) * bi, t as int == -((-ai) / bi), bi > 1,
                    (-ai) == bi * ((-ai) / bi) + (-ai) % bi;
        } else {
            assert(rem as int == ai % bi) by (nonlinear_arith)
                requires rem as int == ai - (t as int) * bi, t as int == ai / bi, bi > 1,
                    ai == bi * (ai / bi) + ai % bi;
        }
        assert(0 <= r < b);
        assert(a as int == q as int * b as int + r as int) by (nonlinear_arith)
            requires rem == a - t * b, (rem < 0 ==> q == t - 1 && r == rem + b),
                (rem >= 0 ==> q == t && r == rem);
        vstd::arithmetic::div_mod::lemma_fundamental_div_mod_converse(a as int, b as int, q as int, r as int);
    }
    (q, r)
}

fn split_units(raw: i64, unit: TimeUnit) -> (r: (i64, u32))
    ensures
        r.0 as int == raw as int / units_per_second(unit),
        r.1 as int == (raw as int % units_per_second(unit)) * (1_000_000_000int / units_per_second(unit)),
        unit == TimeUnit::Second ==> r.0 == raw,
{
    let per: i64 = match unit {
        TimeUnit::Second => 1,
        TimeUnit::Millisecond => 1000,
        TimeUnit::Microsecond => 1_000_000,
        TimeUnit::Nanosecond => 1_000_000_000,
    };
    let scale: i64 = 1_000_000_000 / per;
    assert(per as int == units_per_second(unit));
    if per == 1 {
        assert(raw as int / 1 == raw as int && raw as int % 1 == 0);
        assert((raw as int % 1) * scale == 0);
        return (raw, 0u32);
    }
    let (s, r) = i64_floor_divmod(raw, per);
    assert(0 <= r < per);
    assert(r * scale < 1_000_000_000) by (nonlinear_arith)
        requires 0 <= r < per, scale == 1_000_000_000i64 / per, per == 1000 || per == 1_000_000 || per == 1_000_000_000;
    (s, (r * scale) as u32)
}

fn timestamp_to_string(raw: i64, unit: TimeUnit, has_tz: bool) -> (out: String)
    requires
        unit == TimeUnit::Second ==> raw >= i64::MIN + 86399,
    ensures
        out@ == cell_text(CellValue::Timestamp { raw, unit, has_tz }),
{
    let (secs, nanos) = split_units(raw, unit);
    let iso = epoch_to_iso(secs, nanos);
    if has_tz {
        let mut cs = crate::text::chars_of(iso.as_str());
        cs.push('Z');
        string_of(&cs)
    } else {
        iso
    }
}

fn bool_to_string(b: bool) -> (out: String)
    ensures
        out@ == cell_text(CellValue::Boolean(b)),
{
    let mut cs: Vec<char> = Vec::new();
    if b {
        cs.push('t'); cs.push('r'); cs.push('u'); cs.push('e');
        assert(cs@ =~= seq!['t', 'r', 'u', 'e']);
    } else {
        cs.push('f'); cs.push('a'); cs.push('l'); cs.push('s'); cs.push('e');
        assert(cs@ =~= seq!['f', 'a', 'l', 's', 'e']);
    }
    string_of(&cs)
}

/// The text shown for a cell (see `cell_text`).
pub fn cell_to_string(cell: &CellValue) -> (out: String)
    requires
        cell_in_range(*cell),
    ensures
        out@ == cell_text(*cell),
{
    match cell {
        CellValue::Utf8(s) => crate::text::string_from(s.as_str()),
        CellValue::Int(v) => {
            let cs = i128_dec(*v as i128);
            string_of(&cs)
        },
        CellValue::UInt(v) => {
            let cs = i128_dec(*v as i128);
            string_of(&cs)
        },
        CellValue::Boolean(b) => bool_to_string(*b),
        CellValue::Date32(d) => days_to_iso(*d as i64),
        CellValue::Date64(ms) => {
            let days = i64_trunc_div(*ms, 86_400_000);
            days_to_iso(days)
        },
        CellValue::Timestamp { raw, unit, has_tz } => timestamp_to_string(*raw, *unit, *has_tz),
        CellValue::Decimal128 { units, scale } => format_decimal128(*units, *scale),
    }
}

/// The text of each cell of a column; `None` for a null.
pub open spec fn cell_texts(cells: Seq<Option<String>>) -> Seq<Option<Seq<char>>> {
    Seq::new(cells.len(), |i: int| match cells[i] {
        Some(s) => Some(s@),
        None => None,
    })
}

/// The non-null values of a column, in row order.
pub open spec fn present_values(cells: Seq<Option<Seq<char>>>) -> Seq<Seq<char>>
    decreases cells.len(),
{
    if cells.len() == 0 {
        Seq::empty()
    } else {
        let before = present_values(cells.drop_last());
        match cells.last() {
            Some(v) => before.push(v),
            None => before,
        }
    }
}

/// The distinct non-null values of a column, in order of first appearance.
pub open spec fn distinct_values(cells: Seq<Option<Seq<char>>>) -> Seq<Seq<char>>
    decreases cells.len(),
{
    if cells.len() == 0 {
        Seq::empty()
    } else {
        let before = distinct_values(cells.drop_last());
        match cells.last() {
            Some(v) => if before.contains(v) { before } else { before.push(v) },
            None => before,
        }
    }
}

/// Get all string values of a column, preserving row order (including
/// duplicates) and skipping nulls.
pub fn all_values(cells: &Vec<Option<String>>) -> (r: Vec<String>)
    ensures
        texts(r@) == present_values(cell_texts(cells@)),
{
    let mut out: Vec<String> = Vec::new();
    let mut i: usize = 0;
    while i < cells.len()
        invariant
            i <= cells@.len(),
            texts(out@) == present_values(cell_texts(cells@).subrange(0, i as int)),
        decreases cells@.len() - i,
    {
        assert(cell_texts(cells@).subrange(0, i as int + 1).drop_last() =~= cell_texts(cells@).subrange(0, i as int));
        match &cells[i] {
            Some(v) => {
                out.push(string_from(v.as_str()));
            },
            None => {},
        }
        i = i + 1;
        assert(texts(out@) =~= present_values(cell_texts(cells@).subrange(0, i as int)));
    }
    assert(cell_texts(cells@).subrange(0, cells@.len() as int) =~= cell_texts(cells@));
    out
}

/// Get the unique values of a column, preserving first-appearance order and
/// skipping nulls.
pub fn unique_values(cells: &Vec<Option<String>>) -> (r: Vec<String>)
    ensures
        texts(r@) == distinct_values(cell_texts(cells@)),
{
    let mut out: Vec<String> = Vec::new();
    let mut i: usize = 0;
    while i < cells.len()
        invariant
            i <= cells@.len(),
            texts(out@) == distinct_values(cell_texts(cells@).subrange(0, i as int)),
        decreases cells@.len() - i,
    {
        assert(cell_texts(cells@).subrange(0, i as int + 1).drop_last() =~= cell_texts(cells@).subrange(0, i as int));
        let ghost next = cell_texts(cells@).subrange(0, i as int + 1);
        assert(next.last() == cell_texts(cells@)[i as int]);
        match &cells[i] {
            Some(v) => {
                assert(next.last() == Some(v@));
                match index_of_text(&out, v.as_str()) {
                    Some(k) => {
                        assert(texts(out@)[k as int] == v@);
                        assert(texts(out@).contains(v@));
                    },
                    None => {
                        let c = string_from(v.as_str());
                        let ghost before = out@;
                        out.push(c);
                        assert(texts(out@) =~= texts(before).push(v@));
                    },
                }
            },
            None => {},
        }
        i = i + 1;
        assert(texts(out@) =~= distinct_values(cell_texts(cells@).subrange(0, i as int)));
    }
    assert(cell_texts(cells@).subrange(0, cells@.len() as int) =~= cell_texts(cells@));
    out
}

proof fn lemma_push_contains(s: Seq<Seq<char>>, x: Seq<char>, v: Seq<char>)
    ensures
        s.push(x).contains(v) <==> (s.contains(v) || v == x),
{
    if s.push(x).contains(v) && v != x {
        let k = choose|k: int| 0 <= k < s.push(x).len() && s.push(x)[k] == v;
        assert(s[k] == v);
    }
    if s.contains(v) {
        let k = choose|k: int| 0 <= k < s.len() && s[k] == v;
        assert(s.push(x)[k] == v);
    }
    assert(s.push(x)[s.len() as int] == x);
}

/// The distinct values of a column hold no value twice, and hold exactly
/// the values that some non-null cell holds.
pub proof fn lemma_distinct_values(cells: Seq<Option<Seq<char>>>)
    ensures
        distinct_values(cells).no_duplicates(),
        forall|v: Seq<char>| #[trigger] distinct_values(cells).contains(v)
            <==> present_values(cells).contains(v),
    decreases cells.len(),
{
    if cells.len() > 0 {
        lemma_distinct_values(cells.drop_last());
        let before = distinct_values(cells.drop_last());
        let pv = present_values(cells.drop_last());
        match cells.last() {
            Some(x) => {
                assert forall|v: Seq<char>| #[trigger] distinct_values(cells).contains(v)
                    <==> present_values(cells).contains(v) by {
                    lemma_push_contains(pv, x, v);
                    lemma_push_contains(before, x, v);
                    assert(before.contains(v) <==> pv.contains(v));
                }
                if !before.contains(x) {
                    assert forall|a: int, b: int| 0 <= a < b < before.push(x).len()
                        implies before.push(x)[a] != before.push(x)[b] by {
                        if b == before.len() {
                            assert(before.push(x)[a] == before[a]);
                            assert(before.contains(before[a]));
                        }
                    }
                }
            },
            None => {},
        }
    }
}


/// An Arrow table decoded from an IPC stream: all of the stream's record
/// batches put together under the stream's schema.
#[verifier::external_body]
pub struct ArrowTable {
    pub batch: RecordBatch,
}

/// The step of reading an Arrow IPC stream at which a failure came.
#[derive(Clone, Copy, Debug, PartialEq, Eq, Structural)]
pub enum IpcStage {
    /// Reading the stream's schema message.
    Stream,
    /// Reading one of the stream's record batches.
    Batch,
    /// Putting the record batches together.
    Concat,
}

/// Why an Arrow IPC stream could not be read, with arrow's own message.
#[derive(Clone, Debug)]
pub enum IpcFailure {
    Stream(String),
    Batch(String),
    Concat(String),
}

impl IpcFailure {
    /// The failure as its stage and arrow's message.
    pub open spec fn stage_and_text(self) -> (IpcStage, Seq<char>) {
        match self {
            IpcFailure::Stream(t) => (IpcStage::Stream, t@),
            IpcFailure::Batch(t) => (IpcStage::Batch, t@),
            IpcFailure::Concat(t) => (IpcStage::Concat, t@),
        }
    }
}

/// What reading the Arrow IPC stream in `bytes` gives: `None` when every
/// step succeeds, else the stage that failed and arrow's message for it.
pub uninterp spec fn ipc_stream_outcome(bytes: Seq<u8>) -> Option<(IpcStage, Seq<char>)>;

/// The table that reading the Arrow IPC stream in `bytes` gives when it succeeds.
pub uninterp spec fn ipc_stream_table(bytes: Seq<u8>) -> ArrowTable;

/// What a table holds as far as its shape goes: its column names in order
/// and its number of rows.
pub uninterp spec fn table_shape(table: ArrowTable) -> (Seq<Seq<char>>, nat);

/// The cells of each text (`Utf8`) column of a table, in schema order:
/// each row's text, `None` for a null; `None` for a column of another type.
pub uninterp spec fn table_text_cells(table: ArrowTable) -> Seq<Option<Seq<Option<Seq<char>>>>>;

/// Whether arrow's stream writer fails on this table.
pub uninterp spec fn ipc_write_fails(table: ArrowTable) -> bool;

/// The Arrow IPC stream bytes that arrow's stream writer gives for this table.
pub uninterp spec fn ipc_stream_bytes(table: ArrowTable) -> Seq<u8>;

impl ArrowTable {
    /// The number of rows, with `RecordBatch::num_rows`.
    #[verifier::external_body]
    pub fn num_rows(&self) -> (r: usize)
        ensures
            r == table_shape(*self).1,
    {
        self.batch.num_rows()
    }

    /// The column names in schema order, read from the batch's schema.
    #[verifier::external_body]
    pub fn field_names(&self) -> (r: Vec<String>)
        ensures
            r@.len() == table_shape(*self).0.len(),
            forall|i: int| 0 <= i < r@.len() ==> #[trigger] r@[i]@ == table_shape(*self).0[i],
    {
        self.batch.schema().fields().iter().map(|f| f.name().clone()).collect()
    }

    /// The cells of column `index` when it is a text (`Utf8`) column,
    /// read with a downcast to `StringArray`; `None` for another type.
    #[verifier::external_body]
    pub fn text_column(&self, index: usize) -> (r: Option<Vec<Option<String>>>)
        requires
            index < table_shape(*self).0.len(),
        ensures
            r is None <==> table_text_cells(*self)[index as int] is None,
            r matches Some(cells) ==> table_text_cells(*self)[index as int] == Some(cell_texts(cells@)),
    {
        let col = self.batch.column(index);
        col.as_any()
            .downcast_ref::<StringArray>()
            .map(|a| a.iter().map(|v| v.map(|t| t.to_string())).collect())
    }
}

/// Opens an Arrow IPC stream over `bytes` with
/// `arrow::ipc::reader::StreamReader::try_new`, reads its record batches in
/// order and joins them with `arrow::compute::concat_batches` under the
/// stream's schema (no batches give an empty table of that schema). The
/// contract claims only that success, and the stage and message of a
/// failure, are a function of the bytes.
#[verifier::external_body]
fn read_ipc_stream(bytes: &[u8]) -> (r: Result<ArrowTable, IpcFailure>)
    ensures
        r is Ok <==> ipc_stream_outcome(bytes@) is None,
        r matches Err(f) ==> ipc_stream_outcome(bytes@) == Some(f.stage_and_text()),
        r matches Ok(t) ==> t == ipc_stream_table(bytes@),
{
    let reader = match StreamReader::try_new(Cursor::new(bytes), None) {
        Ok(reader) => reader,
        Err(e) => return Err(IpcFailure::Stream(e.to_string())),
    };
    let schema = reader.schema();
    let batches = match reader.collect::<Result<Vec<RecordBatch>, ArrowError>>() {
        Ok(batches) => batches,
        Err(e) => return Err(IpcFailure::Batch(e.to_string())),
    };
    match concat_batches(&schema, &batches) {
        Ok(batch) => Ok(ArrowTable { batch }),
        Err(e) => Err(IpcFailure::Concat(e.to_string())),
    }
}

/// The message of the data error that a failure at `stage` becomes.
pub open spec fn ipc_failure_message(stage: IpcStage, detail: Seq<char>) -> Seq<char> {
    match stage {
        IpcStage::Stream => "Failed to read Arrow IPC: "@ + detail,
        IpcStage::Batch => "Failed to read Arrow batch: "@ + detail,
        IpcStage::Concat => "Failed to concat batches: "@ + detail,
    }
}

/// The data error for a failure to read an Arrow IPC stream.
pub fn ipc_error(failure: &IpcFailure) -> (e: ChartError)
    ensures
        e matches ChartError::DataError(m) && m@ == ipc_failure_message(
            failure.stage_and_text().0,
            failure.stage_and_text().1,
        ),
{
    let m = match failure {
        IpcFailure::Stream(t) => prefixed("Failed to read Arrow IPC: ", t),
        IpcFailure::Batch(t) => prefixed("Failed to read Arrow batch: ", t),
        IpcFailure::Concat(t) => prefixed("Failed to concat batches: ", t),
    };
    ChartError::DataError(m)
}

/// Decodes a table from Arrow IPC stream bytes: it succeeds exactly when
/// arrow reads the stream, and otherwise reports arrow's message behind the
/// step that failed.
pub fn from_ipc_bytes(bytes: &[u8]) -> (r: Result<ArrowTable, ChartError>)
    ensures
        r is Ok <==> ipc_stream_outcome(bytes@) is None,
        r matches Ok(t) ==> t == ipc_stream_table(bytes@),
        r matches Err(e) ==> (ipc_stream_outcome(bytes@) matches Some(f) && e matches ChartError::DataError(m)
            && m@ == ipc_failure_message(f.0, f.1)),
{
    match read_ipc_stream(bytes) {
        Ok(table) => Ok(table),
        Err(failure) => Err(ipc_error(&failure)),
    }
}

/// Why a table could not be written as an Arrow IPC stream, with arrow's
/// own message.
#[derive(Clone, Debug)]
pub enum IpcWriteFailure {
    /// Creating the stream writer (writing the schema message).
    Writer(String),
    /// Writing the record batch.
    Write(String),
    /// Writing the end-of-stream marker.
    Finish(String),
}

/// Writes the table's record batch as an Arrow IPC stream into a byte
/// vector with `arrow::ipc::writer::StreamWriter` (`try_new`, `write`,
/// `finish`). The contract claims that whether it fails and the bytes it
/// writes are a function of the table, and that the stream it writes reads
/// back without error into a table of the same column names, row count and
/// text columns.
/// It does not say which step fails or with what message.
#[verifier::external_body]
fn write_ipc_stream(table: &ArrowTable) -> (r: Result<Vec<u8>, IpcWriteFailure>)
    ensures
        r is Err <==> ipc_write_fails(*table),
        r matches Ok(b) ==> b@ == ipc_stream_bytes(*table),
        r matches Ok(b) ==> ipc_stream_outcome(b@) is None && table_shape(ipc_stream_table(b@))
            == table_shape(*table) && table_text_cells(ipc_stream_table(b@)) == table_text_cells(*table),
{
    let mut buf: Vec<u8> = Vec::new();
    {
        let mut writer = match StreamWriter::try_new(&mut buf, &table.batch.schema()) {
            Ok(writer) => writer,
            Err(e) => return Err(IpcWriteFailure::Writer(e.to_string())),
        };
        if let Err(e) = writer.write(&table.batch) {
            return Err(IpcWriteFailure::Write(e.to_string()));
        }
        if let Err(e) = writer.finish() {
            return Err(IpcWriteFailure::Finish(e.to_string()));
        }
    }
    Ok(buf)
}

/// The message of the data error that a failure to write a stream becomes.
pub open spec fn ipc_write_failure_message(failure: IpcWriteFailure) -> Seq<char> {
    match failure {
        IpcWriteFailure::Writer(t) => "Failed to create IPC writer: "@ + t@,
        IpcWriteFailure::Write(t) => "Failed to write Arrow batch: "@ + t@,
        IpcWriteFailure::Finish(t) => "Failed to finish IPC stream: "@ + t@,
    }
}

/// The data error for a failure to write an Arrow IPC stream.
pub fn ipc_write_error(failure: &IpcWriteFailure) -> (e: ChartError)
    ensures
        e matches ChartError::DataError(m) && m@ == ipc_write_failure_message(*failure),
{
    let m = match failure {
        IpcWriteFailure::Writer(t) => prefixed("Failed to create IPC writer: ", t),
        IpcWriteFailure::Write(t) => prefixed("Failed to write Arrow batch: ", t),
        IpcWriteFailure::Finish(t) => prefixed("Failed to finish IPC stream: ", t),
    };
    ChartError::DataError(m)
}

/// Serializes a table as Arrow IPC stream bytes; a failure of arrow's
/// writer becomes a data error that names the step. The bytes read back
/// (with `from_ipc_bytes`) into a table of the same column names, row
/// count and text columns.
pub fn to_ipc_bytes(table: &ArrowTable) -> (r: Result<Vec<u8>, ChartError>)
    ensures
        r is Err <==> ipc_write_fails(*table),
        r matches Ok(b) ==> b@ == ipc_stream_bytes(*table),
        r matches Ok(b) ==> ipc_stream_outcome(b@) is None && table_shape(ipc_stream_table(b@))
            == table_shape(*table) && table_text_cells(ipc_stream_table(b@)) == table_text_cells(*table),
        r matches Err(e) ==> (e matches ChartError::DataError(m) && exists|f: IpcWriteFailure|
            m@ == #[trigger] ipc_write_failure_message(f)),
{
    match write_ipc_stream(table) {
        Ok(bytes) => Ok(bytes),
        Err(failure) => Err(ipc_write_error(&failure)),
    }
}

/// The rows, among the first `n`, whose cell holds `key`, in row order.
pub open spec fn rows_with(cells: Seq<Option<Seq<char>>>, key: Seq<char>, n: int) -> Seq<u32>
    decreases n,
{
    if n <= 0 {
        Seq::empty()
    } else {
        let before = rows_with(cells, key, n - 1);
        if cells[n - 1] == Some(key) {
            before.push((n - 1) as u32)
        } else {
            before
        }
    }
}

/// What taking the given rows of a table gives: the table of those rows,
/// or `None` where arrow reports an error.
pub uninterp spec fn taken_rows(table: ArrowTable, rows: Seq<u32>) -> Option<ArrowTable>;

/// Takes the given rows of every column with `arrow::compute::take` and
/// puts them together under the table's schema with `RecordBatch::try_new`.
/// The contract claims that the outcome is a function of the table and the
/// rows, and that a table it gives has the same columns and one row per
/// index.
#[verifier::external_body]
fn take_rows(table: &ArrowTable, rows: &Vec<u32>) -> (r: Option<ArrowTable>)
    requires
        forall|i: int| 0 <= i < rows@.len() ==> (#[trigger] rows@[i] as int) < table_shape(*table).1,
    ensures
        r == taken_rows(*table, rows@),
        r matches Some(t) ==> table_shape(t) == (table_shape(*table).0, rows@.len()),
{
    let indices = UInt32Array::from(rows.clone());
    let columns: Result<Vec<ArrayRef>, ArrowError> =
        table.batch.columns().iter().map(|c| take(c.as_ref(), &indices, None)).collect();
    match columns {
        Ok(columns) => match RecordBatch::try_new(table.batch.schema(), columns) {
            Ok(batch) => Some(ArrowTable { batch }),
            Err(_) => None,
        },
        Err(_) => None,
    }
}

/// The groups of a table by a column's cell texts: for each distinct text
/// among the first `k` in first-seen order, the table of the rows holding
/// it, where arrow can take those rows.
pub open spec fn groups_of(table: ArrowTable, cells: Seq<Option<Seq<char>>>, k: int) -> Seq<(Seq<char>, ArrowTable)>
    decreases k,
{
    if k <= 0 {
        Seq::empty()
    } else {
        let keys = distinct_values(cells);
        let before = groups_of(table, cells, k - 1);
        match taken_rows(table, rows_with(cells, keys[k - 1], cells.len() as int)) {
            Some(t) => before.push((keys[k - 1], t)),
            None => before,
        }
    }
}

fn rows_of_key(cells: &Vec<Option<String>>, key: &str) -> (r: Vec<u32>)
    requires
        cells@.len() <= u32::MAX,
    ensures
        r@ == rows_with(cell_texts(cells@), key@, cells@.len() as int),
        forall|j: int| 0 <= j < r@.len() ==> (#[trigger] r@[j] as int) < cells@.len(),
{
    let mut out: Vec<u32> = Vec::new();
    let mut i: usize = 0;
    while i < cells.len()
        invariant
            i <= cells@.len() <= u32::MAX,
            out@ == rows_with(cell_texts(cells@), key@, i as int),
            forall|j: int| 0 <= j < out@.len() ==> (#[trigger] out@[j] as int) < i,
        decreases cells@.len() - i,
    {
        let hit = match &cells[i] {
            Some(v) => crate::text::str_eq(v.as_str(), key),
            None => false,
        };
        assert(hit == (cell_texts(cells@)[i as int] == Some(key@)));
        if hit {
            out.push(i as u32);
        }
        i = i + 1;
    }
    out
}

/// Groups a table's rows by a column's cell texts (`None` for a null or
/// unreadable cell, which joins no group): one table per distinct text, in
/// order of first appearance, holding that text's rows in order.
pub fn group_by(table: &ArrowTable, cells: &Vec<Option<String>>) -> (r: Vec<(String, ArrowTable)>)
    requires
        cells@.len() == table_shape(*table).1,
        cells@.len() <= u32::MAX,
    ensures
        r@.len() == groups_of(*table, cell_texts(cells@), distinct_values(cell_texts(cells@)).len() as int).len(),
        forall|i: int| 0 <= i < r@.len() ==> {
            let g = groups_of(*table, cell_texts(cells@), distinct_values(cell_texts(cells@)).len() as int)[i];
            &&& (#[trigger] r@[i]).0@ == g.0
            &&& r@[i].1 == g.1
        },
{
    let keys = unique_values(cells);
    let ghost ct = cell_texts(cells@);
    let mut out: Vec<(String, ArrowTable)> = Vec::new();
    let mut k: usize = 0;
    while k < keys.len()
        invariant
            k <= keys@.len(),
            texts(keys@) == distinct_values(ct),
            ct == cell_texts(cells@),
            cells@.len() == table_shape(*table).1,
            cells@.len() <= u32::MAX,
            out@.len() == groups_of(*table, ct, k as int).len(),
            forall|i: int| 0 <= i < out@.len() ==> {
                let g = groups_of(*table, ct, k as int)[i];
                &&& (#[trigger] out@[i]).0@ == g.0
                &&& out@[i].1 == g.1
            },
        decreases keys@.len() - k,
    {
        let rows = rows_of_key(cells, keys[k].as_str());
        assert(texts(keys@)[k as int] == keys@[k as int]@);
        let taken = take_rows(table, &rows);
        let ghost before = groups_of(*table, ct, k as int);
        match taken {
            Some(t) => {
                out.push((string_from(keys[k].as_str()), t));
            },
            None => {},
        }
        k = k + 1;
        assert(groups_of(*table, ct, k as int) == match taken_rows(*table, rows@) {
            Some(t) => before.push((distinct_values(ct)[k - 1], t)),
            None => before,
        });
    }
    out
}

} // verus!
