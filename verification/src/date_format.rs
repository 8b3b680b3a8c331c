use vstd::prelude::*;

use chrono::{Datelike, Timelike};
use std::fmt::Write;

use crate::text::{chars_of, string_from, string_of, trim, trim_ws};

verus! {

/// What `chrono::NaiveDate::parse_from_str(s, fmt)` gives back, as
/// (year, month, day), or `None` when it fails.
pub uninterp spec fn chrono_parse_date(s: Seq<char>, fmt: Seq<char>) -> Option<(i32, u32, u32)>;

/// What `chrono::NaiveDateTime::parse_from_str(s, fmt)` gives back, as
/// (year, month, day, hour, minute, second, nanosecond), or `None` when it fails.
pub uninterp spec fn chrono_parse_datetime(s: Seq<char>, fmt: Seq<char>) -> Option<(i32, u32, u32, u32, u32, u32, u32)>;

/// The text chrono writes for the date-time with the given fields under the
/// strftime format `fmt`, or `None` when chrono reports an error for it
/// (an invalid format item, or fields that name no date-time).
pub uninterp spec fn chrono_strftime(
    year: i32,
    month: u32,
    day: u32,
    hour: u32,
    minute: u32,
    second: u32,
    nanosecond: u32,
    fmt: Seq<char>,
) -> Option<Seq<char>>;

/// Calls `chrono::NaiveDate::parse_from_str`; the contract claims only that
/// the fields of a parsed date are a function of the input and the format.
#[verifier::external_body]
fn parse_naive_date(s: &str, fmt: &str) -> (r: Option<(i32, u32, u32)>)
    ensures
        r == chrono_parse_date(s@, fmt@),
{
    match chrono::NaiveDate::parse_from_str(s, fmt) {
        Ok(d) => Some((d.year(), d.month(), d.day())),
        Err(_) => None,
    }
}

/// Calls `chrono::NaiveDateTime::parse_from_str`; the contract claims only
/// that the fields of a parsed date-time are a function of the input and the format.
#[verifier::external_body]
fn parse_naive_datetime(s: &str, fmt: &str) -> (r: Option<(i32, u32, u32, u32, u32, u32, u32)>)
    ensures
        r == chrono_parse_datetime(s@, fmt@),
{
    match chrono::NaiveDateTime::parse_from_str(s, fmt) {
        Ok(dt) => Some((dt.year(), dt.month(), dt.day(), dt.hour(), dt.minute(), dt.second(), dt.nanosecond())),
        Err(_) => None,
    }
}

/// Builds a `chrono::NaiveDateTime` from its fields and writes it with
/// `NaiveDateTime::format(fmt)`; the contract claims only that the text (or
/// the failure) is a function of the fields and the format.
#[verifier::external_body]
fn strftime(dt: &DateTimeFields, fmt: &str) -> (r: Option<String>)
    ensures
        r matches Some(s) ==> chrono_strftime(dt.year, dt.month, dt.day, dt.hour, dt.minute, dt.second, dt.nanosecond, fmt@) == Some(s@),
        r is None ==> chrono_strftime(dt.year, dt.month, dt.day, dt.hour, dt.minute, dt.second, dt.nanosecond, fmt@) is None,
{
    let d = match chrono::NaiveDate::from_ymd_opt(dt.year, dt.month, dt.day) {
        Some(d) => d,
        None => return None,
    };
    let t = match d.and_hms_nano_opt(dt.hour, dt.minute, dt.second, dt.nanosecond) {
        Some(t) => t,
        None => return None,
    };
    let mut out = String::new();
    match write!(out, "{}", t.format(fmt)) {
        Ok(()) => Some(out),
        Err(_) => None,
    }
}

/// A calendar date and wall-clock time without a time zone.
#[derive(Debug, Clone, Copy, PartialEq, Eq, Structural)]
pub struct DateTimeFields {
    pub year: i32,
    pub month: u32,
    pub day: u32,
    pub hour: u32,
    pub minute: u32,
    pub second: u32,
    pub nanosecond: u32,
}


/// Marker format returned by `detect_date_format` when all dates fall on
/// quarter boundaries (1st of Jan/Apr/Jul/Oct); `reformat_date_label`
/// turns it into labels like `Q1 '23`.
pub const QUARTER_FORMAT: &'static str = "__QUARTER__";

/// The label at `i`, trimmed.
pub open spec fn trimmed_label(labels: Seq<String>, i: int) -> Seq<char> {
    trim_ws(labels[i]@)
}

/// What the ISO parses of a label give: the date it names as a plain date
/// (`%Y-%m-%d`), and the date of the date-time it names without and with
/// fractional seconds (`%Y-%m-%dT%H:%M:%S`, `%Y-%m-%dT%H:%M:%S%.f`).
#[derive(Debug, Clone, Copy)]
pub struct LabelDates {
    pub date: Option<(i32, u32, u32)>,
    pub datetime: Option<(i32, u32, u32)>,
    pub datetime_fraction: Option<(i32, u32, u32)>,
}

/// The calendar date of a parsed date-time.
pub open spec fn date_part(x: Option<(i32, u32, u32, u32, u32, u32, u32)>) -> Option<(i32, u32, u32)> {
    match x {
        Some(x) => Some((x.0, x.1, x.2)),
        None => None,
    }
}

/// What chrono's ISO parses give for the text `t`.
pub open spec fn label_dates(t: Seq<char>) -> LabelDates {
    LabelDates {
        date: chrono_parse_date(t, "%Y-%m-%d"@),
        datetime: date_part(chrono_parse_datetime(t, "%Y-%m-%dT%H:%M:%S"@)),
        datetime_fraction: date_part(chrono_parse_datetime(t, "%Y-%m-%dT%H:%M:%S%.f"@)),
    }
}

/// The parses of each label, trimmed.
pub open spec fn labels_dates(labels: Seq<String>) -> Seq<LabelDates> {
    Seq::new(labels.len(), |i: int| label_dates(trimmed_label(labels, i)))
}

/// Whether a label is an ISO date.
pub open spec fn is_date(d: LabelDates) -> bool {
    d.date is Some
}

/// Whether a label is an ISO date-time, with or without fractional seconds.
pub open spec fn is_datetime(d: LabelDates) -> bool {
    d.datetime is Some || d.datetime_fraction is Some
}

/// Among the first `n` labels: how many are dates or date-times, and
/// whether any of those is a date-time (and not a plain date).
pub open spec fn date_sample(dates: Seq<LabelDates>, n: int) -> (int, bool)
    decreases n,
{
    if n <= 0 {
        (0, false)
    } else {
        let (count, has_time) = date_sample(dates, n - 1);
        let d = dates[n - 1];
        if is_date(d) {
            (count + 1, has_time)
        } else if is_datetime(d) {
            (count + 1, true)
        } else {
            (count, has_time)
        }
    }
}

/// The date a label names for the quarter check: an ISO date, or the date
/// of an ISO date-time without fractional seconds.
pub open spec fn quarter_check_date(d: LabelDates) -> Option<(i32, u32, u32)> {
    match d.date {
        Some(x) => Some(x),
        None => d.datetime,
    }
}

/// Whether a date is the first day of a quarter.
pub open spec fn is_quarter_start(d: (i32, u32, u32)) -> bool {
    d.2 == 1 && (d.1 == 1 || d.1 == 4 || d.1 == 7 || d.1 == 10)
}

/// Whether every label that names a date names a quarter start, and at
/// least one does.
pub open spec fn spec_is_quarterly(dates: Seq<LabelDates>) -> bool {
    &&& forall|i: int| 0 <= i < dates.len() ==> (#[trigger] quarter_check_date(dates[i]) matches Some(d) ==> is_quarter_start(d))
    &&& exists|i: int| 0 <= i < dates.len() && #[trigger] quarter_check_date(dates[i]) is Some
}

/// The calendar date of an ISO date-time label (with or without fractional
/// seconds).
pub open spec fn datetime_label_date(d: LabelDates) -> Option<(i32, u32, u32)> {
    match d.datetime {
        Some(x) => Some(x),
        None => d.datetime_fraction,
    }
}

/// Whether all date-time labels fall on one calendar date, and there is at
/// least one.
pub open spec fn spec_all_same_date(dates: Seq<LabelDates>) -> bool {
    &&& exists|i: int| 0 <= i < dates.len() && #[trigger] datetime_label_date(dates[i]) is Some
    &&& forall|i: int, j: int| 0 <= i < dates.len() && 0 <= j < dates.len()
        && #[trigger] datetime_label_date(dates[i]) is Some
        && #[trigger] datetime_label_date(dates[j]) is Some
        ==> datetime_label_date(dates[i]) == datetime_label_date(dates[j])
}

/// The year of a date or date-time label.
pub open spec fn label_year(d: LabelDates) -> Option<i32> {
    match d.date {
        Some(x) => Some(x.0),
        None => match datetime_label_date(d) {
            Some(x) => Some(x.0),
            None => None,
        },
    }
}

/// The year of the first label, from `i` on, that has one.
pub open spec fn first_year_from(dates: Seq<LabelDates>, i: int) -> Option<i32>
    decreases dates.len() - i,
{
    if i < 0 || i >= dates.len() {
        None
    } else {
        match label_year(dates[i]) {
            Some(y) => Some(y),
            None => first_year_from(dates, i + 1),
        }
    }
}

/// The year of the last label, before `n`, that has one.
pub open spec fn last_year_before(dates: Seq<LabelDates>, n: int) -> Option<i32>
    decreases n,
{
    if n <= 0 || n > dates.len() {
        None
    } else {
        match label_year(dates[n - 1]) {
            Some(y) => Some(y),
            None => last_year_before(dates, n - 1),
        }
    }
}

/// Whether the first and the last dated labels fall in different years.
pub open spec fn spec_spans_multiple_years(dates: Seq<LabelDates>) -> bool {
    match (first_year_from(dates, 0), last_year_before(dates, dates.len() as int)) {
        (Some(f), Some(l)) => f != l,
        _ => false,
    }
}

/// The compact display format chosen for labels with these parses.
pub open spec fn spec_format_of_dates(dates: Seq<LabelDates>) -> Option<Seq<char>> {
    if dates.len() == 0 {
        None
    } else {
        let n: int = if dates.len() < 5 { dates.len() as int } else { 5 };
        let (count, has_time) = date_sample(dates, n);
        if count * 5 >= n * 4 {
            if !has_time && spec_is_quarterly(dates) {
                Some(QUARTER_FORMAT@)
            } else {
                let multi_year = spec_spans_multiple_years(dates);
                if has_time {
                    if spec_all_same_date(dates) {
                        Some("%H:%M"@)
                    } else if multi_year {
                        Some("%b %d '%y %H:%M"@)
                    } else {
                        Some("%b %d %H:%M"@)
                    }
                } else if multi_year {
                    Some("%b '%y"@)
                } else {
                    Some("%b %d"@)
                }
            }
        } else {
            None
        }
    }
}

/// The compact display format chosen for labels (see `detect_date_format`).
pub open spec fn spec_detect_date_format(labels: Seq<String>) -> Option<Seq<char>> {
    spec_format_of_dates(labels_dates(labels))
}

proof fn lemma_sample_all_timed(dates: Seq<LabelDates>, n: int)
    requires
        0 <= n <= dates.len(),
        forall|i: int| 0 <= i < dates.len() ==> (#[trigger] dates[i]).date is None,
        forall|i: int| 0 <= i < dates.len() ==> (#[trigger] dates[i]).datetime_fraction is Some,
    ensures
        date_sample(dates, n) == (n, n > 0),
    decreases n,
{
    if n > 0 {
        lemma_sample_all_timed(dates, n - 1);
        assert(dates[n - 1].date is None && dates[n - 1].datetime_fraction is Some);
    }
}

/// Labels that are all date-times with fractional seconds (and not plain
/// dates) are recognised as a time axis: the format chosen shows the time,
/// and the date too unless all fall on one day.
pub proof fn lemma_fractional_datetimes_are_timed(dates: Seq<LabelDates>)
    requires
        dates.len() > 0,
        forall|i: int| 0 <= i < dates.len() ==> (#[trigger] dates[i]).date is None,
        forall|i: int| 0 <= i < dates.len() ==> (#[trigger] dates[i]).datetime_fraction is Some,
    ensures
        spec_format_of_dates(dates) == Some("%H:%M"@) || spec_format_of_dates(dates) == Some("%b %d %H:%M"@)
            || spec_format_of_dates(dates) == Some("%b %d '%y %H:%M"@),
        spec_all_same_date(dates) ==> spec_format_of_dates(dates) == Some("%H:%M"@),
{
    let n: int = if dates.len() < 5 { dates.len() as int } else { 5 };
    lemma_sample_all_timed(dates, n);
}

/// The same for labels: when chrono reads every trimmed label as an ISO
/// date-time with fractional seconds and none as a plain date, the detected
/// format is a time format.
pub proof fn lemma_fractional_labels_are_timed(labels: Seq<String>)
    requires
        labels.len() > 0,
        forall|i: int| 0 <= i < labels.len() ==> (#[trigger] chrono_parse_date(trimmed_label(labels, i), "%Y-%m-%d"@)) is None,
        forall|i: int| 0 <= i < labels.len() ==> (#[trigger] chrono_parse_datetime(trimmed_label(labels, i), "%Y-%m-%dT%H:%M:%S%.f"@)) is Some,
    ensures
        spec_detect_date_format(labels) == Some("%H:%M"@) || spec_detect_date_format(labels) == Some("%b %d %H:%M"@)
            || spec_detect_date_format(labels) == Some("%b %d '%y %H:%M"@),
{
    let dates = labels_dates(labels);
    assert forall|i: int| 0 <= i < dates.len() implies (#[trigger] dates[i]).date is None by {
        assert(chrono_parse_date(trimmed_label(labels, i), "%Y-%m-%d"@) is None);
    }
    assert forall|i: int| 0 <= i < dates.len() implies (#[trigger] dates[i]).datetime_fraction is Some by {
        assert(chrono_parse_datetime(trimmed_label(labels, i), "%Y-%m-%dT%H:%M:%S%.f"@) is Some);
    }
    lemma_fractional_datetimes_are_timed(dates);
}

fn dates_of(t: &str) -> (r: LabelDates)
    ensures
        r == label_dates(t@),
{
    let datetime = match parse_naive_datetime(t, "%Y-%m-%dT%H:%M:%S") {
        Some(x) => Some((x.0, x.1, x.2)),
        None => None,
    };
    let datetime_fraction = match parse_naive_datetime(t, "%Y-%m-%dT%H:%M:%S%.f") {
        Some(x) => Some((x.0, x.1, x.2)),
        None => None,
    };
    LabelDates { date: parse_naive_date(t, "%Y-%m-%d"), datetime, datetime_fraction }
}

/// chrono's ISO parses of each label, trimmed.
pub fn label_dates_of(labels: &[String]) -> (r: Vec<LabelDates>)
    ensures
        r@ == labels_dates(labels@),
{
    let mut out: Vec<LabelDates> = Vec::new();
    let mut i: usize = 0;
    while i < labels.len()
        invariant
            i <= labels@.len(),
            out@ == labels_dates(labels@).subrange(0, i as int),
        decreases labels@.len() - i,
    {
        let t = trim(labels[i].as_str());
        out.push(dates_of(t.as_str()));
        i = i + 1;
        assert(out@ =~= labels_dates(labels@).subrange(0, i as int));
    }
    assert(out@ =~= labels_dates(labels@));
    out
}

fn quarter_date_of(d: &LabelDates) -> (r: Option<(i32, u32, u32)>)
    ensures
        r == quarter_check_date(*d),
{
    match d.date {
        Some(x) => Some(x),
        None => d.datetime,
    }
}

fn datetime_date_of(d: &LabelDates) -> (r: Option<(i32, u32, u32)>)
    ensures
        r == datetime_label_date(*d),
{
    match d.datetime {
        Some(x) => Some(x),
        None => d.datetime_fraction,
    }
}

fn year_of(d: &LabelDates) -> (r: Option<i32>)
    ensures
        r == label_year(*d),
{
    match d.date {
        Some(x) => Some(x.0),
        None => match datetime_date_of(d) {
            Some(x) => Some(x.0),
            None => None,
        },
    }
}

/// Check whether ALL parseable date labels fall on quarter boundaries
/// (day == 1 and month in {1, 4, 7, 10}).
fn is_quarterly(dates: &[LabelDates]) -> (r: bool)
    ensures
        r == spec_is_quarterly(dates@),
{
    let mut found_any = false;
    let mut i: usize = 0;
    while i < dates.len()
        invariant
            i <= dates@.len(),
            forall|k: int| 0 <= k < i ==> (#[trigger] quarter_check_date(dates@[k]) matches Some(d) ==> is_quarter_start(d)),
            found_any == exists|k: int| 0 <= k < i && #[trigger] quarter_check_date(dates@[k]) is Some,
        decreases dates@.len() - i,
    {
        let q = quarter_date_of(&dates[i]);
        match q {
            Some(d) => {
                if !(d.2 == 1 && (d.1 == 1 || d.1 == 4 || d.1 == 7 || d.1 == 10)) {
                    return false;
                }
                found_any = true;
            },
            None => {},
        }
        i = i + 1;
    }
    found_any
}

/// Check whether ALL timestamps share the same calendar date.
fn all_same_date(dates: &[LabelDates]) -> (r: bool)
    ensures
        r == spec_all_same_date(dates@),
{
    let mut first_date: Option<(i32, u32, u32)> = None;
    let ghost mut first_index: int = 0;
    let mut i: usize = 0;
    while i < dates.len()
        invariant
            i <= dates@.len(),
            first_date is None ==> forall|k: int| 0 <= k < i ==> #[trigger] datetime_label_date(dates@[k]) is None,
            first_date is Some ==> 0 <= first_index < i
                && datetime_label_date(dates@[first_index]) == first_date,
            first_date is Some ==> forall|k: int| 0 <= k < i && #[trigger] datetime_label_date(dates@[k]) is Some
                ==> datetime_label_date(dates@[k]) == first_date,
        decreases dates@.len() - i,
    {
        let d = datetime_date_of(&dates[i]);
        match d {
            Some(dd) => {
                match first_date {
                    None => {
                        first_date = Some(dd);
                        proof { first_index = i as int; }
                    },
                    Some(fd) => {
                        if !(fd.0 == dd.0 && fd.1 == dd.1 && fd.2 == dd.2) {
                            return false;
                        }
                    },
                }
            },
            None => {},
        }
        i = i + 1;
    }
    first_date.is_some()
}

fn first_year(dates: &[LabelDates]) -> (r: Option<i32>)
    ensures
        r == first_year_from(dates@, 0),
{
    let mut i: usize = 0;
    while i < dates.len()
        invariant
            i <= dates@.len(),
            first_year_from(dates@, 0) == first_year_from(dates@, i as int),
        decreases dates@.len() - i,
    {
        let y = year_of(&dates[i]);
        if y.is_some() {
            return y;
        }
        i = i + 1;
    }
    None
}

fn last_year(dates: &[LabelDates]) -> (r: Option<i32>)
    ensures
        r == last_year_before(dates@, dates@.len() as int),
{
    let mut j: usize = dates.len();
    while j > 0
        invariant
            j <= dates@.len(),
            last_year_before(dates@, dates@.len() as int) == last_year_before(dates@, j as int),
        decreases j,
    {
        let y = year_of(&dates[j - 1]);
        if y.is_some() {
            return y;
        }
        j = j - 1;
    }
    None
}

/// Check whether the labels span multiple calendar years, comparing the
/// year of the first dated label with that of the last.
fn spans_multiple_years(dates: &[LabelDates]) -> (r: bool)
    ensures
        r == spec_spans_multiple_years(dates@),
{
    match (first_year(dates), last_year(dates)) {
        (Some(f), Some(l)) => f != l,
        _ => false,
    }
}

fn sample_dates(dates: &[LabelDates]) -> (r: (usize, bool))
    requires
        dates@.len() > 0,
    ensures
        ({
            let n: int = if dates@.len() < 5 { dates@.len() as int } else { 5 };
            r.0 as int == date_sample(dates@, n).0 && r.1 == date_sample(dates@, n).1
        }),
        r.0 <= 5,
{
    let sample_size = if dates.len() < 5 { dates.len() } else { 5 };
    let mut date_count: usize = 0;
    let mut has_time = false;
    let mut i: usize = 0;
    while i < sample_size
        invariant
            sample_size <= dates@.len(),
            sample_size <= 5,
            i <= sample_size,
            date_count as int == date_sample(dates@, i as int).0,
            has_time == date_sample(dates@, i as int).1,
            date_count <= i,
        decreases sample_size - i,
    {
        let d = &dates[i];
        if d.date.is_some() {
            date_count += 1;
        } else if d.datetime.is_some() || d.datetime_fraction.is_some() {
            date_count += 1;
            has_time = true;
        }
        i = i + 1;
    }
    (date_count, has_time)
}

/// The compact display format for labels with these ISO parses (see
/// `detect_date_format`).
pub fn date_format_of(dates: &[LabelDates]) -> (r: Option<String>)
    ensures
        r matches Some(f) ==> spec_format_of_dates(dates@) == Some(f@),
        r is None ==> spec_format_of_dates(dates@) is None,
{
    if dates.len() == 0 {
        return None;
    }
    let sample_size = if dates.len() < 5 { dates.len() } else { 5 };
    let (date_count, has_time) = sample_dates(dates);
    // If at least 80% of sampled labels are dates, treat as date axis
    if date_count * 5 >= sample_size * 4 {
        // Quarterly pattern: all dates fall on the 1st of Jan/Apr/Jul/Oct
        if !has_time && is_quarterly(dates) {
            return Some(string_from(QUARTER_FORMAT));
        }
        let multi_year = spans_multiple_years(dates);
        if has_time {
            if all_same_date(dates) {
                Some(string_from("%H:%M"))
            } else if multi_year {
                Some(string_from("%b %d '%y %H:%M"))
            } else {
                Some(string_from("%b %d %H:%M"))
            }
        } else if multi_year {
            Some(string_from("%b '%y"))
        } else {
            Some(string_from("%b %d"))
        }
    } else {
        None
    }
}

/// Detect if labels look like dates and return a compact display format.
/// Checks a sample of labels for ISO date patterns (YYYY-MM-DD or YYYY-MM-DDTHH:MM:SS).
/// Returns a strftime format string for compact display, or the special
/// `QUARTER_FORMAT` marker when all dates are quarter boundaries.
pub fn detect_date_format(labels: &[String]) -> (r: Option<String>)
    ensures
        r matches Some(f) ==> spec_detect_date_format(labels@) == Some(f@),
        r is None ==> spec_detect_date_format(labels@) is None,
{
    let dates = label_dates_of(labels);
    date_format_of(dates.as_slice())
}

/// The year modulo 100 with the sign of the year, as Rust's `%` gives it.
pub open spec fn year_short(year: int) -> int {
    if year < 0 { -((-year) % 100) } else { year % 100 }
}

/// The quarter label (`Q1 '23`) of a date on a quarter's first month;
/// `None` for a date in another month.
pub open spec fn spec_quarter_of(d: (i32, u32, u32)) -> Option<Seq<char>> {
    let q: int = if d.1 == 1 { 1 } else if d.1 == 4 { 2 } else if d.1 == 7 { 3 } else { 4 };
    if d.1 == 1 || d.1 == 4 || d.1 == 7 || d.1 == 10 {
        Some(seq!['Q'] + crate::text::int_dec(q) + seq![' ', '\'']
            + crate::text::int_dec_zero_padded(year_short(d.0 as int), 2))
    } else {
        None
    }
}

/// The quarter label (`Q1 '23`) of a date or date-time label on a quarter's
/// first month; `None` for other labels.
pub open spec fn spec_quarter_label(label: Seq<char>) -> Option<Seq<char>> {
    match quarter_check_date(label_dates(trim_ws(label))) {
        Some(d) => spec_quarter_of(d),
        None => None,
    }
}

/// The quarter label (`Q1 '23`) of a (year, month, day) date, or `None`
/// when the month does not start a quarter.
pub fn quarter_label_of(date: (i32, u32, u32)) -> (r: Option<String>)
    ensures
        r matches Some(s) ==> spec_quarter_of(date) == Some(s@),
        r is None ==> spec_quarter_of(date) is None,
{
    let quarter: i128 = if date.1 == 1 {
        1
    } else if date.1 == 4 {
        2
    } else if date.1 == 7 {
        3
    } else if date.1 == 10 {
        4
    } else {
        return None;
    };
    let year = date.0;
    let short: i32 = if year < 0 { -((-(year as i64)) % 100) as i32 } else { year % 100 };
    let mut cs: Vec<char> = Vec::new();
    cs.push('Q');
    let qd = crate::text::i128_dec(quarter);
    crate::text::extend_chars(&mut cs, &qd);
    cs.push(' ');
    cs.push('\'');
    let yd = crate::text::i128_dec_zero_padded(short as i128, 2);
    crate::text::extend_chars(&mut cs, &yd);
    proof {
        assert(cs@ =~= spec_quarter_of(date)->0);
    }
    Some(string_of(&cs))
}

/// Format a date string as a quarter label like "Q1 '23".
pub fn format_as_quarter(label: &str) -> (r: Option<String>)
    ensures
        r matches Some(s) ==> spec_quarter_label(label@) == Some(s@),
        r is None ==> spec_quarter_label(label@) is None,
{
    let trimmed = trim(label);
    let dates = dates_of(trimmed.as_str());
    match quarter_date_of(&dates) {
        Some(d) => quarter_label_of(d),
        None => None,
    }
}

/// The fields of a parsed date-time.
pub open spec fn fields_of(x: (i32, u32, u32, u32, u32, u32, u32)) -> DateTimeFields {
    DateTimeFields { year: x.0, month: x.1, day: x.2, hour: x.3, minute: x.4, second: x.5, nanosecond: x.6 }
}

/// The date-time a date string names, from its three ISO parses: a
/// date-time, a date-time with fractional seconds, or a date at midnight,
/// in that order.
pub open spec fn pick_date_str_fields(
    datetime: Option<(i32, u32, u32, u32, u32, u32, u32)>,
    datetime_fraction: Option<(i32, u32, u32, u32, u32, u32, u32)>,
    date: Option<(i32, u32, u32)>,
) -> Option<DateTimeFields> {
    match datetime {
        Some(x) => Some(fields_of(x)),
        None => match datetime_fraction {
            Some(x) => Some(fields_of(x)),
            None => match date {
                Some(d) => Some(DateTimeFields { year: d.0, month: d.1, day: d.2, hour: 0, minute: 0, second: 0, nanosecond: 0 }),
                None => None,
            },
        },
    }
}

/// The date-time a date string names: an ISO date-time (with or without
/// fractional seconds), or an ISO date at midnight.
pub open spec fn parsed_date_str(s: Seq<char>) -> Option<DateTimeFields> {
    pick_date_str_fields(
        chrono_parse_datetime(s, "%Y-%m-%dT%H:%M:%S"@),
        chrono_parse_datetime(s, "%Y-%m-%dT%H:%M:%S%.f"@),
        chrono_parse_date(s, "%Y-%m-%d"@),
    )
}

/// The date-time a date string names, from chrono's three ISO parses of it.
pub fn date_str_fields(
    datetime: Option<(i32, u32, u32, u32, u32, u32, u32)>,
    datetime_fraction: Option<(i32, u32, u32, u32, u32, u32, u32)>,
    date: Option<(i32, u32, u32)>,
) -> (r: Option<DateTimeFields>)
    ensures
        r == pick_date_str_fields(datetime, datetime_fraction, date),
{
    match datetime {
        Some(x) => Some(DateTimeFields { year: x.0, month: x.1, day: x.2, hour: x.3, minute: x.4, second: x.5, nanosecond: x.6 }),
        None => match datetime_fraction {
            Some(x) => Some(DateTimeFields { year: x.0, month: x.1, day: x.2, hour: x.3, minute: x.4, second: x.5, nanosecond: x.6 }),
            None => match date {
                Some(d) => Some(DateTimeFields { year: d.0, month: d.1, day: d.2, hour: 0, minute: 0, second: 0, nanosecond: 0 }),
                None => None,
            },
        },
    }
}

fn parse_date_str(s: &str) -> (r: Option<DateTimeFields>)
    ensures
        r == parsed_date_str(s@),
{
    date_str_fields(
        parse_naive_datetime(s, "%Y-%m-%dT%H:%M:%S"),
        parse_naive_datetime(s, "%Y-%m-%dT%H:%M:%S%.f"),
        parse_naive_date(s, "%Y-%m-%d"),
    )
}

/// The text of a date-time under a strftime format.
pub open spec fn rendered(dt: DateTimeFields, fmt: Seq<char>) -> Option<Seq<char>> {
    chrono_strftime(dt.year, dt.month, dt.day, dt.hour, dt.minute, dt.second, dt.nanosecond, fmt)
}

/// Whether formatting the date-time that `date_str` names (if any) with
/// `fmt` succeeds.
pub open spec fn renders_date_str(date_str: Seq<char>, fmt: Seq<char>) -> bool {
    parsed_date_str(date_str) matches Some(dt) ==> rendered(dt, fmt) is Some
}

/// What `format_date_str` gives for a date string under `fmt`.
pub open spec fn spec_format_date_str(date_str: Seq<char>, fmt: Seq<char>) -> Option<Seq<char>> {
    match parsed_date_str(date_str) {
        Some(dt) => rendered(dt, fmt),
        None => None,
    }
}

/// Date formatter applying a strftime format.
#[derive(Debug, Clone)]
pub struct DateFormatter {
    format_str: String,
}

impl DateFormatter {
    /// The strftime format this formatter applies.
    pub closed spec fn format_text(&self) -> Seq<char> {
        self.format_str@
    }

    pub fn new(format_str: &str) -> (r: Self)
        ensures
            r.format_text() == format_str@,
    {
        DateFormatter { format_str: string_from(format_str) }
    }

    /// Format a date-time; `None` where chrono reports an error for the
    /// format.
    pub fn try_format_datetime(&self, dt: &DateTimeFields) -> (r: Option<String>)
        ensures
            r matches Some(s) ==> rendered(*dt, self.format_text()) == Some(s@),
            r is None ==> rendered(*dt, self.format_text()) is None,
    {
        match strftime(dt, self.format_str.as_str()) {
            Some(_) => Some(self.format_datetime(dt)),
            None => None,
        }
    }

    /// Format a date-time.
    pub fn format_datetime(&self, dt: &DateTimeFields) -> (r: String)
        requires
            rendered(*dt, self.format_text()) is Some,
        ensures
            rendered(*dt, self.format_text()) == Some(r@),
    {
        match strftime(dt, self.format_str.as_str()) {
            Some(s) => s,
            None => String::new(),
        }
    }

    /// Format a date string (parse then format).
    /// Accepts ISO date strings like "2024-01-15" or "2024-01-15T10:30:00".
    pub fn format_date_str(&self, date_str: &str) -> (r: Option<String>)
        requires
            renders_date_str(date_str@, self.format_text()),
        ensures
            r matches Some(s) ==> spec_format_date_str(date_str@, self.format_text()) == Some(s@),
            r is None ==> spec_format_date_str(date_str@, self.format_text()) is None,
    {
        match parse_date_str(date_str) {
            Some(dt) => Some(self.format_datetime(&dt)),
            None => None,
        }
    }

    /// Whether `format_date_str` can format `date_str`: false exactly where
    /// chrono reports an error for the format on the date-time it names.
    pub fn can_format_date_str(&self, date_str: &str) -> (r: bool)
        ensures
            r == renders_date_str(date_str@, self.format_text()),
    {
        match parse_date_str(date_str) {
            Some(dt) => strftime(&dt, self.format_str.as_str()).is_some(),
            None => true,
        }
    }
}

/// What `reformat_date_label` gives: the quarter label under the quarter
/// marker, otherwise the label formatted as a date; the label itself when
/// it is not a date.
pub open spec fn spec_reformat_date_label(label: Seq<char>, fmt: Seq<char>) -> Seq<char> {
    if fmt == QUARTER_FORMAT@ {
        match spec_quarter_label(label) {
            Some(q) => q,
            None => label,
        }
    } else {
        match spec_format_date_str(label, fmt) {
            Some(f) => f,
            None => label,
        }
    }
}

/// Reformat a date label using the given strftime format string.
/// If `format_str` is the special `QUARTER_FORMAT` marker, formats as "Q1 '23" etc.
/// If the label cannot be parsed as a date, returns it unchanged.
pub fn reformat_date_label(label: &str, format_str: &str) -> (r: String)
    requires
        format_str@ != QUARTER_FORMAT@ ==> renders_date_str(label@, format_str@),
    ensures
        r@ == spec_reformat_date_label(label@, format_str@),
{
    if crate::text::str_eq(format_str, QUARTER_FORMAT) {
        return match format_as_quarter(label) {
            Some(q) => q,
            None => string_from(label),
        };
    }
    let formatter = DateFormatter::new(format_str);
    match formatter.format_date_str(label) {
        Some(f) => f,
        None => string_from(label),
    }
}

/// `reformat_date_label`, or `None` where chrono reports an error for the
/// format on the date the label names.
pub fn try_reformat_date_label(label: &str, format_str: &str) -> (r: Option<String>)
    ensures
        r matches Some(s) ==> (format_str@ != QUARTER_FORMAT@ ==> renders_date_str(label@, format_str@))
            && s@ == spec_reformat_date_label(label@, format_str@),
        r is None ==> format_str@ != QUARTER_FORMAT@ && !renders_date_str(label@, format_str@),
{
    if !crate::text::str_eq(format_str, QUARTER_FORMAT) {
        let formatter = DateFormatter::new(format_str);
        if !formatter.can_format_date_str(label) {
            return None;
        }
    }
    Some(reformat_date_label(label, format_str))
}

} // verus!
