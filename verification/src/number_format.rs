use vstd::prelude::*;

use crate::text::{chars_of, extend_chars, string_of};

verus! {

/// Alignment of a formatted number within its width.
#[derive(Debug, Clone, Copy, PartialEq, Eq, Structural)]
pub enum Align {
    Left,
    Right,
    Center,
    SignFirst,
}

/// Sign display of a formatted number.
#[derive(Debug, Clone, Copy, PartialEq, Eq, Structural)]
pub enum Sign {
    Minus,
    Plus,
    Space,
}

/// Currency or base symbol of a formatted number.
#[derive(Debug, Clone, Copy, PartialEq, Eq, Structural)]
pub enum Symbol {
    NoSymbol,
    Dollar,
    Hash,
}

/// Notation of a formatted number.
#[derive(Debug, Clone, Copy, PartialEq, Eq, Structural)]
pub enum FormatType {
    /// No type letter: like `g`, with trailing zeros trimmed.
    Auto,
    Decimal,
    Exponent,
    Fixed,
    General,
    Rounded,
    SiPrefix,
    Percentage,
    Hex,
    HexUpper,
    Octal,
    Binary,
}

/// A parsed d3-format specifier:
/// `[[fill]align][sign][symbol][0][width][,][.precision][~][type]`.
#[derive(Debug, Clone, Copy, PartialEq, Eq, Structural)]
pub struct FormatSpec {
    pub fill: char,
    pub align: Align,
    pub sign: Sign,
    pub symbol: Symbol,
    pub zero: bool,
    pub width: Option<usize>,
    pub comma: bool,
    pub precision: Option<usize>,
    pub trim: bool,
    pub format_type: FormatType,
}

pub open spec fn is_align_char(c: char) -> bool {
    c == '<' || c == '>' || c == '^' || c == '='
}

pub open spec fn align_of(c: char) -> Align {
    if c == '<' { Align::Left } else if c == '>' { Align::Right } else if c == '^' { Align::Center } else { Align::SignFirst }
}

pub open spec fn is_ascii_digit(c: char) -> bool {
    '0' <= c && c <= '9'
}

/// End of the run of ASCII digits starting at `i`.
pub open spec fn digit_run_end(s: Seq<char>, i: int) -> int
    decreases s.len() - i,
{
    if 0 <= i < s.len() && is_ascii_digit(s[i]) { digit_run_end(s, i + 1) } else { i }
}

/// Decimal value of the digits `s[i..j]`.
pub open spec fn digits_value(s: Seq<char>, i: int, j: int) -> nat
    decreases j - i,
{
    if j <= i { 0 } else { digits_value(s, i, j - 1) * 10 + (s[j - 1] as int - '0' as int) as nat }
}

pub open spec fn format_type_of(c: char) -> FormatType {
    if c == 'd' { FormatType::Decimal } else if c == 'e' { FormatType::Exponent }
    else if c == 'f' { FormatType::Fixed } else if c == 'g' { FormatType::General }
    else if c == 'r' { FormatType::Rounded } else if c == 's' { FormatType::SiPrefix }
    else if c == '%' { FormatType::Percentage } else if c == 'x' { FormatType::Hex }
    else if c == 'X' { FormatType::HexUpper } else if c == 'o' { FormatType::Octal }
    else if c == 'b' { FormatType::Binary } else { FormatType::Auto }
}

/// Position after an optional one-character flag from `set` at `i`.
pub open spec fn skip_flag(s: Seq<char>, i: int, a: char, b: char, c: char) -> int {
    if 0 <= i < s.len() && (s[i] == a || s[i] == b || s[i] == c) { i + 1 } else { i }
}

/// Position after the optional fill and alignment.
pub open spec fn pos_align(s: Seq<char>) -> int {
    if s.len() >= 2 && is_align_char(s[1]) { 2 } else if s.len() >= 1 && is_align_char(s[0]) { 1 } else { 0 }
}

pub open spec fn pos_sign(s: Seq<char>) -> int {
    skip_flag(s, pos_align(s), '-', '+', ' ')
}

pub open spec fn pos_symbol(s: Seq<char>) -> int {
    skip_flag(s, pos_sign(s), '$', '#', '$')
}

pub open spec fn pos_zero(s: Seq<char>) -> int {
    skip_flag(s, pos_symbol(s), '0', '0', '0')
}

pub open spec fn pos_width(s: Seq<char>) -> int {
    digit_run_end(s, pos_zero(s))
}

pub open spec fn pos_comma(s: Seq<char>) -> int {
    skip_flag(s, pos_width(s), ',', ',', ',')
}

pub open spec fn pos_precision(s: Seq<char>) -> int {
    let p = pos_comma(s);
    if 0 <= p < s.len() && s[p] == '.' { digit_run_end(s, p + 1) } else { p }
}

pub open spec fn pos_trim(s: Seq<char>) -> int {
    skip_flag(s, pos_precision(s), '~', '~', '~')
}

/// Whether the width and precision written in `s` fit in a `usize`.
pub open spec fn spec_fits(s: Seq<char>) -> bool {
    &&& digits_value(s, pos_zero(s), pos_width(s)) <= usize::MAX
    &&& (pos_precision(s) > pos_comma(s) ==> digits_value(s, pos_comma(s) + 1, pos_precision(s)) <= usize::MAX)
}

pub open spec fn spec_fill_align(s: Seq<char>) -> (char, Align) {
    let pa = pos_align(s);
    let explicit_align = pa > 0;
    let fill0 = if pa == 2 { s[0] } else { ' ' };
    let align0 = if pa == 2 { align_of(s[1]) } else if pa == 1 { align_of(s[0]) } else { Align::Right };
    if pos_zero(s) > pos_symbol(s) && !explicit_align { ('0', Align::SignFirst) } else { (fill0, align0) }
}

pub open spec fn spec_sign(s: Seq<char>) -> Sign {
    let pa = pos_align(s);
    if pos_sign(s) > pa {
        if s[pa] == '-' { Sign::Minus } else if s[pa] == '+' { Sign::Plus } else { Sign::Space }
    } else {
        Sign::Minus
    }
}

pub open spec fn spec_symbol(s: Seq<char>) -> Symbol {
    let ps = pos_sign(s);
    if pos_symbol(s) > ps {
        if s[ps] == '$' { Symbol::Dollar } else { Symbol::Hash }
    } else {
        Symbol::NoSymbol
    }
}

pub open spec fn spec_width(s: Seq<char>) -> Option<usize> {
    if pos_width(s) > pos_zero(s) { Some(digits_value(s, pos_zero(s), pos_width(s)) as usize) } else { None }
}

pub open spec fn spec_precision(s: Seq<char>) -> Option<usize> {
    let pc = pos_comma(s);
    let pp = pos_precision(s);
    if pp > pc {
        Some(if pp > pc + 1 { digits_value(s, pc + 1, pp) as usize } else { 0usize })
    } else {
        None
    }
}

/// The specifier that `s` describes.
pub open spec fn parse_format_spec(s: Seq<char>) -> FormatSpec {
    let pt = pos_trim(s);
    FormatSpec {
        fill: spec_fill_align(s).0,
        align: spec_fill_align(s).1,
        sign: spec_sign(s),
        symbol: spec_symbol(s),
        zero: pos_zero(s) > pos_symbol(s),
        width: spec_width(s),
        comma: pos_comma(s) > pos_width(s),
        precision: spec_precision(s),
        trim: pt > pos_precision(s),
        format_type: if pt < s.len() { format_type_of(s[pt]) } else { FormatType::Auto },
    }
}

proof fn lemma_digit_run(s: Seq<char>, i: int)
    requires
        0 <= i <= s.len(),
    ensures
        i <= digit_run_end(s, i) <= s.len(),
        forall|k: int| i <= k < digit_run_end(s, i) ==> is_ascii_digit(#[trigger] s[k]),
        digit_run_end(s, i) < s.len() ==> !is_ascii_digit(s[digit_run_end(s, i)]),
    decreases s.len() - i,
{
    if i < s.len() && is_ascii_digit(s[i]) {
        lemma_digit_run(s, i + 1);
    }
}

proof fn lemma_digits_value_monotone(s: Seq<char>, i: int, k: int, j: int)
    requires
        i <= k <= j,
        forall|t: int| i <= t < j ==> is_ascii_digit(#[trigger] s[t]),
    ensures
        digits_value(s, i, k) <= digits_value(s, i, j),
    decreases j - k,
{
    if k < j {
        lemma_digits_value_monotone(s, i, k, j - 1);
        assert(is_ascii_digit(s[j - 1]));
    }
}

fn is_align(c: char) -> (r: bool)
    ensures
        r == is_align_char(c),
{
    c == '<' || c == '>' || c == '^' || c == '='
}

fn align_from(c: char) -> (a: Align)
    ensures
        a == align_of(c),
{
    if c == '<' { Align::Left } else if c == '>' { Align::Right } else if c == '^' { Align::Center } else { Align::SignFirst }
}

fn is_digit(c: char) -> (r: bool)
    ensures
        r == is_ascii_digit(c),
{
    '0' <= c && c <= '9'
}

/// Reads the run of digits at `i`: its end and its value, or `None` when
/// the value does not fit in a `usize`.
fn read_digits(cs: &Vec<char>, i: usize) -> (r: Option<(usize, usize)>)
    requires
        i <= cs@.len(),
    ensures
        r is Some <==> digits_value(cs@, i as int, digit_run_end(cs@, i as int)) <= usize::MAX,
        r matches Some((e, v)) ==> e as int == digit_run_end(cs@, i as int)
            && v as int == digits_value(cs@, i as int, e as int),
{
    proof { lemma_digit_run(cs@, i as int); }
    let ghost end = digit_run_end(cs@, i as int);
    let mut j: usize = i;
    let mut v: usize = 0;
    while j < cs.len() && is_digit(cs[j])
        invariant
            i <= j <= end,
            end == digit_run_end(cs@, i as int),
            end <= cs@.len(),
            forall|k: int| i <= k < end ==> is_ascii_digit(#[trigger] cs@[k]),
            end < cs@.len() ==> !is_ascii_digit(cs@[end]),
            v as int == digits_value(cs@, i as int, j as int),
        decreases cs@.len() - j,
    {
        proof {
            lemma_digits_value_monotone(cs@, i as int, j as int + 1, end);
        }
        let d = (cs[j] as u32 - 48) as usize;
        match v.checked_mul(10) {
            Some(t) => match t.checked_add(d) {
                Some(n) => {
                    v = n;
                },
                None => {
                    return None;
                },
            },
            None => {
                assert(digits_value(cs@, i as int, j as int + 1) > usize::MAX);
                return None;
            },
        }
        j = j + 1;
    }
    Some((j, v))
}

fn type_from(c: char) -> (t: FormatType)
    ensures
        t == format_type_of(c),
{
    if c == 'd' { FormatType::Decimal } else if c == 'e' { FormatType::Exponent }
    else if c == 'f' { FormatType::Fixed } else if c == 'g' { FormatType::General }
    else if c == 'r' { FormatType::Rounded } else if c == 's' { FormatType::SiPrefix }
    else if c == '%' { FormatType::Percentage } else if c == 'x' { FormatType::Hex }
    else if c == 'X' { FormatType::HexUpper } else if c == 'o' { FormatType::Octal }
    else if c == 'b' { FormatType::Binary } else { FormatType::Auto }
}

fn flag_at(cs: &Vec<char>, i: usize, a: char, b: char, c: char) -> (r: bool)
    requires
        i <= cs@.len(),
    ensures
        r == (skip_flag(cs@, i as int, a, b, c) > i),
{
    i < cs.len() && (cs[i] == a || cs[i] == b || cs[i] == c)
}

/// Parses a d3-format specifier; `None` when its width or precision does
/// not fit in a `usize`.
pub fn try_parse_spec(spec_str: &str) -> (r: Option<FormatSpec>)
    ensures
        r is Some <==> spec_fits(spec_str@),
        r matches Some(f) ==> f == parse_format_spec(spec_str@),
{
    let chars = chars_of(spec_str);
    let ghost s = chars@;
    let len = chars.len();

    // fill + align: if the second char is an align char, the first is the fill
    let mut fill = ' ';
    let mut align = Align::Right;
    let mut explicit_align = false;
    let mut i: usize = 0;
    if len >= 2 && is_align(chars[1]) {
        fill = chars[0];
        align = align_from(chars[1]);
        explicit_align = true;
        i = 2;
    } else if len >= 1 && is_align(chars[0]) {
        align = align_from(chars[0]);
        explicit_align = true;
        i = 1;
    }
    assert(i == pos_align(s));
    // sign
    let mut sign = Sign::Minus;
    if flag_at(&chars, i, '-', '+', ' ') {
        sign = if chars[i] == '-' { Sign::Minus } else if chars[i] == '+' { Sign::Plus } else { Sign::Space };
        i += 1;
    }
    assert(i == pos_sign(s) && sign == spec_sign(s));
    // symbol
    let mut symbol = Symbol::NoSymbol;
    if flag_at(&chars, i, '$', '#', '$') {
        symbol = if chars[i] == '$' { Symbol::Dollar } else { Symbol::Hash };
        i += 1;
    }
    assert(i == pos_symbol(s) && symbol == spec_symbol(s));
    // zero: zero-fill, which implies sign-first alignment unless one was given
    let mut zero = false;
    if flag_at(&chars, i, '0', '0', '0') {
        zero = true;
        if !explicit_align {
            fill = '0';
            align = Align::SignFirst;
        }
        i += 1;
    }
    assert(i == pos_zero(s));
    assert((fill, align) == spec_fill_align(s));
    // width
    proof { lemma_digit_run(s, i as int); }
    let (end, value) = match read_digits(&chars, i) {
        Some(x) => x,
        None => {
            return None;
        },
    };
    let width = if end > i { Some(value) } else { None };
    i = end;
    assert(i == pos_width(s) && width == spec_width(s));
    // comma
    let mut comma = false;
    if flag_at(&chars, i, ',', ',', ',') {
        comma = true;
        i += 1;
    }
    assert(i == pos_comma(s));
    // .precision
    let mut precision: Option<usize> = None;
    if i < len && chars[i] == '.' {
        i += 1;
        proof { lemma_digit_run(s, i as int); }
        let (end, value) = match read_digits(&chars, i) {
            Some(x) => x,
            None => {
                return None;
            },
        };
        precision = if end > i { Some(value) } else { Some(0) };
        i = end;
    }
    assert(i == pos_precision(s) && precision == spec_precision(s));
    // trim
    let mut trim = false;
    if flag_at(&chars, i, '~', '~', '~') {
        trim = true;
        i += 1;
    }
    assert(i == pos_trim(s));
    // type
    let format_type = if i < len { type_from(chars[i]) } else { FormatType::Auto };
    Some(FormatSpec { fill, align, sign, symbol, zero, width, comma, precision, trim, format_type })
}

/// Parses a d3-format specifier whose width and precision fit in a
/// `usize`.
pub fn parse_spec(spec_str: &str) -> (r: FormatSpec)
    requires
        spec_fits(spec_str@),
    ensures
        r == parse_format_spec(spec_str@),
{
    try_parse_spec(spec_str).unwrap()
}


/// Number of bytes of `c` in UTF-8.
pub open spec fn utf8_width(c: char) -> int {
    if (c as u32) < 0x80 { 1 } else if (c as u32) < 0x800 { 2 } else if (c as u32) < 0x10000 { 3 } else { 4 }
}

/// Number of bytes of `s` in UTF-8.
pub open spec fn utf8_len(s: Seq<char>) -> int
    decreases s.len(),
{
    if s.len() == 0 { 0 } else { utf8_len(s.drop_last()) + utf8_width(s.last()) }
}

/// Digits grouped by three from the right: a comma goes before the
/// character at index `i > 0` whenever `byte_len - i` is a multiple of three
/// (`byte_len` being the UTF-8 length of the whole input).
pub open spec fn commas_upto(s: Seq<char>, byte_len: int, n: int) -> Seq<char>
    decreases n,
{
    if n <= 0 {
        Seq::empty()
    } else {
        let i = n - 1;
        let sep: Seq<char> = if i > 0 && (byte_len - i) % 3 == 0 { seq![','] } else { Seq::empty() };
        commas_upto(s, byte_len, i) + sep + seq![s[i]]
    }
}

/// `s` with commas inserted between groups of three digits.
pub open spec fn with_commas(s: Seq<char>) -> Seq<char> {
    commas_upto(s, utf8_len(s), s.len() as int)
}

/// `s` without its trailing `c` characters.
pub open spec fn trim_end_char(s: Seq<char>, c: char) -> Seq<char>
    decreases s.len(),
{
    if s.len() > 0 && s.last() == c { trim_end_char(s.drop_last(), c) } else { s }
}

/// A decimal with its trailing fraction zeros removed, and the point too
/// when nothing follows it; text without a point is left alone.
pub open spec fn trimmed_zeros(s: Seq<char>) -> Seq<char> {
    if s.contains('.') {
        let t = trim_end_char(s, '0');
        if t.len() > 0 && t.last() == '.' { t.drop_last() } else { t }
    } else {
        s
    }
}

/// Index of the first `c` in `s`, if any.
pub open spec fn first_index_of(s: Seq<char>, c: char) -> Option<int> {
    if s.contains(c) { Some(choose|i: int| 0 <= i < s.len() && s[i] == c && forall|j: int| 0 <= j < i ==> s[j] != c) } else { None }
}

/// Comma grouping of the integer part of a formatted number (what precedes
/// the first point, or everything when there is no point).
pub open spec fn grouped_number(s: Seq<char>) -> Seq<char> {
    match first_index_of(s, '.') {
        Some(p) => with_commas(s.subrange(0, p)) + s.subrange(p, s.len() as int),
        None => with_commas(s),
    }
}

fn char_utf8_width(c: char) -> (w: usize)
    ensures
        w as int == utf8_width(c),
{
    let v = c as u32;
    if v < 0x80 { 1 } else if v < 0x800 { 2 } else if v < 0x10000 { 3 } else { 4 }
}

fn chars_utf8_len(cs: &Vec<char>) -> (n: usize)
    requires
        cs@.len() <= usize::MAX / 4,
    ensures
        n as int == utf8_len(cs@),
{
    let mut n: usize = 0;
    let mut i: usize = 0;
    while i < cs.len()
        invariant
            i <= cs@.len() <= usize::MAX / 4,
            n as int == utf8_len(cs@.subrange(0, i as int)),
            n <= 4 * i,
        decreases cs@.len() - i,
    {
        assert(cs@.subrange(0, i as int + 1).drop_last() =~= cs@.subrange(0, i as int));
        n = n + char_utf8_width(cs[i]);
        i = i + 1;
    }
    assert(cs@.subrange(0, cs@.len() as int) =~= cs@);
    n
}

pub(crate) fn commas_chars(cs: &Vec<char>) -> (out: Vec<char>)
    requires
        cs@.len() <= usize::MAX / 4,
    ensures
        out@ == with_commas(cs@),
{
    let byte_len = chars_utf8_len(cs);
    proof { lemma_utf8_len_bounds(cs@); }
    let mut out: Vec<char> = Vec::new();
    let mut i: usize = 0;
    while i < cs.len()
        invariant
            i <= cs@.len(),
            byte_len as int == utf8_len(cs@),
            byte_len >= cs@.len(),
            out@ == commas_upto(cs@, byte_len as int, i as int),
        decreases cs@.len() - i,
    {
        if i > 0 && (byte_len - i) % 3 == 0 {
            out.push(',');
        }
        out.push(cs[i]);
        i = i + 1;
        assert(out@ =~= commas_upto(cs@, byte_len as int, i as int));
    }
    out
}

proof fn lemma_utf8_len_bounds(s: Seq<char>)
    ensures
        s.len() <= utf8_len(s) <= 4 * s.len(),
    decreases s.len(),
{
    if s.len() > 0 {
        lemma_utf8_len_bounds(s.drop_last());
    }
}

/// `s` without any `c`.
pub open spec fn remove_char(s: Seq<char>, c: char) -> Seq<char>
    decreases s.len(),
{
    if s.len() == 0 {
        Seq::empty()
    } else {
        remove_char(s.drop_last(), c) + (if s.last() == c { Seq::<char>::empty() } else { seq![s.last()] })
    }
}

pub(crate) proof fn lemma_remove_char_concat(a: Seq<char>, b: Seq<char>, c: char)
    ensures
        remove_char(a + b, c) == remove_char(a, c) + remove_char(b, c),
    decreases b.len(),
{
    if b.len() == 0 {
        assert(a + b =~= a);
        assert(remove_char(a, c) + remove_char(b, c) =~= remove_char(a, c));
    } else {
        lemma_remove_char_concat(a, b.drop_last(), c);
        assert((a + b).drop_last() =~= a + b.drop_last());
        assert((a + b).last() == b.last());
        let tail: Seq<char> = if b.last() == c { Seq::empty() } else { seq![b.last()] };
        assert(remove_char(a, c) + remove_char(b.drop_last(), c) + tail
            =~= remove_char(a, c) + (remove_char(b.drop_last(), c) + tail));
    }
}

proof fn lemma_remove_commas_upto(s: Seq<char>, byte_len: int, n: int)
    requires
        0 <= n <= s.len(),
        !s.contains(','),
    ensures
        remove_char(commas_upto(s, byte_len, n), ',') == s.subrange(0, n),
    decreases n,
{
    if n > 0 {
        let i = n - 1;
        lemma_remove_commas_upto(s, byte_len, i);
        let sep: Seq<char> = if i > 0 && (byte_len - i) % 3 == 0 { seq![','] } else { Seq::empty() };
        let head = commas_upto(s, byte_len, i);
        assert(commas_upto(s, byte_len, n) == head + sep + seq![s[i]]);
        lemma_remove_char_concat(head + sep, seq![s[i]], ',');
        lemma_remove_char_concat(head, sep, ',');
        assert(s[i] != ',') by {
            if s[i] == ',' {
                assert(s.contains(','));
            }
        }
        assert(remove_char(sep, ',') =~= Seq::<char>::empty()) by {
            assert(remove_char(Seq::<char>::empty(), ',') =~= Seq::<char>::empty());
            if i > 0 && (byte_len - i) % 3 == 0 {
                assert(sep.len() == 1 && sep.last() == ',');
                assert(sep.drop_last() =~= Seq::<char>::empty());
            } else {
                assert(sep =~= Seq::<char>::empty());
            }
        }
        assert(remove_char(seq![s[i]], ',') =~= seq![s[i]]) by {
            let one: Seq<char> = seq![s[i]];
            assert(one.drop_last() =~= Seq::<char>::empty());
            assert(remove_char(Seq::<char>::empty(), ',') =~= Seq::<char>::empty());
            assert(one.last() == s[i]);
            assert(remove_char(one, ',') == remove_char(one.drop_last(), ',') + seq![s[i]]);
        }
        assert(s.subrange(0, i) + seq![s[i]] =~= s.subrange(0, n));
    }
}

/// Grouping never loses a digit: taking the commas out of a grouped
/// number gives back the digits it was made from.
pub proof fn lemma_commas_removed(s: Seq<char>)
    requires
        !s.contains(','),
    ensures
        remove_char(with_commas(s), ',') == s,
{
    lemma_remove_commas_upto(s, utf8_len(s), s.len() as int);
    assert(s.subrange(0, s.len() as int) =~= s);
}

/// Inserts commas between groups of three digits.
pub fn insert_commas(int_part: &str) -> (out: String)
    requires
        int_part@.len() <= usize::MAX / 4,
    ensures
        out@ == with_commas(int_part@),
{
    let cs = chars_of(int_part);
    let out = commas_chars(&cs);
    string_of(&out)
}

proof fn lemma_trim_end_char_prefix(s: Seq<char>, c: char)
    ensures
        trim_end_char(s, c).len() <= s.len(),
        trim_end_char(s, c) =~= s.subrange(0, trim_end_char(s, c).len() as int),
        trim_end_char(s, c).len() > 0 ==> trim_end_char(s, c).last() != c,
        forall|k: int| trim_end_char(s, c).len() <= k < s.len() ==> s[k] == c,
    decreases s.len(),
{
    if s.len() > 0 && s.last() == c {
        lemma_trim_end_char_prefix(s.drop_last(), c);
        assert forall|k: int| trim_end_char(s, c).len() <= k < s.len() implies s[k] == c by {
            if k < s.len() - 1 {
                assert(s.drop_last()[k] == s[k]);
            }
        }
    }
}

fn trim_zeros_chars(cs: &Vec<char>) -> (out: Vec<char>)
    ensures
        out@ == trimmed_zeros(cs@),
{
    let mut has_dot = false;
    let mut i: usize = 0;
    while i < cs.len()
        invariant
            i <= cs@.len(),
            has_dot == exists|k: int| 0 <= k < i && cs@[k] == '.',
        decreases cs@.len() - i,
    {
        if cs[i] == '.' {
            has_dot = true;
        }
        i = i + 1;
    }
    if !has_dot {
        assert(!cs@.contains('.'));
        return crate::text::copy_chars(cs);
    }
    assert(cs@.contains('.'));
    let mut end = cs.len();
    assert(cs@.subrange(0, end as int) =~= cs@);
    while end > 0 && cs[end - 1] == '0'
        invariant
            end <= cs@.len(),
            trim_end_char(cs@.subrange(0, end as int), '0') == trim_end_char(cs@, '0'),
        decreases end,
    {
        assert(cs@.subrange(0, end as int).drop_last() =~= cs@.subrange(0, end as int - 1));
        end = end - 1;
    }
    assert(trim_end_char(cs@, '0') =~= cs@.subrange(0, end as int));
    if end > 0 && cs[end - 1] == '.' {
        end = end - 1;
    }
    let mut out: Vec<char> = Vec::new();
    let mut k: usize = 0;
    while k < end
        invariant
            k <= end <= cs@.len(),
            out@ == cs@.subrange(0, k as int),
        decreases end - k,
    {
        out.push(cs[k]);
        k = k + 1;
        assert(out@ =~= cs@.subrange(0, k as int));
    }
    out
}

/// Removes trailing fraction zeros (and a then trailing point) from a
/// decimal; text without a point is returned unchanged.
pub fn trim_trailing_zeros(s: &str) -> (out: String)
    ensures
        out@ == trimmed_zeros(s@),
{
    let cs = chars_of(s);
    let out = trim_zeros_chars(&cs);
    string_of(&out)
}


/// Position of the first `c` in `cs`, if any.
pub(crate) fn find_char(cs: &Vec<char>, c: char) -> (r: Option<usize>)
    ensures
        r matches Some(p) ==> first_index_of(cs@, c) == Some(p as int) && p < cs@.len(),
        r is None ==> first_index_of(cs@, c) is None,
{
    let mut i: usize = 0;
    while i < cs.len()
        invariant
            i <= cs@.len(),
            forall|j: int| 0 <= j < i ==> cs@[j] != c,
        decreases cs@.len() - i,
    {
        if cs[i] == c {
            proof {
                assert(cs@.contains(c));
                let w = choose|k: int| 0 <= k < cs@.len() && cs@[k] == c && forall|j: int| 0 <= j < k ==> cs@[j] != c;
                assert(0 <= i < cs@.len() && cs@[i as int] == c && forall|j: int| 0 <= j < i ==> cs@[j] != c);
                if w < i {
                } else if w > i {
                    assert(cs@[i as int] != c);
                }
            }
            return Some(i);
        }
        i = i + 1;
    }
    assert(!cs@.contains(c));
    None
}

fn group_number_chars(cs: &Vec<char>) -> (out: Vec<char>)
    requires
        cs@.len() <= usize::MAX / 4,
    ensures
        out@ == grouped_number(cs@),
{
    match find_char(cs, '.') {
        Some(p) => {
            let mut int_part: Vec<char> = Vec::new();
            let mut k: usize = 0;
            while k < p
                invariant
                    k <= p <= cs@.len(),
                    int_part@ == cs@.subrange(0, k as int),
                decreases p - k,
            {
                int_part.push(cs[k]);
                k = k + 1;
                assert(int_part@ =~= cs@.subrange(0, k as int));
            }
            let mut out = commas_chars(&int_part);
            let ghost head = out@;
            let mut j: usize = p;
            while j < cs.len()
                invariant
                    p <= j <= cs@.len(),
                    out@ == head + cs@.subrange(p as int, j as int),
                decreases cs@.len() - j,
            {
                out.push(cs[j]);
                j = j + 1;
                assert(out@ =~= head + cs@.subrange(p as int, j as int));
            }
            out
        },
        None => commas_chars(cs),
    }
}

/// Inserts commas into the integer part of a formatted number, keeping the
/// point and what follows it.
pub fn format_with_commas(formatted: &str) -> (out: String)
    requires
        formatted@.len() <= usize::MAX / 4,
    ensures
        out@ == grouped_number(formatted@),
{
    let cs = chars_of(formatted);
    let out = group_number_chars(&cs);
    string_of(&out)
}

/// `body` padded with `fill` to `width` characters as the alignment says;
/// with sign-first alignment the padding goes between the sign and symbol
/// and the number.
pub open spec fn padded(spec: FormatSpec, body: Seq<char>, sign: Seq<char>, symbol: Seq<char>, number: Seq<char>) -> Seq<char> {
    match spec.width {
        None => body,
        Some(w) => if body.len() >= w {
            body
        } else {
            let pad_len = (w - body.len()) as nat;
            let pad = crate::text::repeat_char(spec.fill, pad_len);
            match spec.align {
                Align::Left => body + pad,
                Align::Right => pad + body,
                Align::Center => crate::text::repeat_char(spec.fill, pad_len / 2) + body
                    + crate::text::repeat_char(spec.fill, (pad_len - pad_len / 2) as nat),
                Align::SignFirst => sign + symbol + pad + number,
            }
        },
    }
}

fn push_repeat(out: &mut Vec<char>, c: char, n: usize)
    ensures
        final(out)@ == old(out)@ + crate::text::repeat_char(c, n as nat),
{
    let ghost start = out@;
    let mut i: usize = 0;
    while i < n
        invariant
            i <= n,
            out@ == start + crate::text::repeat_char(c, i as nat),
        decreases n - i,
    {
        out.push(c);
        i = i + 1;
        assert(out@ =~= start + crate::text::repeat_char(c, i as nat));
    }
}

/// The sign text: `-` for negative values, otherwise as the spec asks.
pub open spec fn sign_text(spec: FormatSpec, is_negative: bool) -> Seq<char> {
    if is_negative {
        seq!['-']
    } else {
        match spec.sign {
            Sign::Plus => seq!['+'],
            Sign::Space => seq![' '],
            Sign::Minus => Seq::empty(),
        }
    }
}

/// The symbol text: `$` for the currency symbol, nothing otherwise.
pub open spec fn symbol_text(spec: FormatSpec) -> Seq<char> {
    if spec.symbol == Symbol::Dollar { seq!['$'] } else { Seq::empty() }
}

/// The number text: the formatted magnitude, trimmed and grouped as the
/// spec asks, followed by the suffix.
pub open spec fn number_text(spec: FormatSpec, core: Seq<char>, suffix: Seq<char>) -> Seq<char> {
    let t = if spec.trim { trimmed_zeros(core) } else { core };
    let g = if spec.comma { grouped_number(t) } else { t };
    g + suffix
}

/// The full formatted text for a value whose magnitude was formatted as
/// `core` with `suffix`.
pub open spec fn assembled(spec: FormatSpec, is_negative: bool, core: Seq<char>, suffix: Seq<char>) -> Seq<char> {
    let number = number_text(spec, core, suffix);
    let sign = sign_text(spec, is_negative);
    let symbol = symbol_text(spec);
    padded(spec, sign + symbol + number, sign, symbol, number)
}

/// Without a width, the formatted text is the sign, then the symbol, then
/// the number. A negative value always starts with `-`; a non-negative one
/// starts with `+` under `+`, with a space under ` `, and with nothing under
/// `-`. So the two texts of a value and its negation differ only in their
/// first character under `+` and ` `, and only by the leading `-` under `-`.
pub proof fn lemma_assembled_sign(spec: FormatSpec, core: Seq<char>, suffix: Seq<char>)
    requires
        spec.width is None,
    ensures
        ({
            let rest = symbol_text(spec) + number_text(spec, core, suffix);
            let pos = assembled(spec, false, core, suffix);
            let neg = assembled(spec, true, core, suffix);
            &&& neg == seq!['-'] + rest
            &&& pos == match spec.sign {
                Sign::Plus => seq!['+'] + rest,
                Sign::Space => seq![' '] + rest,
                Sign::Minus => rest,
            }
            &&& neg[0] == '-'
            &&& spec.sign == Sign::Space ==> pos[0] == ' '
            &&& spec.sign == Sign::Plus ==> pos[0] == '+'
            &&& spec.sign != Sign::Minus ==> pos.len() == neg.len() && pos.subrange(1, pos.len() as int)
                == neg.subrange(1, neg.len() as int)
            &&& spec.sign == Sign::Minus ==> neg == seq!['-'] + pos
        }),
{
    let rest = symbol_text(spec) + number_text(spec, core, suffix);
    let pos = assembled(spec, false, core, suffix);
    let neg = assembled(spec, true, core, suffix);
    assert(neg =~= seq!['-'] + rest);
    match spec.sign {
        Sign::Plus => {
            assert(pos =~= seq!['+'] + rest);
            assert(pos.subrange(1, pos.len() as int) =~= rest);
        },
        Sign::Space => {
            assert(pos =~= seq![' '] + rest);
            assert(pos.subrange(1, pos.len() as int) =~= rest);
        },
        Sign::Minus => {
            assert(pos =~= rest);
        },
    }
    assert(neg.subrange(1, neg.len() as int) =~= rest);
}

/// Padding only adds fill characters: the formatted text is as long as the
/// width asks, or as the unpadded sign, symbol and number if they are
/// longer; left alignment keeps that text at the start, right alignment at
/// the end, centering puts half the fill (rounded down) before it, and
/// sign-first alignment keeps the sign and symbol first and the number last.
pub proof fn lemma_assembled_padding(spec: FormatSpec, is_negative: bool, core: Seq<char>, suffix: Seq<char>)
    ensures
        ({
            let sign = sign_text(spec, is_negative);
            let symbol = symbol_text(spec);
            let number = number_text(spec, core, suffix);
            let body = sign + symbol + number;
            let out = assembled(spec, is_negative, core, suffix);
            &&& out.len() == match spec.width {
                None => body.len(),
                Some(w) => if w > body.len() { w as nat } else { body.len() },
            }
            &&& (spec.width is None || body.len() >= spec.width->0) ==> out == body
            &&& spec.align == Align::Left ==> out.subrange(0, body.len() as int) == body
            &&& spec.align == Align::Right ==> out.subrange(out.len() - body.len(), out.len() as int) == body
            &&& spec.align == Align::Center ==> out.subrange(
                (out.len() - body.len()) / 2,
                (out.len() - body.len()) / 2 + body.len(),
            ) == body
            &&& spec.align == Align::SignFirst ==> out.subrange(0, (sign + symbol).len() as int) == sign + symbol
                && out.subrange(out.len() - number.len(), out.len() as int) == number
            &&& spec.align == Align::Left ==> forall|i: int|
                body.len() <= i < out.len() ==> #[trigger] out[i] == spec.fill
            &&& spec.align == Align::Right ==> forall|i: int|
                0 <= i < out.len() - body.len() ==> #[trigger] out[i] == spec.fill
            &&& spec.align == Align::Center ==> forall|i: int|
                (0 <= i < (out.len() - body.len()) / 2 || (out.len() - body.len()) / 2 + body.len() <= i
                    < out.len()) ==> #[trigger] out[i] == spec.fill
            &&& spec.align == Align::SignFirst ==> forall|i: int|
                (sign + symbol).len() <= i < out.len() - number.len() ==> #[trigger] out[i] == spec.fill
        }),
{
    let sign = sign_text(spec, is_negative);
    let symbol = symbol_text(spec);
    let number = number_text(spec, core, suffix);
    let body = sign + symbol + number;
    let out = assembled(spec, is_negative, core, suffix);
    match spec.width {
        None => {},
        Some(w) => {
            if body.len() < w {
                let pad_len = (w - body.len()) as nat;
                assert(out.len() == w);
                match spec.align {
                    Align::Left => {
                        assert(out.subrange(0, body.len() as int) =~= body);
                    },
                    Align::Right => {
                        assert(out.subrange(out.len() - body.len(), out.len() as int) =~= body);
                    },
                    Align::Center => {
                        assert(out.subrange(
                            (out.len() - body.len()) / 2,
                            (out.len() - body.len()) / 2 + body.len(),
                        ) =~= body);
                    },
                    Align::SignFirst => {
                        assert(out.subrange(0, (sign + symbol).len() as int) =~= sign + symbol);
                        assert(out.subrange(out.len() - number.len(), out.len() as int) =~= number);
                    },
                }
            }
        },
    }
}

/// The digit of value `d` in a base up to sixteen, lowercase or uppercase.
pub open spec fn radix_digit(d: nat, upper: bool) -> char {
    if d < 10 {
        ((d + 48) as u8) as char
    } else if upper {
        ((d + 55) as u8) as char
    } else {
        ((d + 87) as u8) as char
    }
}

/// `n` written in base `b`, without leading zeros.
pub open spec fn radix_text(n: nat, b: nat, upper: bool) -> Seq<char>
    decreases n,
{
    if b < 2 || n < b {
        seq![radix_digit(n, upper)]
    } else {
        proof {
            assert(n / b < n) by (nonlinear_arith)
                requires
                    b >= 2,
                    n >= b,
            ;
        }
        radix_text(n / b, b, upper).push(radix_digit(n % b, upper))
    }
}

/// Whether a notation writes a whole number (decimal, hexadecimal, octal
/// or binary).
pub open spec fn is_integer_type(t: FormatType) -> bool {
    t == FormatType::Decimal || t == FormatType::Hex || t == FormatType::HexUpper
        || t == FormatType::Octal || t == FormatType::Binary
}

/// The core text of a whole number under an integer notation: its digits
/// in the notation's base, after `0x`, `0X`, `0o` or `0b` when the spec
/// carries the `#` symbol (decimal takes no prefix).
pub open spec fn integer_text(n: nat, t: FormatType, symbol: Symbol) -> Seq<char> {
    let hash = symbol == Symbol::Hash;
    match t {
        FormatType::Hex => (if hash { "0x"@ } else { Seq::empty() }) + radix_text(n, 16, false),
        FormatType::HexUpper => (if hash { "0X"@ } else { Seq::empty() }) + radix_text(n, 16, true),
        FormatType::Octal => (if hash { "0o"@ } else { Seq::empty() }) + radix_text(n, 8, false),
        FormatType::Binary => (if hash { "0b"@ } else { Seq::empty() }) + radix_text(n, 2, false),
        _ => radix_text(n, 10, false),
    }
}

fn radix_digit_of(d: u64, upper: bool) -> (c: char)
    requires
        d < 16,
    ensures
        c == radix_digit(d as nat, upper),
{
    let v = d as u8;
    if v < 10 {
        (v + 48) as char
    } else if upper {
        (v + 55) as char
    } else {
        (v + 87) as char
    }
}

fn radix_chars(n: u64, b: u64, upper: bool) -> (out: Vec<char>)
    requires
        2 <= b <= 16,
    ensures
        out@ == radix_text(n as nat, b as nat, upper),
    decreases n,
{
    if n < b {
        let mut v: Vec<char> = Vec::new();
        v.push(radix_digit_of(n, upper));
        v
    } else {
        assert(n / b < n) by (nonlinear_arith)
            requires
                b >= 2,
                n >= b,
        ;
        let mut v = radix_chars(n / b, b, upper);
        v.push(radix_digit_of(n % b, upper));
        v
    }
}

fn prefixed_radix(prefix: &str, n: u64, b: u64, upper: bool) -> (out: String)
    requires
        2 <= b <= 16,
    ensures
        out@ == prefix@ + radix_text(n as nat, b as nat, upper),
{
    let mut cs = chars_of(prefix);
    let digits = radix_chars(n, b, upper);
    extend_chars(&mut cs, &digits);
    string_of(&cs)
}

/// The core text of a whole number under an integer notation (`d`, `x`,
/// `X`, `o`, `b`), before grouping, sign, symbol and padding.
pub fn integer_core(n: u64, format_type: FormatType, symbol: Symbol) -> (out: String)
    requires
        is_integer_type(format_type),
    ensures
        out@ == integer_text(n as nat, format_type, symbol),
{
    let hash = symbol == Symbol::Hash;
    proof {
        reveal_strlit("");
    }
    match format_type {
        FormatType::Hex => prefixed_radix(if hash { "0x" } else { "" }, n, 16, false),
        FormatType::HexUpper => prefixed_radix(if hash { "0X" } else { "" }, n, 16, true),
        FormatType::Octal => prefixed_radix(if hash { "0o" } else { "" }, n, 8, false),
        FormatType::Binary => prefixed_radix(if hash { "0b" } else { "" }, n, 2, false),
        _ => {
            let r = prefixed_radix("", n, 10, false);
            assert(""@ + radix_text(n as nat, 10, false) =~= radix_text(n as nat, 10, false));
            r
        },
    }
}

/// d3-format compatible number formatter.
///
/// Spec mini-language: `[[fill]align][sign][symbol][0][width][,][.precision][~][type]`
#[derive(Debug, Clone)]
pub struct NumberFormatter {
    spec: FormatSpec,
}

impl NumberFormatter {
    /// The specifier this formatter applies.
    pub closed spec fn format_spec(&self) -> FormatSpec {
        self.spec
    }

    pub fn new(spec_str: &str) -> (r: Self)
        requires
            spec_fits(spec_str@),
        ensures
            r.format_spec() == parse_format_spec(spec_str@),
    {
        NumberFormatter { spec: parse_spec(spec_str) }
    }

    /// A formatter for `spec_str`, or `None` when its width or precision
    /// does not fit in a `usize`.
    pub fn try_new(spec_str: &str) -> (r: Option<Self>)
        ensures
            r is Some <==> spec_fits(spec_str@),
            r matches Some(f) ==> f.format_spec() == parse_format_spec(spec_str@),
    {
        match try_parse_spec(spec_str) {
            Some(spec) => Some(NumberFormatter { spec }),
            None => None,
        }
    }

    /// The parsed specifier.
    pub fn spec(&self) -> (r: FormatSpec)
        ensures
            r == self.format_spec(),
    {
        self.spec
    }

    /// Pads `body` to the spec's width.
    fn apply_padding(&self, body: &Vec<char>, sign_str: &Vec<char>, symbol_str: &Vec<char>, number_part: &Vec<char>) -> (out: Vec<char>)
        ensures
            out@ == padded(self.spec, body@, sign_str@, symbol_str@, number_part@),
    {
        let w = match self.spec.width {
            Some(w) => w,
            None => return crate::text::copy_chars(body),
        };
        let body_len = body.len();
        if body_len >= w {
            return crate::text::copy_chars(body);
        }
        let pad_len = w - body_len;
        let fill = self.spec.fill;
        let mut out: Vec<char> = Vec::new();
        match self.spec.align {
            Align::Left => {
                extend_chars(&mut out, body);
                push_repeat(&mut out, fill, pad_len);
            },
            Align::Right => {
                push_repeat(&mut out, fill, pad_len);
                extend_chars(&mut out, body);
            },
            Align::Center => {
                let left = pad_len / 2;
                let right = pad_len - left;
                push_repeat(&mut out, fill, left);
                extend_chars(&mut out, body);
                push_repeat(&mut out, fill, right);
            },
            Align::SignFirst => {
                extend_chars(&mut out, sign_str);
                extend_chars(&mut out, symbol_str);
                push_repeat(&mut out, fill, pad_len);
                extend_chars(&mut out, number_part);
            },
        }
        assert(out@ =~= padded(self.spec, body@, sign_str@, symbol_str@, number_part@));
        out
    }

    /// Finishes formatting a value whose magnitude has been written as `core`
    /// (with `suffix`, such as an SI prefix or `%`): trims and groups the
    /// number as the spec asks, adds sign and symbol, and pads to the width.
    pub fn assemble(&self, is_negative: bool, core: &str, suffix: &str) -> (out: String)
        requires
            core@.len() <= usize::MAX / 4,
            suffix@.len() <= usize::MAX / 4,
        ensures
            out@ == assembled(self.format_spec(), is_negative, core@, suffix@),
    {
        let spec = self.spec;
        let mut formatted = chars_of(core);
        if spec.trim {
            formatted = trim_zeros_chars(&formatted);
            proof { lemma_trimmed_zeros_len(core@); }
        }
        if spec.comma {
            formatted = group_number_chars(&formatted);
        }
        let sfx = chars_of(suffix);
        extend_chars(&mut formatted, &sfx);
        let mut sign_str: Vec<char> = Vec::new();
        if is_negative {
            sign_str.push('-');
        } else {
            match spec.sign {
                Sign::Plus => sign_str.push('+'),
                Sign::Space => sign_str.push(' '),
                Sign::Minus => {},
            }
        }
        let mut symbol_str: Vec<char> = Vec::new();
        if spec.symbol == Symbol::Dollar {
            symbol_str.push('$');
        }
        assert(sign_str@ =~= sign_text(spec, is_negative));
        assert(symbol_str@ =~= symbol_text(spec));
        let mut body: Vec<char> = Vec::new();
        extend_chars(&mut body, &sign_str);
        extend_chars(&mut body, &symbol_str);
        extend_chars(&mut body, &formatted);
        let out = self.apply_padding(&body, &sign_str, &symbol_str, &formatted);
        string_of(&out)
    }
}

proof fn lemma_trimmed_zeros_len(s: Seq<char>)
    ensures
        trimmed_zeros(s).len() <= s.len(),
{
    lemma_trim_end_char_prefix(s, '0');
}

} // verus!
