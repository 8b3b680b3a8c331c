use vstd::prelude::*;

use crate::number_format::NumberFormatter;
use crate::text::{chars_of, string_from};

verus! {

/// Position of the axis relative to the chart area.
#[derive(Debug, Clone, Copy, PartialEq, Eq, Structural)]
pub enum AxisPosition {
    /// X-axis
    Bottom,
    /// Primary Y-axis
    Left,
    /// Secondary Y-axis
    Right,
    /// Rare, but supported
    Top,
}

/// Tick settings for a continuous axis.
pub struct AxisLayout {
    position: AxisPosition,
    tick_count: usize,
    formatter: Option<NumberFormatter>,
}

impl AxisLayout {
    pub closed spec fn axis_position(&self) -> AxisPosition {
        self.position
    }

    pub closed spec fn ticks(&self) -> usize {
        self.tick_count
    }

    pub closed spec fn number_formatter(&self) -> Option<NumberFormatter> {
        self.formatter
    }

    /// A layout at `position` with five ticks and the default number format.
    pub fn new(position: AxisPosition) -> (r: Self)
        ensures
            r.axis_position() == position,
            r.ticks() == 5,
            r.number_formatter() is None,
    {
        Self { position, tick_count: 5, formatter: None }
    }

    pub fn bottom() -> (r: Self)
        ensures
            r.axis_position() == AxisPosition::Bottom,
            r.ticks() == 5,
            r.number_formatter() is None,
    {
        Self::new(AxisPosition::Bottom)
    }

    pub fn left() -> (r: Self)
        ensures
            r.axis_position() == AxisPosition::Left,
            r.ticks() == 5,
            r.number_formatter() is None,
    {
        Self::new(AxisPosition::Left)
    }

    pub fn right() -> (r: Self)
        ensures
            r.axis_position() == AxisPosition::Right,
            r.ticks() == 5,
            r.number_formatter() is None,
    {
        Self::new(AxisPosition::Right)
    }

    /// The same layout with `count` ticks.
    pub fn tick_count(self, count: usize) -> (r: Self)
        ensures
            r.axis_position() == self.axis_position(),
            r.ticks() == count,
            r.number_formatter() == self.number_formatter(),
    {
        let mut s = self;
        s.tick_count = count;
        s
    }

    /// The same layout with tick labels formatted by `fmt`.
    pub fn formatter(self, fmt: NumberFormatter) -> (r: Self)
        ensures
            r.axis_position() == self.axis_position(),
            r.ticks() == self.ticks(),
            r.number_formatter() == Some(fmt),
    {
        let mut s = self;
        s.formatter = Some(fmt);
        s
    }

    pub fn position(&self) -> (r: AxisPosition)
        ensures
            r == self.axis_position(),
    {
        self.position
    }
}

/// Order in which series are stacked.
#[derive(Debug, Clone, Copy, PartialEq, Eq, Structural)]
pub enum StackOrder {
    /// Use input order
    InputOrder,
    /// Smallest series first (bottom)
    Ascending,
    /// Largest series first (bottom)
    Descending,
}

/// Offset mode for the stack baseline.
#[derive(Debug, Clone, Copy, PartialEq, Eq, Structural)]
pub enum StackOffset {
    /// Zero baseline (standard stacking)
    ZeroBaseline,
    /// Normalize to 0-1 (100% stacked)
    Normalize,
}

/// Stacking settings, as d3's `stack()` takes them.
#[derive(Debug, Clone, Copy, PartialEq, Eq, Structural)]
pub struct StackLayout {
    order: StackOrder,
    offset: StackOffset,
}

impl StackLayout {
    pub closed spec fn stack_order(&self) -> StackOrder {
        self.order
    }

    pub closed spec fn stack_offset(&self) -> StackOffset {
        self.offset
    }

    /// Input order on a zero baseline.
    pub fn new() -> (r: Self)
        ensures
            r.stack_order() == StackOrder::InputOrder,
            r.stack_offset() == StackOffset::ZeroBaseline,
    {
        Self { order: StackOrder::InputOrder, offset: StackOffset::ZeroBaseline }
    }

    /// Set the stacking order.
    pub fn order(self, order: StackOrder) -> (r: Self)
        ensures
            r.stack_order() == order,
            r.stack_offset() == self.stack_offset(),
    {
        Self { order, offset: self.offset }
    }

    /// Set the stacking offset.
    pub fn offset(self, offset: StackOffset) -> (r: Self)
        ensures
            r.stack_order() == self.stack_order(),
            r.stack_offset() == offset,
    {
        Self { order: self.order, offset }
    }

    /// The configured order.
    pub fn current_order(&self) -> (r: StackOrder)
        ensures
            r == self.stack_order(),
    {
        self.order
    }

    /// The configured offset.
    pub fn current_offset(&self) -> (r: StackOffset)
        ensures
            r == self.stack_offset(),
    {
        self.offset
    }
}

impl Default for StackLayout {
    /// Input order on a zero baseline.
    fn default() -> (r: Self)
        ensures
            r.stack_order() == StackOrder::InputOrder,
            r.stack_offset() == StackOffset::ZeroBaseline,
    {
        Self::new()
    }
}

/// Legend symbol type.
#[derive(Debug, Clone, Copy, PartialEq, Eq, Structural)]
pub enum LegendMark {
    /// bar, area, pie: rounded rectangle
    Rect,
    /// line charts: horizontal line
    Line,
    /// scatter, bubble: circle
    Circle,
}

/// Horizontal alignment of legend rows.
#[derive(Debug, Clone, Copy, PartialEq, Eq, Structural)]
pub enum LegendAlignment {
    Left,
    Center,
    Right,
}

/// Case transform applied to text before it is drawn.
#[derive(Debug, Clone, Copy, PartialEq, Eq, Structural)]
pub enum TextTransform {
    Unchanged,
    Uppercase,
    Lowercase,
}

/// Width in pixels of a character at the 12px calibration.
pub open spec fn char_width_px(ch: char) -> nat {
    if ch == 'M' || ch == 'W' || ch == 'm' || ch == 'w' {
        9
    } else if ch == 'i' || ch == 'l' || ch == 'j' || ch == '!' || ch == '|' || ch == '.' || ch == ','
        || ch == ':' || ch == ';' || ch == '\'' {
        4
    } else if ch == 'f' || ch == 'r' || ch == 't' {
        5
    } else if ch == ' ' {
        4
    } else {
        7
    }
}

/// Approximate width in pixels of a text at the 12px calibration.
pub open spec fn text_width_px(s: Seq<char>) -> nat
    decreases s.len(),
{
    if s.len() == 0 { 0 } else { text_width_px(s.drop_last()) + char_width_px(s.last()) }
}

/// Approximate width of a single character in pixels at default font size (~12px).
pub fn char_width(ch: char) -> (w: u64)
    ensures
        w as nat == char_width_px(ch),
        w <= 9,
{
    if ch == 'M' || ch == 'W' || ch == 'm' || ch == 'w' {
        9
    } else if ch == 'i' || ch == 'l' || ch == 'j' || ch == '!' || ch == '|' || ch == '.' || ch == ','
        || ch == ':' || ch == ';' || ch == '\'' {
        4
    } else if ch == 'f' || ch == 'r' || ch == 't' {
        5
    } else if ch == ' ' {
        4
    } else {
        7
    }
}

/// Approximate text width in pixels using a character-width table
/// (calibrated for ~12px font); every width in the table is whole.
pub fn text_width(text: &str) -> (w: u128)
    ensures
        w as nat == text_width_px(text@),
{
    let cs = chars_of(text);
    let mut w: u128 = 0;
    let mut i: usize = 0;
    while i < cs.len()
        invariant
            i <= cs@.len(),
            w as nat == text_width_px(cs@.subrange(0, i as int)),
            w <= 9 * i,
        decreases cs@.len() - i,
    {
        assert(cs@.subrange(0, i as int + 1).drop_last() =~= cs@.subrange(0, i as int));
        w = w + char_width(cs[i]) as u128;
        i = i + 1;
    }
    assert(cs@.subrange(0, cs@.len() as int) =~= cs@);
    w
}

/// `s` with ASCII letters lowered, as `str::to_ascii_lowercase` gives it.
pub open spec fn ascii_lower(s: Seq<char>) -> Seq<char> {
    Seq::new(s.len(), |i: int| if 'A' <= s[i] && s[i] <= 'Z' { ((s[i] as u8) + 32) as char } else { s[i] })
}

/// Whether `t` occurs in `s` at position `i`.
pub open spec fn occurs_at(s: Seq<char>, t: Seq<char>, i: int) -> bool {
    0 <= i && i + t.len() <= s.len() && s.subrange(i, i + t.len()) == t
}

/// Whether `t` occurs in `s`.
pub open spec fn has_substring(s: Seq<char>, t: Seq<char>) -> bool {
    exists|i: int| occurs_at(s, t, i)
}

/// Whether a CSS font stack names a monospace face: its lowercased text
/// holds one of the common monospace tokens.
pub open spec fn spec_is_monospace_family(family: Seq<char>) -> bool {
    let s = ascii_lower(family);
    has_substring(s, "monospace"@) || has_substring(s, " mono"@) || has_substring(s, ",mono"@)
        || occurs_at(s, " mono"@, s.len() - 5) || occurs_at(s, "mono"@, 0)
        || has_substring(s, "ui-monospace"@) || has_substring(s, "menlo"@)
        || has_substring(s, "consolas"@) || has_substring(s, "courier"@)
        || has_substring(s, "sf mono"@) || has_substring(s, "jetbrains mono"@)
        || has_substring(s, "fira code"@) || has_substring(s, "fira mono"@)
        || has_substring(s, "source code pro"@)
}

fn to_ascii_lower(cs: &Vec<char>) -> (out: Vec<char>)
    ensures
        out@ == ascii_lower(cs@),
{
    let mut out: Vec<char> = Vec::new();
    let mut i: usize = 0;
    while i < cs.len()
        invariant
            i <= cs@.len(),
            out@.len() == i,
            forall|k: int| 0 <= k < i ==> out@[k] == ascii_lower(cs@)[k],
        decreases cs@.len() - i,
    {
        let c = cs[i];
        if 'A' <= c && c <= 'Z' {
            out.push(((c as u8) + 32) as char);
        } else {
            out.push(c);
        }
        i = i + 1;
    }
    assert(out@ =~= ascii_lower(cs@));
    out
}

fn matches_at(s: &Vec<char>, t: &Vec<char>, i: usize) -> (r: bool)
    ensures
        r == occurs_at(s@, t@, i as int),
{
    if i > s.len() || t.len() > s.len() - i {
        return false;
    }
    let mut k: usize = 0;
    while k < t.len()
        invariant
            i + t@.len() <= s@.len(),
            i <= s@.len(),
            k <= t@.len(),
            forall|j: int| 0 <= j < k ==> s@[i + j] == t@[j],
        decreases t@.len() - k,
    {
        assert(i + k < s@.len());
        assert(s@.len() == s.len());
        if s[i + k] != t[k] {
            assert(s@.subrange(i as int, i + t@.len())[k as int] != t@[k as int]);
            return false;
        }
        k = k + 1;
    }
    assert(s@.subrange(i as int, i + t@.len()) =~= t@);
    true
}

fn contains_chars(s: &Vec<char>, t: &Vec<char>) -> (r: bool)
    ensures
        r == has_substring(s@, t@),
{
    let mut i: usize = 0;
    while i < s.len()
        invariant
            i <= s@.len(),
            forall|j: int| 0 <= j < i ==> !occurs_at(s@, t@, j),
        decreases s@.len() - i,
    {
        if matches_at(s, t, i) {
            return true;
        }
        i = i + 1;
    }
    if matches_at(s, t, s.len()) {
        return true;
    }
    assert forall|j: int| !occurs_at(s@, t@, j) by {
        if 0 <= j && j < s@.len() {
            assert(!occurs_at(s@, t@, j));
        }
    }
    false
}

fn contains_str(s: &Vec<char>, t: &str) -> (r: bool)
    ensures
        r == has_substring(s@, t@),
{
    let tc = chars_of(t);
    contains_chars(s, &tc)
}

/// Heuristic check for monospace-family CSS font stacks.
pub fn family_is_monospace(family: &str) -> (r: bool)
    ensures
        r == spec_is_monospace_family(family@),
{
    let fc = chars_of(family);
    let s = to_ascii_lower(&fc);
    let mono_sp = chars_of(" mono");
    let mono = chars_of("mono");
    proof {
        reveal_strlit(" mono");
        reveal_strlit("mono");
    }
    let ends_mono = s.len() >= 5 && matches_at(&s, &mono_sp, s.len() - 5);
    contains_str(&s, "monospace") || contains_str(&s, " mono") || contains_str(&s, ",mono")
        || ends_mono || matches_at(&s, &mono, 0)
        || contains_str(&s, "ui-monospace") || contains_str(&s, "menlo")
        || contains_str(&s, "consolas") || contains_str(&s, "courier")
        || contains_str(&s, "sf mono") || contains_str(&s, "jetbrains mono")
        || contains_str(&s, "fira code") || contains_str(&s, "fira mono")
        || contains_str(&s, "source code pro")
}

/// Lowering ASCII letters twice changes nothing more than once.
pub proof fn lemma_ascii_lower_idempotent(s: Seq<char>)
    ensures
        ascii_lower(ascii_lower(s)) == ascii_lower(s),
{
    assert(ascii_lower(ascii_lower(s)) =~= ascii_lower(s));
}

/// Whether a font stack is monospace does not depend on the case of its
/// ASCII letters.
pub proof fn lemma_monospace_case_insensitive(family: Seq<char>)
    ensures
        spec_is_monospace_family(ascii_lower(family)) == spec_is_monospace_family(family),
{
    lemma_ascii_lower_idempotent(family);
}

/// The text `str::to_uppercase` gives for `s` (full Unicode case mapping).
pub uninterp spec fn uppercase_of(s: Seq<char>) -> Seq<char>;

/// The text `str::to_lowercase` gives for `s` (full Unicode case mapping).
pub uninterp spec fn lowercase_of(s: Seq<char>) -> Seq<char>;

/// Calls `str::to_uppercase`; its result is a function of the text alone,
/// named `uppercase_of`.
#[verifier::external_body]
fn to_uppercase(s: &str) -> (r: String)
    ensures
        r@ == uppercase_of(s@),
{
    s.to_uppercase()
}

/// Calls `str::to_lowercase`; its result is a function of the text alone,
/// named `lowercase_of`.
#[verifier::external_body]
fn to_lowercase(s: &str) -> (r: String)
    ensures
        r@ == lowercase_of(s@),
{
    s.to_lowercase()
}

/// The text as a transform draws it.
pub open spec fn transformed_text(text: Seq<char>, transform: TextTransform) -> Seq<char> {
    match transform {
        TextTransform::Unchanged => text,
        TextTransform::Uppercase => uppercase_of(text),
        TextTransform::Lowercase => lowercase_of(text),
    }
}

/// Apply a `TextTransform` to a text string.
pub fn apply_transform(text: &str, transform: &TextTransform) -> (r: String)
    ensures
        r@ == transformed_text(text@, *transform),
{
    match transform {
        TextTransform::Unchanged => string_from(text),
        TextTransform::Uppercase => to_uppercase(text),
        TextTransform::Lowercase => to_lowercase(text),
    }
}

} // verus!
