use vstd::prelude::*;

use crate::text::{chars_of, str_eq, string_from, string_of, texts};

verus! {

/// autumn_forest -- Default palette. Warm earth tones with strategic contrast.
pub const AUTUMN_FOREST: [&'static str; 12] = [
    "#2E7D9A", // Ocean
    "#D4A445", // Amber
    "#4A7C59", // Forest
    "#D66B5B", // Coral
    "#8B6BA8", // Violet
    "#9BB85A", // Chartreuse
    "#A85A6B", // Burgundy
    "#5A6BA8", // Indigo
    "#B87D5A", // Sienna
    "#5A9B9B", // Teal
    "#759B75", // Sage
    "#A8758B", // Mauve
];

/// spectrum_pro -- Warmer tones, Tableau-inspired.
pub const SPECTRUM_PRO: [&'static str; 12] = [
    "#4285F4", // Azure
    "#E8710A", // Tangerine
    "#34A853", // Seafoam
    "#DC3545", // Crimson
    "#9B59B6", // Orchid
    "#F1C40F", // Marigold
    "#607D8B", // Steel
    "#00897B", // Jade
    "#8B0000", // Burgundy
    "#6C63FF", // Periwinkle
    "#8BC34A", // Chartreuse
    "#5C6BC0", // Slate Blue
];

/// horizon_suite -- Deeper saturation, Looker-inspired.
pub const HORIZON_SUITE: [&'static str; 12] = [
    "#1A73E8", // Cobalt
    "#0D652D", // Emerald
    "#E8710A", // Sunset
    "#9334E6", // Lavender
    "#F9AB00", // Gold
    "#0097A7", // Teal
    "#C2185B", // Berry
    "#558B2F", // Moss
    "#FF7043", // Peach
    "#3F51B5", // Indigo
    "#2E7D32", // Pine
    "#D81B60", // Rose
];

/// The palette a name selects: `spectrum_pro` and `horizon_suite` by name,
/// `autumn_forest` for every other name.
pub open spec fn palette_for(name: Seq<char>) -> [&'static str; 12] {
    if name == "spectrum_pro"@ {
        SPECTRUM_PRO
    } else if name == "horizon_suite"@ {
        HORIZON_SUITE
    } else {
        AUTUMN_FOREST
    }
}

/// Get a palette by name. Returns the default (autumn_forest) for unknown names.
pub fn get_palette(name: &str) -> (r: &'static [&'static str; 12])
    ensures
        *r == palette_for(name@),
{
    if str_eq(name, "spectrum_pro") {
        &SPECTRUM_PRO
    } else if str_eq(name, "horizon_suite") {
        &HORIZON_SUITE
    } else {
        &AUTUMN_FOREST
    }
}

/// List of available palette names.
pub fn palette_names() -> (r: Vec<&'static str>)
    ensures
        r@.len() == 3,
        r@[0]@ == "autumn_forest"@,
        r@[1]@ == "spectrum_pro"@,
        r@[2]@ == "horizon_suite"@,
{
    let mut v: Vec<&'static str> = Vec::new();
    v.push("autumn_forest");
    v.push("spectrum_pro");
    v.push("horizon_suite");
    v
}


/// Whether `c` is an ASCII hexadecimal digit.
pub open spec fn is_hex_digit(c: char) -> bool {
    ('0' <= c && c <= '9') || ('a' <= c && c <= 'f') || ('A' <= c && c <= 'F')
}

/// Value of an ASCII hexadecimal digit.
pub open spec fn hex_value(c: char) -> int {
    if '0' <= c && c <= '9' {
        c as int - '0' as int
    } else if 'a' <= c && c <= 'f' {
        c as int - 'a' as int + 10
    } else {
        c as int - 'A' as int + 10
    }
}

/// Whether `s` has the form `#RRGGBB`.
pub open spec fn is_hex_color(s: Seq<char>) -> bool {
    s.len() == 7 && s[0] == '#' && forall|i: int| 1 <= i < 7 ==> #[trigger] is_hex_digit(s[i])
}

/// The byte written by two hexadecimal digits at `i` and `i + 1`.
pub open spec fn hex_byte_at(s: Seq<char>, i: int) -> int {
    hex_value(s[i]) * 16 + hex_value(s[i + 1])
}

/// The (red, green, blue) components of a `#RRGGBB` string, if it is one.
pub open spec fn hex_rgb(s: Seq<char>) -> Option<(u8, u8, u8)> {
    if is_hex_color(s) {
        Some((hex_byte_at(s, 1) as u8, hex_byte_at(s, 3) as u8, hex_byte_at(s, 5) as u8))
    } else {
        None
    }
}

/// The uppercase hexadecimal digit of a value below sixteen.
pub open spec fn hex_digit_upper(v: int) -> char {
    if v < 10 { ((v + 48) as u8) as char } else { ((v + 55) as u8) as char }
}

/// `#RRGGBB` with uppercase digits.
pub open spec fn rgb_hex(r: u8, g: u8, b: u8) -> Seq<char> {
    seq![
        '#',
        hex_digit_upper(r as int / 16), hex_digit_upper(r as int % 16),
        hex_digit_upper(g as int / 16), hex_digit_upper(g as int % 16),
        hex_digit_upper(b as int / 16), hex_digit_upper(b as int % 16),
    ]
}

fn is_hex_char(c: char) -> (r: bool)
    ensures
        r == is_hex_digit(c),
{
    ('0' <= c && c <= '9') || ('a' <= c && c <= 'f') || ('A' <= c && c <= 'F')
}

fn hex_char_value(c: char) -> (v: u8)
    requires
        is_hex_digit(c),
    ensures
        v as int == hex_value(c),
        v < 16,
{
    let x = c as u32;
    if '0' <= c && c <= '9' {
        (x - 48) as u8
    } else if 'a' <= c && c <= 'f' {
        (x - 97 + 10) as u8
    } else {
        (x - 65 + 10) as u8
    }
}

fn hex_chars_valid(cs: &Vec<char>) -> (r: bool)
    ensures
        r == is_hex_color(cs@),
{
    if cs.len() != 7 {
        return false;
    }
    if cs[0] != '#' {
        return false;
    }
    let mut i: usize = 1;
    while i < 7
        invariant
            cs.len() == 7,
            1 <= i <= 7,
            forall|j: int| 1 <= j < i ==> #[trigger] is_hex_digit(cs@[j]),
        decreases 7 - i,
    {
        if !is_hex_char(cs[i]) {
            return false;
        }
        i = i + 1;
    }
    true
}

/// Validate hex color format (#RRGGBB).
pub fn is_valid_hex_color(hex: &str) -> (r: bool)
    ensures
        r == is_hex_color(hex@),
{
    let cs = chars_of(hex);
    hex_chars_valid(&cs)
}

/// Parse a hex color string (#RRGGBB) into RGB components.
pub fn hex_to_rgb(hex: &str) -> (r: Option<(u8, u8, u8)>)
    ensures
        r == hex_rgb(hex@),
{
    let cs = chars_of(hex);
    if !hex_chars_valid(&cs) {
        return None;
    }
    assert(is_hex_digit(cs@[1]) && is_hex_digit(cs@[2]) && is_hex_digit(cs@[3]));
    assert(is_hex_digit(cs@[4]) && is_hex_digit(cs@[5]) && is_hex_digit(cs@[6]));
    let r = hex_char_value(cs[1]) * 16 + hex_char_value(cs[2]);
    let g = hex_char_value(cs[3]) * 16 + hex_char_value(cs[4]);
    let b = hex_char_value(cs[5]) * 16 + hex_char_value(cs[6]);
    Some((r, g, b))
}

fn hex_upper_char(v: u8) -> (c: char)
    requires
        v < 16,
    ensures
        c == hex_digit_upper(v as int),
{
    if v < 10 {
        (v + 48) as char
    } else {
        (v + 55) as char
    }
}

/// Convert RGB components to a hex color string (#RRGGBB).
pub fn rgb_to_hex(r: u8, g: u8, b: u8) -> (out: String)
    ensures
        out@ == rgb_hex(r, g, b),
{
    let mut cs: Vec<char> = Vec::new();
    cs.push('#');
    cs.push(hex_upper_char(r / 16));
    cs.push(hex_upper_char(r % 16));
    cs.push(hex_upper_char(g / 16));
    cs.push(hex_upper_char(g % 16));
    cs.push(hex_upper_char(b / 16));
    cs.push(hex_upper_char(b % 16));
    assert(cs@ =~= rgb_hex(r, g, b));
    string_of(&cs)
}


proof fn lemma_hex_digit_upper(v: int)
    requires
        0 <= v < 16,
    ensures
        is_hex_digit(hex_digit_upper(v)),
        hex_value(hex_digit_upper(v)) == v,
{
}

/// Writing a color as `#RRGGBB` and reading it back gives the same
/// components, and the text written is a valid hex color.
pub proof fn lemma_rgb_hex_round_trip(r: u8, g: u8, b: u8)
    ensures
        is_hex_color(rgb_hex(r, g, b)),
        hex_rgb(rgb_hex(r, g, b)) == Some((r, g, b)),
{
    let s = rgb_hex(r, g, b);
    lemma_hex_digit_upper(r as int / 16);
    lemma_hex_digit_upper(r as int % 16);
    lemma_hex_digit_upper(g as int / 16);
    lemma_hex_digit_upper(g as int % 16);
    lemma_hex_digit_upper(b as int / 16);
    lemma_hex_digit_upper(b as int % 16);
    assert(forall|i: int| 1 <= i < 7 ==> #[trigger] is_hex_digit(s[i]));
    assert(hex_byte_at(s, 1) == r as int);
    assert(hex_byte_at(s, 3) == g as int);
    assert(hex_byte_at(s, 5) == b as int);
}

/// The base palette followed by its fallback colors, as text.
pub open spec fn combined_palette(base: Seq<&str>, fallbacks: Seq<String>) -> Seq<Seq<char>> {
    Seq::new(
        base.len() + fallbacks.len(),
        |i: int| if i < base.len() { base[i]@ } else { fallbacks[i - base.len()]@ },
    )
}

/// `count` colors taken from `palette` in order, starting over at its end.
pub open spec fn cycled_colors(count: nat, palette: Seq<Seq<char>>) -> Seq<Seq<char>> {
    Seq::new(count, |i: int| palette[i % (palette.len() as int)])
}

fn combine(base_palette: &[&str], fallbacks: &[String]) -> (out: Vec<String>)
    ensures
        texts(out@) == combined_palette(base_palette@, fallbacks@),
{
    let ghost pal = combined_palette(base_palette@, fallbacks@);
    let mut out: Vec<String> = Vec::new();
    let mut i: usize = 0;
    while i < base_palette.len()
        invariant
            i <= base_palette@.len(),
            pal == combined_palette(base_palette@, fallbacks@),
            out@.len() == i,
            forall|k: int| 0 <= k < i ==> #[trigger] out@[k]@ == pal[k],
        decreases base_palette@.len() - i,
    {
        out.push(string_from(base_palette[i]));
        i = i + 1;
    }
    let mut j: usize = 0;
    while j < fallbacks.len()
        invariant
            j <= fallbacks@.len(),
            pal == combined_palette(base_palette@, fallbacks@),
            out@.len() == base_palette@.len() + j,
            forall|k: int| 0 <= k < out@.len() ==> #[trigger] out@[k]@ == pal[k],
        decreases fallbacks@.len() - j,
    {
        out.push(string_from(fallbacks[j].as_str()));
        j = j + 1;
    }
    assert(texts(out@) =~= pal);
    out
}

/// Colors for `series_count` series: the base palette, then its fallback
/// colors, then the same again from the start.
pub fn get_chart_colors_with_fallbacks(
    series_count: usize,
    base_palette: &[&str],
    fallbacks: &[String],
) -> (out: Vec<String>)
    requires
        series_count > 0 ==> base_palette@.len() + fallbacks@.len() > 0,
    ensures
        texts(out@) == cycled_colors(series_count as nat, combined_palette(base_palette@, fallbacks@)),
{
    let combined = combine(base_palette, fallbacks);
    let ghost pal = combined_palette(base_palette@, fallbacks@);
    let ghost want = cycled_colors(series_count as nat, pal);
    let n = combined.len();
    assert(n == pal.len()) by {
        assert(texts(combined@).len() == combined@.len());
    }
    let mut out: Vec<String> = Vec::new();
    let mut i: usize = 0;
    while i < series_count
        invariant
            i <= series_count,
            n == combined@.len(),
            n == pal.len(),
            texts(combined@) == pal,
            want == cycled_colors(series_count as nat, pal),
            series_count > 0 ==> n > 0,
            out@.len() == i,
            forall|k: int| 0 <= k < i ==> #[trigger] out@[k]@ == want[k],
        decreases series_count - i,
    {
        let k = i % n;
        assert(texts(combined@)[k as int] == combined@[k as int]@);
        out.push(string_from(combined[k].as_str()));
        i = i + 1;
    }
    assert(texts(out@) =~= want);
    out
}

/// The color at `index` of the palette cycle used by
/// `get_chart_colors_with_fallbacks`.
pub fn get_color_at_index_with_fallbacks(
    index: usize,
    base_palette: &[&str],
    fallbacks: &[String],
) -> (out: String)
    requires
        base_palette@.len() + fallbacks@.len() > 0,
    ensures
        out@ == combined_palette(base_palette@, fallbacks@)[index as int
            % (base_palette@.len() + fallbacks@.len()) as int],
{
    let combined = combine(base_palette, fallbacks);
    assert(texts(combined@).len() == combined@.len());
    let k = index % combined.len();
    assert(texts(combined@)[k as int] == combined@[k as int]@);
    string_from(combined[k].as_str())
}

/// The color cycle repeats after every pass over the palette.
pub proof fn lemma_cycled_colors_repeat(count: nat, palette: Seq<Seq<char>>, i: int)
    requires
        palette.len() > 0,
        0 <= i,
        i + palette.len() < count,
    ensures
        cycled_colors(count, palette)[i] == cycled_colors(count, palette)[i + palette.len()],
{
    let n = palette.len() as int;
    vstd::arithmetic::div_mod::lemma_mod_add_multiples_vanish(i, n);
}

/// The first colors of the cycle are the palette itself, in order.
pub proof fn lemma_cycled_colors_prefix(count: nat, palette: Seq<Seq<char>>, i: int)
    requires
        0 <= i < palette.len(),
        i < count,
    ensures
        cycled_colors(count, palette)[i] == palette[i],
{
    vstd::arithmetic::div_mod::lemma_small_mod(i as nat, palette.len());
}

/// Asking for more colors keeps the colors already given.
pub proof fn lemma_cycled_colors_extend(count: nat, more: nat, palette: Seq<Seq<char>>, i: int)
    requires
        count <= more,
        0 <= i < count,
    ensures
        cycled_colors(count, palette)[i] == cycled_colors(more, palette)[i],
{
}


/// The color a chart gives to its `i`-th mark: the palette entry at `i`,
/// starting over at the palette's end.
pub fn palette_color(colors: &Vec<String>, i: usize) -> (r: String)
    requires
        colors@.len() > 0,
    ensures
        r@ == texts(colors@)[(i as int) % (colors@.len() as int)],
        r@ == cycled_colors((i + 1) as nat, texts(colors@))[i as int],
{
    let c = &colors[i % colors.len()];
    string_from(c.as_str())
}

/// The colors of the first `count` marks of a chart, one per mark.
pub fn palette_colors(count: usize, colors: &Vec<String>) -> (r: Vec<String>)
    requires
        count > 0 ==> colors@.len() > 0,
    ensures
        texts(r@) == cycled_colors(count as nat, texts(colors@)),
{
    let mut out: Vec<String> = Vec::new();
    let mut i: usize = 0;
    while i < count
        invariant
            i <= count,
            count > 0 ==> colors@.len() > 0,
            out@.len() == i,
            forall|j: int| 0 <= j < i ==> #[trigger] out@[j]@ == texts(colors@)[j % (colors@.len() as int)],
        decreases count - i,
    {
        let c = palette_color(colors, i);
        out.push(c);
        i = i + 1;
    }
    assert(texts(out@) =~= cycled_colors(count as nat, texts(colors@)));
    out
}

} // verus!
