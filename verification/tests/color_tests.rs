use chartml::color::{
    get_chart_colors_with_fallbacks, get_color_at_index_with_fallbacks, get_palette,
    hex_to_rgb, is_valid_hex_color, palette_color, palette_colors, palette_names, rgb_to_hex,
    AUTUMN_FOREST, HORIZON_SUITE, SPECTRUM_PRO,
};

#[test]
fn get_default_palette() {
    let palette = get_palette("autumn_forest");
    assert_eq!(palette.len(), 12);
}

#[test]
fn get_palette_by_name() {
    let af = get_palette("autumn_forest");
    assert_eq!(af[0], "#2E7D9A");

    let sp = get_palette("spectrum_pro");
    assert_eq!(sp[0], "#4285F4");

    let hs = get_palette("horizon_suite");
    assert_eq!(hs[0], "#1A73E8");
}

#[test]
fn palette_colors_are_valid_hex() {
    for name in palette_names() {
        let palette = get_palette(name);
        for color in palette.iter() {
            assert!(
                is_valid_hex_color(color),
                "Invalid hex color '{}' in palette '{}'",
                color,
                name
            );
        }
    }
}

#[test]
fn unknown_palette_falls_back_to_default() {
    assert_eq!(get_palette("no_such_palette"), get_palette("autumn_forest"));
    assert_eq!(palette_names(), vec!["autumn_forest", "spectrum_pro", "horizon_suite"]);
    assert_eq!(get_palette("spectrum_pro"), &SPECTRUM_PRO);
    assert_eq!(get_palette("horizon_suite"), &HORIZON_SUITE);
}

#[test]
fn hex_to_rgb_valid() {
    assert_eq!(hex_to_rgb("#2E7D9A"), Some((46, 125, 154)));
}

#[test]
fn hex_to_rgb_invalid() {
    assert_eq!(hex_to_rgb("invalid"), None);
    assert_eq!(hex_to_rgb("#GGG"), None);
    assert_eq!(hex_to_rgb(""), None);
}

#[test]
fn hex_to_rgb_lowercase_digits() {
    assert_eq!(hex_to_rgb("#abcdef"), Some((0xab, 0xcd, 0xef)));
    assert_eq!(hex_to_rgb("#000000"), Some((0, 0, 0)));
    assert_eq!(hex_to_rgb("#FFFFFF"), Some((255, 255, 255)));
}

#[test]
fn rgb_to_hex_roundtrip() {
    let source = "#2E7D9A";
    let (r, g, b) = hex_to_rgb(source).unwrap();
    let result = rgb_to_hex(r, g, b);
    assert_eq!(result, source);
}

#[test]
fn rgb_to_hex_writes_uppercase_and_reads_back() {
    assert_eq!(rgb_to_hex(0, 10, 255), "#000AFF");
    for &(r, g, b) in &[(0u8, 0u8, 0u8), (1, 2, 3), (171, 205, 239), (255, 255, 255)] {
        let hex = rgb_to_hex(r, g, b);
        assert!(is_valid_hex_color(&hex));
        assert_eq!(hex_to_rgb(&hex), Some((r, g, b)));
    }
}

#[test]
fn is_valid_hex_color_valid() {
    assert!(is_valid_hex_color("#2E7D9A"));
    assert!(is_valid_hex_color("#000000"));
    assert!(is_valid_hex_color("#FFFFFF"));
    assert!(is_valid_hex_color("#abcdef"));
}

#[test]
fn is_valid_hex_color_invalid() {
    assert!(!is_valid_hex_color(""));
    assert!(!is_valid_hex_color("2E7D9A"));
    assert!(!is_valid_hex_color("#2E7D9"));
    assert!(!is_valid_hex_color("#GGGGGG"));
    assert!(!is_valid_hex_color("#2E7D9A00"));
}

fn fallbacks_of(base: &[&str]) -> Vec<String> {
    // Stand-in fallbacks, one per base color, distinct from every base color.
    (0..base.len()).map(|i| format!("#0000{:02X}", i)).collect()
}

#[test]
fn chart_colors_use_base_then_fallbacks_then_cycle() {
    let fallbacks = fallbacks_of(&AUTUMN_FOREST);
    let colors = get_chart_colors_with_fallbacks(5, &AUTUMN_FOREST, &fallbacks);
    assert_eq!(colors.len(), 5);
    assert_eq!(colors[0], AUTUMN_FOREST[0]);
    assert_eq!(colors[4], AUTUMN_FOREST[4]);

    let colors = get_chart_colors_with_fallbacks(30, &AUTUMN_FOREST, &fallbacks);
    assert_eq!(colors.len(), 30);
    for i in 0..12 {
        assert_eq!(colors[i], AUTUMN_FOREST[i]);
    }
    assert_eq!(colors[12], fallbacks[0]);
    assert_eq!(colors[23], fallbacks[11]);
    assert_eq!(colors[24], colors[0]);
    assert_eq!(colors[29], colors[5]);
}

#[test]
fn color_at_index_wraps_around_combined_palette() {
    let fallbacks = fallbacks_of(&AUTUMN_FOREST);
    assert_eq!(get_color_at_index_with_fallbacks(0, &AUTUMN_FOREST, &fallbacks), AUTUMN_FOREST[0]);
    assert_eq!(get_color_at_index_with_fallbacks(15, &AUTUMN_FOREST, &fallbacks), fallbacks[3]);
    assert_eq!(get_color_at_index_with_fallbacks(24 + 7, &AUTUMN_FOREST, &fallbacks), AUTUMN_FOREST[7]);
}

#[test]
fn palette_color_cycles_through_configured_colors() {
    let colors = vec!["#111111".to_string(), "#222222".to_string(), "#333333".to_string()];
    assert_eq!(palette_color(&colors, 0), "#111111");
    assert_eq!(palette_color(&colors, 4), "#222222");
    assert_eq!(
        palette_colors(5, &colors),
        vec!["#111111", "#222222", "#333333", "#111111", "#222222"]
    );
    assert!(palette_colors(0, &Vec::new()).is_empty());
}

/// The desaturated fallbacks of the autumn forest palette, one per base color.
const AUTUMN_FOREST_FALLBACKS: [&str; 12] = [
    "#497C8F", "#B5975C", "#5B7C65", "#B97469", "#877499", "#91A369", "#986973", "#697398",
    "#A37F69", "#689090", "#7A917A", "#9A7A88",
];

fn autumn_fallbacks() -> Vec<String> {
    AUTUMN_FOREST_FALLBACKS.iter().map(|c| c.to_string()).collect()
}

fn get_chart_colors(series_count: usize, base: &[&str]) -> Vec<String> {
    get_chart_colors_with_fallbacks(series_count, base, &autumn_fallbacks())
}

fn get_color_at_index(index: usize, base: &[&str]) -> String {
    get_color_at_index_with_fallbacks(index, base, &autumn_fallbacks())
}

#[test]
fn chart_colors_basic() {
    let colors = get_chart_colors(5, &AUTUMN_FOREST);
    assert_eq!(colors.len(), 5);
    assert_eq!(colors[0], AUTUMN_FOREST[0]);
    assert_eq!(colors[4], AUTUMN_FOREST[4]);
}

#[test]
fn chart_colors_12() {
    let colors = get_chart_colors(12, &AUTUMN_FOREST);
    assert_eq!(colors.len(), 12);
    for (i, color) in colors.iter().enumerate() {
        assert_eq!(color, AUTUMN_FOREST[i]);
    }
}

#[test]
fn chart_colors_13_plus() {
    let colors = get_chart_colors(13, &AUTUMN_FOREST);
    assert_eq!(colors.len(), 13);
    for i in 0..12 {
        assert_eq!(colors[i], AUTUMN_FOREST[i]);
    }
    assert_ne!(colors[12], AUTUMN_FOREST[0]);
    assert!(is_valid_hex_color(&colors[12]));
    assert_eq!(colors[12], "#497C8F");
}

#[test]
fn chart_colors_25_plus() {
    let colors = get_chart_colors(30, &AUTUMN_FOREST);
    assert_eq!(colors.len(), 30);
    for color in &colors {
        assert!(is_valid_hex_color(color));
    }
    assert_eq!(colors[24], colors[0]);
}

#[test]
fn get_color_at_index_basic() {
    let color = get_color_at_index(0, &AUTUMN_FOREST);
    assert_eq!(color, AUTUMN_FOREST[0]);
}

#[test]
fn get_color_at_index_fallback() {
    let color = get_color_at_index(15, &AUTUMN_FOREST);
    assert!(is_valid_hex_color(&color));
    assert_ne!(color, AUTUMN_FOREST[15 % 12]);
    assert_eq!(color, "#B97469");
}
