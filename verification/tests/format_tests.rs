use chartml::number_format::{
    format_with_commas, insert_commas, integer_core, parse_spec, try_parse_spec, trim_trailing_zeros, Align, FormatType,
    NumberFormatter, Sign, Symbol,
};

#[test]
fn test_insert_commas() {
    assert_eq!(insert_commas("1"), "1");
    assert_eq!(insert_commas("12"), "12");
    assert_eq!(insert_commas("123"), "123");
    assert_eq!(insert_commas("1234"), "1,234");
    assert_eq!(insert_commas("12345"), "12,345");
    assert_eq!(insert_commas("123456"), "123,456");
    assert_eq!(insert_commas("1234567"), "1,234,567");
}

#[test]
fn commas_come_out_as_they_went_in() {
    for digits in ["", "7", "1000", "9876543210", "12345678901234567890"] {
        let grouped = insert_commas(digits);
        assert_eq!(grouped.replace(',', ""), digits);
    }
}

#[test]
fn test_parse_spec_basic() {
    let spec = parse_spec("$,.2f");
    assert_eq!(spec.symbol, Symbol::Dollar);
    assert!(spec.comma);
    assert_eq!(spec.precision, Some(2));
    assert_eq!(spec.format_type, FormatType::Fixed);
}

#[test]
fn test_parse_spec_percentage() {
    let spec = parse_spec(".1%");
    assert_eq!(spec.precision, Some(1));
    assert_eq!(spec.format_type, FormatType::Percentage);
}

#[test]
fn test_parse_spec_si() {
    let spec = parse_spec("~s");
    assert!(spec.trim);
    assert_eq!(spec.format_type, FormatType::SiPrefix);
}

#[test]
fn parse_spec_reads_every_part() {
    let spec = parse_spec("*^+#012,.3~e");
    assert_eq!(spec.fill, '*');
    assert_eq!(spec.align, Align::Center);
    assert_eq!(spec.sign, Sign::Plus);
    assert_eq!(spec.symbol, Symbol::Hash);
    assert!(spec.zero);
    assert_eq!(spec.width, Some(12));
    assert!(spec.comma);
    assert_eq!(spec.precision, Some(3));
    assert!(spec.trim);
    assert_eq!(spec.format_type, FormatType::Exponent);

    let empty = parse_spec("");
    assert_eq!(empty.fill, ' ');
    assert_eq!(empty.align, Align::Right);
    assert_eq!(empty.sign, Sign::Minus);
    assert_eq!(empty.symbol, Symbol::NoSymbol);
    assert_eq!(empty.width, None);
    assert_eq!(empty.precision, None);
    assert_eq!(empty.format_type, FormatType::Auto);

    let left = parse_spec("<10d");
    assert_eq!(left.align, Align::Left);
    assert_eq!(left.width, Some(10));
    assert_eq!(left.format_type, FormatType::Decimal);
}

#[test]
fn trailing_fraction_zeros_are_trimmed() {
    assert_eq!(trim_trailing_zeros("1.500"), "1.5");
    assert_eq!(trim_trailing_zeros("2.000"), "2");
    assert_eq!(trim_trailing_zeros("100"), "100");
    assert_eq!(format_with_commas("1234567.891"), "1,234,567.891");
    assert_eq!(format_with_commas("999"), "999");
}

#[test]
fn formatter_pads_and_places_sign_and_symbol() {
    assert_eq!(NumberFormatter::new("10d").assemble(false, "42", ""), "        42");
    assert_eq!(NumberFormatter::new("010d").assemble(false, "42", ""), "0000000042");
    assert_eq!(NumberFormatter::new("<10d").assemble(false, "42", ""), "42        ");
    assert_eq!(NumberFormatter::new("$,.0f").assemble(true, "1234", ""), "-$1,234");
    assert_eq!(NumberFormatter::new("+.1%").assemble(false, "12.5", "%"), "+12.5%");
    assert_eq!(NumberFormatter::new("^7").assemble(false, "1", "k"), "  1k   ");
    assert_eq!(NumberFormatter::new("~s").assemble(false, "1.500", "M"), "1.5M");
    assert_eq!(NumberFormatter::new("$,.2f").spec(), parse_spec("$,.2f"));
}

#[test]
fn whole_numbers_in_other_bases() {
    assert_eq!(integer_core(255, FormatType::Hex, Symbol::Hash), "0xff");
    assert_eq!(integer_core(255, FormatType::HexUpper, Symbol::NoSymbol), "FF");
    assert_eq!(integer_core(255, FormatType::HexUpper, Symbol::Hash), "0XFF");
    assert_eq!(integer_core(8, FormatType::Octal, Symbol::Hash), "0o10");
    assert_eq!(integer_core(5, FormatType::Binary, Symbol::Dollar), "101");
    assert_eq!(integer_core(42, FormatType::Decimal, Symbol::Hash), "42");
    assert_eq!(integer_core(0, FormatType::Hex, Symbol::NoSymbol), "0");
    assert_eq!(integer_core(u64::MAX, FormatType::Decimal, Symbol::NoSymbol), "18446744073709551615");
}

#[test]
fn oversized_width_is_refused() {
    assert_eq!(try_parse_spec("99999999999999999999999d"), None);
    assert_eq!(try_parse_spec(".99999999999999999999999f"), None);
    assert_eq!(try_parse_spec("10d"), Some(parse_spec("10d")));
    assert!(NumberFormatter::try_new("99999999999999999999999d").is_none());
    assert!(NumberFormatter::try_new(",.2f").is_some());
}

#[test]
fn padding_only_adds_fill_up_to_the_width() {
    let cases = [("10d", "42"), ("<10d", "42"), ("^10d", "42"), ("=+10d", "42"), ("*^9d", "123456"), ("3d", "12345")];
    for (spec, core) in cases {
        let out = NumberFormatter::new(spec).assemble(false, core, "");
        let body_len = if spec.contains('+') { core.len() + 1 } else { core.len() };
        let width = NumberFormatter::new(spec).spec().width.unwrap();
        assert_eq!(out.chars().count(), width.max(body_len), "{}", spec);
    }
    assert_eq!(NumberFormatter::new("=+10d").assemble(false, "42", ""), "+       42");
    assert_eq!(NumberFormatter::new("*^9d").assemble(true, "42", ""), "***-42***");
    assert_eq!(NumberFormatter::new("3d").assemble(false, "12345", ""), "12345");
}
