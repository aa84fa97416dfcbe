use rust_lcd::decimal::{parse_i32, render_i32};

fn std_parse(text: &str) -> Option<i32> {
    text.trim().parse::<i32>().ok()
}

#[test]
fn parse_skips_surrounding_whitespace() {
    assert_eq!(parse_i32("  1 \n"), Some(1));
}

#[test]
fn parse_rejects_letters() {
    assert_eq!(parse_i32("abc"), None);
}

#[test]
fn parse_plain_states() {
    assert_eq!(parse_i32("0"), Some(0));
    assert_eq!(parse_i32("1"), Some(1));
    assert_eq!(parse_i32("0\n"), Some(0));
    assert_eq!(parse_i32("1\n"), Some(1));
    assert_eq!(parse_i32("4"), Some(4));
}

#[test]
fn parse_signs() {
    assert_eq!(parse_i32("+5"), Some(5));
    assert_eq!(parse_i32("-5"), Some(-5));
    assert_eq!(parse_i32("-0"), Some(0));
    assert_eq!(parse_i32("+0"), Some(0));
    assert_eq!(parse_i32("+"), None);
    assert_eq!(parse_i32("-"), None);
    assert_eq!(parse_i32("--1"), None);
    assert_eq!(parse_i32("+-1"), None);
    assert_eq!(parse_i32("-+1"), None);
    assert_eq!(parse_i32("1-"), None);
    assert_eq!(parse_i32("- 1"), None);
}

#[test]
fn parse_empty_and_blank() {
    assert_eq!(parse_i32(""), None);
    assert_eq!(parse_i32(" "), None);
    assert_eq!(parse_i32("\n"), None);
    assert_eq!(parse_i32(" \t\r\n "), None);
}

#[test]
fn parse_leading_zeros() {
    assert_eq!(parse_i32("0001"), Some(1));
    assert_eq!(parse_i32("-0001"), Some(-1));
    assert_eq!(parse_i32("00000000000000000000000000000000000000007"), Some(7));
    assert_eq!(parse_i32("00000000000000000000002147483647"), Some(i32::MAX));
    assert_eq!(parse_i32("00000000000000000000002147483648"), None);
}

#[test]
fn parse_limits_of_i32() {
    assert_eq!(parse_i32("2147483647"), Some(i32::MAX));
    assert_eq!(parse_i32("+2147483647"), Some(i32::MAX));
    assert_eq!(parse_i32("2147483648"), None);
    assert_eq!(parse_i32("-2147483648"), Some(i32::MIN));
    assert_eq!(parse_i32("-2147483649"), None);
    assert_eq!(parse_i32("21474836470"), None);
    assert_eq!(parse_i32("99999999999999999999999999999999"), None);
    assert_eq!(parse_i32("-99999999999999999999999999999999"), None);
    assert_eq!(parse_i32("9223372036854775808"), None);
    assert_eq!(parse_i32("18446744073709551617"), None);
}

#[test]
fn parse_rejects_what_is_no_decimal() {
    assert_eq!(parse_i32("1 2"), None);
    assert_eq!(parse_i32("1.0"), None);
    assert_eq!(parse_i32("1e3"), None);
    assert_eq!(parse_i32("0x10"), None);
    assert_eq!(parse_i32("1_000"), None);
    assert_eq!(parse_i32("12a"), None);
    assert_eq!(parse_i32("a12"), None);
    assert_eq!(parse_i32("\u{ff11}"), None);
    assert_eq!(parse_i32("\u{0661}"), None);
    assert_eq!(parse_i32("1\u{0}"), None);
    assert_eq!(parse_i32("99999999999999999999x"), None);
}

#[test]
fn parse_skips_unicode_whitespace() {
    assert_eq!(parse_i32("\u{a0}7\u{3000}"), Some(7));
    assert_eq!(parse_i32("\u{2003}\u{2028}-12\u{85}\u{1680}"), Some(-12));
    assert_eq!(parse_i32("\u{b}\u{c}3"), Some(3));
    assert_eq!(parse_i32("\u{200b}3"), None);
    assert_eq!(parse_i32("\u{180e}3"), None);
    assert_eq!(parse_i32("\u{feff}3"), None);
    assert_eq!(parse_i32("3\u{1c}"), None);
}

#[test]
fn parse_agrees_with_std_on_samples() {
    let samples = [
        "", " ", "0", "1", " 1", "1 ", "\t1\n", "\r\n12\r\n", "+7", "-7", "++7", "007", "-007",
        "2147483647", "2147483648", "-2147483648", "-2147483649", "4294967296", "abc", "1a", "a1",
        "1 1", "١", "１", "+", "-", " + 1", "0 ", " 0", "1\n\n", "\n\n1", "on", "off", "1\0",
        "\u{a0}1", "1\u{a0}", "\u{2000}1\u{200a}", "\u{2007}5", "\u{202f}5", "\u{205f}5",
        "\u{200b}5", "\u{2060}5", "5\u{1d}", "-00000000000000000000000000000000002147483648",
    ];
    for text in samples {
        assert_eq!(parse_i32(text), std_parse(text), "text {:?}", text);
    }
}

#[test]
fn parse_agrees_with_std_on_every_character_before_and_after() {
    for code in 0u32..=0x10ffff {
        if let Some(c) = char::from_u32(code) {
            let before = format!("{}7", c);
            assert_eq!(parse_i32(&before), std_parse(&before), "text {:?}", before);
            let after = format!("7{}", c);
            assert_eq!(parse_i32(&after), std_parse(&after), "text {:?}", after);
        }
    }
}

#[test]
fn parse_agrees_with_std_on_every_character_alone() {
    for code in 0u32..=0x10ffff {
        if let Some(c) = char::from_u32(code) {
            let alone = c.to_string();
            assert_eq!(parse_i32(&alone), std_parse(&alone), "text {:?}", alone);
        }
    }
}

#[test]
fn render_small_values() {
    assert_eq!(render_i32(0), "0");
    assert_eq!(render_i32(1), "1");
    assert_eq!(render_i32(9), "9");
    assert_eq!(render_i32(10), "10");
    assert_eq!(render_i32(-1), "-1");
    assert_eq!(render_i32(-10), "-10");
    assert_eq!(render_i32(1000), "1000");
    assert_eq!(render_i32(1234567890), "1234567890");
}

#[test]
fn render_limits_of_i32() {
    assert_eq!(render_i32(i32::MAX), "2147483647");
    assert_eq!(render_i32(i32::MIN), "-2147483648");
    assert_eq!(render_i32(i32::MIN + 1), "-2147483647");
}

#[test]
fn render_agrees_with_std() {
    let mut value: i64 = i32::MIN as i64;
    while value <= i32::MAX as i64 {
        let v = value as i32;
        assert_eq!(render_i32(v), v.to_string());
        value += 65_537;
    }
    for v in -1000..=1000 {
        assert_eq!(render_i32(v), v.to_string());
    }
}

#[test]
fn render_then_parse_gives_the_value_back() {
    let mut value: i64 = i32::MIN as i64;
    while value <= i32::MAX as i64 {
        let v = value as i32;
        assert_eq!(parse_i32(&render_i32(v)), Some(v));
        value += 99_991;
    }
    for v in [i32::MIN, i32::MIN + 1, -1, 0, 1, i32::MAX - 1, i32::MAX] {
        assert_eq!(parse_i32(&render_i32(v)), Some(v));
    }
}

#[test]
fn render_is_not_the_identity_on_text() {
    assert_eq!(render_i32(parse_i32("  007 ").unwrap()), "7");
    assert_eq!(render_i32(parse_i32("+5").unwrap()), "5");
    assert_eq!(render_i32(parse_i32("-0").unwrap()), "0");
}
