use rich_media_viewer::text::{
    concat2, concat3, contains_char, eq_ignore_ascii_case, is_text_less, is_whitespace, parse_hex,
    parse_usize, starts_with, strip_prefix, take_chars, text_eq, text_of, chars_of, to_ascii_lowercase,
    to_decimal, to_signed_decimal, trim, trim_start_matches,
};

#[test]
fn lower_case_touches_ascii_only() {
    assert_eq!(to_ascii_lowercase("JPG-ÄÖ-Zz9"), "jpg-ÄÖ-zz9");
    assert!(eq_ignore_ascii_case("FastEmbed", "fastembed"));
    assert!(!eq_ignore_ascii_case("Ä", "ä"));
    assert!(!eq_ignore_ascii_case("abc", "abcd"));
}

#[test]
fn trim_takes_unicode_white_space() {
    for sample in [
        "", " ", "\t a b \n", "\u{a0}x\u{3000}", "x", "\u{2003}\u{2028}y z\u{85}", "\u{200b}q",
    ] {
        assert_eq!(trim(sample), sample.trim(), "{sample:?}");
    }
}

#[test]
fn white_space_agrees_with_the_standard_library() {
    let mut code: u32 = 0;
    while code < 0x11000 {
        if let Some(c) = char::from_u32(code) {
            assert_eq!(is_whitespace(c), c.is_whitespace(), "{code:x}");
        }
        code += 1;
    }
}

#[test]
fn prefixes_are_found_and_taken_off() {
    assert!(starts_with("facetile_1", "facetile"));
    assert!(!starts_with("face", "facetile"));
    assert_eq!(strip_prefix("--x", "--").as_deref(), Some("x"));
    assert_eq!(strip_prefix("-x", "--"), None);
    assert_eq!(trim_start_matches("..jpg.", '.'), "jpg.");
    assert_eq!(trim_start_matches("jpg", '.'), "jpg");
}

#[test]
fn pieces_of_text_are_cut_and_joined() {
    assert_eq!(take_chars("größe", 4), "größ");
    assert_eq!(take_chars("ab", 4), "ab");
    let chars = chars_of("größe");
    assert_eq!(text_of(&chars, 1, 3), "rö");
    assert_eq!(concat2("a", "b"), "ab");
    assert_eq!(concat3("a", "ü", "c"), "aüc");
    assert!(contains_char("N/S", 'S'));
    assert!(!contains_char("north", 'S'));
}

#[test]
fn numbers_are_written_in_decimal() {
    assert_eq!(to_decimal(0), "0");
    assert_eq!(to_decimal(1234567890), "1234567890");
    assert_eq!(to_decimal(u128::MAX), u128::MAX.to_string());
    assert_eq!(to_signed_decimal(-17), "-17");
    assert_eq!(to_signed_decimal(i64::MIN as i128), i64::MIN.to_string());
}

#[test]
fn counts_are_read_as_the_standard_library_reads_them() {
    for sample in [
        "", "0", "7", "+7", "++7", "-1", " 4", "4 ", "18446744073709551615",
        "18446744073709551616", "000012", "1x", "+", "٣",
    ] {
        assert_eq!(parse_usize(sample), sample.parse::<usize>().ok(), "{sample:?}");
    }
}

#[test]
fn hexadecimal_is_read_as_the_standard_library_reads_it() {
    for sample in [
        "", "0", "ff", "FF", "+a", "g", "0x10", "ffffffffffffffffffffffffffffffff",
        "1ffffffffffffffffffffffffffffffff", "-1", " 1",
    ] {
        assert_eq!(parse_hex(sample), u128::from_str_radix(sample, 16).ok(), "{sample:?}");
    }
}

#[test]
fn text_order_is_that_of_the_standard_library() {
    let samples = ["", "a", "A", "ab", "b", "ä", "Z", "\u{ffff}", "\u{10000}", "a\u{0}"];
    for a in samples {
        for b in samples {
            assert_eq!(is_text_less(a, b), a < b, "{a:?} {b:?}");
        }
    }
}

#[test]
fn text_order_is_total_and_irreflexive() {
    assert!(!is_text_less("same", "same"));
    assert!(is_text_less("a", "b") && is_text_less("b", "c") && is_text_less("a", "c"));
    assert!(is_text_less("b.jpg", "c.jpg") != is_text_less("c.jpg", "b.jpg"));
}

#[test]
fn texts_are_equal_by_their_characters() {
    for a in ["", "a", "ab", "\u{e4}", "a\u{308}", "b"] {
        for b in ["", "a", "ab", "\u{e4}", "a\u{308}", "b"] {
            assert_eq!(text_eq(a, b), a == b, "{a:?} {b:?}");
        }
    }
}
