//! Numbers, texts and orders.

use agcavc104test::model::PointView;
use agcavc104test::number::{Real, Sample};
use agcavc104test::table::{current_types_compatible, sort_by_address, sort_by_rank};
use agcavc104test::text::{
    cat_hex_octet, cat_number, cat_signed, decimal_text, is_blank, join, parse_unsigned, same_text,
    text_at_most, trim, with_char, without_last, word,
};

fn number(value: f64) -> Real {
    Real { double: value.to_bits(), single: (value as f32).to_bits() }
}

#[test]
fn comparisons_agree_with_floating_point() {
    let values = [
        f64::NEG_INFINITY,
        -1e300,
        -1.5,
        -f64::MIN_POSITIVE,
        -0.0,
        0.0,
        5e-324,
        0.5,
        1.0,
        1e300,
        f64::INFINITY,
        f64::NAN,
    ];
    for left in values {
        for right in values {
            assert_eq!(number(left).at_most(number(right)), left <= right, "{left} {right}");
            assert_eq!(number(left).equals(number(right)), left == right, "{left} {right}");
        }
        assert_eq!(number(left).is_finite(), left.is_finite());
    }
}

#[test]
fn integers_are_recognized() {
    assert_eq!(number(-32_768.0).small_integer(), Some(-32_768));
    assert_eq!(number(0.5).small_integer(), None);
    assert_eq!(number(-0.0).small_integer(), Some(0));
    assert!(number(1.0).is_integer(1));
    assert!(!number(1.5).is_integer(1));
    assert!(number(32_767.0).is_integer_within(-32_768, 32_767));
    assert!(!number(32_768.0).is_integer_within(-32_768, 32_767));
    for value in [-7, 0, 1, 91, -32_768, 16_777_215] {
        assert_eq!(Real::from_integer(value), number(f64::from(value)));
    }
    for value in [i32::MAX, i32::MIN] {
        assert_eq!(Real::from_integer(value).double, f64::from(value).to_bits());
    }
}

#[test]
fn conversions_saturate_like_casts() {
    for value in [0.0, -0.4, 3.9, -3.9, 1e9, -1e9, 1e300, -1e300, f64::NAN, f64::INFINITY] {
        assert_eq!(number(value).saturating_i16(), value as i16, "{value}");
        assert_eq!(number(value).saturating_i32(), value as i32, "{value}");
    }
}

#[test]
fn singles_widen_to_the_same_value() {
    for value in [0.0f32, -0.0, 1.5, -2.25, f32::MIN_POSITIVE, 1e-45, f32::MAX, f32::INFINITY] {
        assert_eq!(Real::from_single(value.to_bits()), number(f64::from(value)), "{value}");
    }
}

#[test]
fn integer_samples_are_rendered() {
    let sample = Sample::from_integer(-12);
    assert_eq!(sample.plain, "-12");
    assert_eq!(sample.rounded, "-12");
    assert_eq!(sample.fixed, "-12.000");
    assert_eq!(Sample::of_state(true).plain, "1");
}

#[test]
fn texts_are_built_from_numbers() {
    assert_eq!(cat_number("n=".to_owned(), u64::MAX), "n=18446744073709551615");
    assert_eq!(cat_signed("n=".to_owned(), i64::MIN), "n=-9223372036854775808");
    assert_eq!(cat_hex_octet("0x".to_owned(), 0xA5), "0xA5");
    assert_eq!(join(&vec!["a".to_owned(), "b".to_owned()], "；"), "a；b");
    assert_eq!(join(&Vec::new(), ", "), "");
}

#[test]
fn fields_are_read_like_the_parser_of_the_language() {
    for text in ["0", "+7", "007", "255", "256", "-1", "", "+", "1 ", "x", "18446744073709551616"] {
        assert_eq!(
            parse_unsigned(text, 255),
            text.parse::<u8>().ok().map(u64::from),
            "{text}"
        );
        assert_eq!(parse_unsigned(text, u64::MAX), text.parse::<u64>().ok(), "{text}");
    }
}

#[test]
fn white_space_ends_words() {
    for text in ["", "  ", " a", "a b", "\t1 / 合", "\u{3000}字 x", "abc"] {
        assert_eq!(trim(text), text.trim());
        assert_eq!(word(text), text.split_whitespace().next().unwrap_or_default());
    }
}

#[test]
fn characters_are_added_and_removed_at_the_end() {
    assert_eq!(with_char("值", '1'), "值1");
    assert_eq!(without_last("值1"), "值");
    assert_eq!(without_last("值"), "");
    assert_eq!(without_last(""), "");
}

#[test]
fn texts_are_ordered_by_their_characters() {
    for left in ["", "M_SP_NA_1", "M_SP_TB_1", "M", "单", "a"] {
        for right in ["", "M_SP_NA_1", "M_SP_TB_1", "M", "单", "a"] {
            assert_eq!(text_at_most(left, right), left <= right, "{left} {right}");
            assert_eq!(same_text(left, right), left == right);
        }
    }
}

fn point(ioa: u32, type_id: &str, name: &str, configured: bool) -> PointView {
    PointView {
        ioa,
        name: name.to_owned(),
        type_id: type_id.to_owned(),
        kind_name: "类型".to_owned(),
        value: None,
        quality: "GOOD".to_owned(),
        updated_ms: None,
        configured,
    }
}

fn names(rows: &[PointView]) -> Vec<&str> {
    rows.iter().map(|row| row.name.as_str()).collect()
}

#[test]
fn sorting_is_stable() {
    let rows = vec![
        point(2, "M_SP_NA_1", "a", false),
        point(1, "M_SP_NA_1", "b", false),
        point(2, "M_DP_NA_1", "c", true),
        point(1, "M_DP_NA_1", "d", false),
    ];
    assert_eq!(names(&sort_by_address(rows)), vec!["b", "d", "a", "c"]);
    let rows = vec![
        point(2, "M_SP_NA_1", "a", false),
        point(1, "M_SP_NA_1", "b", false),
        point(2, "M_ME_NC_1", "c", true),
        point(1, "M_DP_NA_1", "d", false),
    ];
    assert_eq!(names(&sort_by_rank(rows)), vec!["d", "b", "c", "a"]);
}

#[test]
fn types_with_and_without_time_tags_share_a_row() {
    assert!(current_types_compatible("M_SP_NA_1", "M_SP_TB_1"));
    assert!(current_types_compatible("M_DP_TB_1", "M_DP_NA_1"));
    assert!(current_types_compatible("M_ME_NC_1", "M_ME_NC_1"));
    assert!(!current_types_compatible("M_SP_NA_1", "M_DP_TB_1"));
    assert!(!current_types_compatible("M_SP_NA_1", "M_DP_NA_1"));
}

#[test]
fn blank_texts_are_those_of_white_space() {
    for c in (0..=0x10_FFFF_u32).filter_map(char::from_u32) {
        let listed = matches!(
            c,
            '\t'..='\r'
                | ' '
                | '\u{85}'
                | '\u{A0}'
                | '\u{1680}'
                | '\u{2000}'..='\u{200A}'
                | '\u{2028}'
                | '\u{2029}'
                | '\u{202F}'
                | '\u{205F}'
                | '\u{3000}'
        );
        assert_eq!(is_blank(&c.to_string()), listed, "{c:?}");
    }
}

#[test]
fn digits_are_read_back() {
    for value in [0, 7, 10, 201, 65_535, 16_777_215, u64::MAX] {
        let text = decimal_text(u128::from(value));
        assert_eq!(text, value.to_string());
        assert_eq!(parse_unsigned(trim(&format!(" {text}\t")), u64::MAX), Some(value));
    }
}

#[test]
fn integers_have_the_nearest_single() {
    let mut numbers: Vec<i32> = vec![0, 1, -1, i32::MIN, i32::MAX];
    for shift in 22..31 {
        for offset in -300..300 {
            numbers.push((1i32 << shift) + offset);
            numbers.push(-(1i32 << shift) - offset);
        }
    }
    for number in numbers {
        let found = Sample::from_integer(number).value;
        assert_eq!(found.double, f64::from(number).to_bits(), "{number}");
        assert_eq!(found.single, (number as f32).to_bits(), "{number}");
    }
}
