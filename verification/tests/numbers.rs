use sch_hierarchy::numeral::{format_fixed, parse_u32, to_decimal};
use sch_hierarchy::text::{find, find_char, find_last, same_text, slice_text, to_chars};

#[test]
fn page_numbers_read_as_they_are_written() {
    for text in ["0", "7", "+7", "007", "4294967295", "4294967296", "", "+", "-1", "1x", " 1", "++1", "99999999999999999999"] {
        assert_eq!(parse_u32(text), text.parse::<u32>().ok(), "{text:?}");
    }
    for n in [0u32, 9, 10, 4294967295] {
        assert_eq!(parse_u32(&to_decimal(n as u128)), Some(n));
    }
    assert_eq!(to_decimal(u128::MAX), u128::MAX.to_string());
}

#[test]
fn lengths_are_written_shortest() {
    let unit: i128 = 1_000_000_000_000;
    assert_eq!(format_fixed(0), "0");
    assert_eq!(format_fixed(50 * unit), "50");
    assert_eq!(format_fixed(-50 * unit), "-50");
    assert_eq!(format_fixed(100 * unit + 80 * unit / 100), "100.8");
    assert_eq!(format_fixed(-unit / 2), "-0.5");
    assert_eq!(format_fixed(1), "0.000000000001");
    assert_eq!(format_fixed(130_000_000_400_000), "130.0000004");
    for v in [52.54, 98.26, 131.28, 0.1, 75.0] {
        let fixed = (v * 1e12f64).round() as i128;
        assert_eq!(format_fixed(fixed), format!("{v}"));
    }
}

#[test]
fn searching_finds_first_and_last() {
    let chars = to_chars("abcabc");
    let pattern = to_chars("bc");
    assert_eq!(find(&chars, &pattern, 0), Some(1));
    assert_eq!(find(&chars, &pattern, 2), Some(4));
    assert_eq!(find(&chars, &pattern, 5), None);
    assert_eq!(find_last(&chars, &pattern), Some(4));
    assert_eq!(find_last(&chars, &to_chars("x")), None);
    assert_eq!(find_char(&chars, 'c', 3), Some(5));
    assert_eq!(find_char(&chars, 'z', 0), None);
    assert_eq!(slice_text(&chars, 1, 3), "bc");
    assert!(same_text("é", "é") && !same_text("e", "é"));
}
