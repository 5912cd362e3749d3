use pmtiler::numbers::{
    format_bytes, format_count, format_degrees, parse_i32, parse_u32, parse_u8, parse_unsigned,
    parse_usize,
};
use pmtiler::order::{arrange, stable_order};
use pmtiler::text::{
    chars_of, decimal_text, push_decimal, split, split_once, strip_prefix, text_eq, text_of,
    to_lower,
};

fn shown_by_floats(bytes: u64) -> String {
    let units = ["B", "KiB", "MiB", "GiB", "TiB"];
    let mut size = bytes as f64;
    let mut unit = 0;
    while size >= 1024.0 && unit < units.len() - 1 {
        size /= 1024.0;
        unit += 1;
    }
    if unit == 0 {
        format!("{bytes} {}", units[unit])
    } else {
        format!("{size:.1} {}", units[unit])
    }
}

#[test]
fn counts_are_grouped() {
    assert_eq!(format_count(0), "0");
    assert_eq!(format_count(999), "999");
    assert_eq!(format_count(1000), "1,000");
    assert_eq!(format_count(92_612), "92,612");
    assert_eq!(format_count(1_000_042), "1,000,042");
    assert_eq!(format_count(u64::MAX), "18,446,744,073,709,551,615");
    assert_eq!(format_count(u64::MAX).replace(',', ""), u64::MAX.to_string());
}

#[test]
fn bytes_are_shown_in_units() {
    assert_eq!(format_bytes(0), "0 B");
    assert_eq!(format_bytes(1023), "1023 B");
    assert_eq!(format_bytes(1024), "1.0 KiB");
    assert_eq!(format_bytes(525_312), "513.0 KiB");
    assert_eq!(format_bytes(3_411_987_210), "3.2 GiB");
    assert_eq!(format_bytes(1 << 40), "1.0 TiB");
    assert_eq!(format_bytes(u64::MAX), "16777216.0 TiB");
}

#[test]
fn bytes_are_rounded_as_doubles_are() {
    let mut cases = vec![1076, 1075, 1077, 1_048_575, 1_048_576, (1 << 30) - 1, u64::MAX - 1];
    // Halfway between two tenths.
    for unit in [1u64 << 10, 1 << 20, 1 << 30, 1 << 40] {
        for twentieths in [21u64, 23, 25, 27, 30, 1001, 19_999] {
            cases.push(unit / 20 * twentieths);
            cases.push(unit * twentieths / 20);
        }
        for quarters in 4..40 {
            cases.push(unit / 4 * quarters);
        }
    }
    // Numbers that a double cannot hold.
    for k in 53..64 {
        for d in 0..5 {
            cases.push((1u64 << k) + d);
            cases.push((1u64 << k) - 1 - d);
        }
    }
    let mut state = 88_172_645_463_325_252u64;
    for _ in 0..2000 {
        state ^= state << 13;
        state ^= state >> 7;
        state ^= state << 17;
        cases.push(state);
        cases.push(state >> (state % 60));
    }
    for bytes in cases {
        assert_eq!(format_bytes(bytes), shown_by_floats(bytes), "{bytes}");
    }
}

#[test]
fn degrees_have_seven_places() {
    assert_eq!(format_degrees(0), "0.0000000");
    assert_eq!(format_degrees(-1_800_000_000), "-180.0000000");
    assert_eq!(format_degrees(850_511_288), "85.0511288");
    assert_eq!(format_degrees(-5), "-0.0000005");
    for e7 in [i32::MIN, i32::MAX, -1, 1, 1_234_567_891, -987_654_321, 10_000_000] {
        assert_eq!(format_degrees(e7), format!("{:.7}", f64::from(e7) / 10_000_000.0));
    }
}

#[test]
fn integers_are_read() {
    for text in ["0", "7", "255", "+9", "007", "256", "", "+", "-1", "1a", " 1", "٣", "4294967296"] {
        assert_eq!(parse_u8(text), text.parse().ok());
        assert_eq!(parse_u32(text), text.parse().ok());
        assert_eq!(parse_usize(text), text.parse().ok());
        assert_eq!(parse_i32(text), text.parse().ok());
    }
    for text in ["-2147483648", "-2147483649", "2147483647", "2147483648", "-0", "--1", "+-1"] {
        assert_eq!(parse_i32(text), text.parse().ok());
    }
    assert_eq!(parse_unsigned("18446744073709551615", u64::MAX), Some(u64::MAX));
    assert_eq!(parse_unsigned("18446744073709551616", u64::MAX), None);
    assert_eq!(parse_unsigned("12", 11), None);
}

#[test]
fn texts_are_taken_apart() {
    assert_eq!(chars_of("aé"), vec!['a', 'é']);
    assert_eq!(text_of(&vec!['a', 'é', 'c'], 1, 3), "éc");
    assert!(text_eq("abc", "abc") && !text_eq("abc", "abd"));
    assert_eq!(strip_prefix("--zoom=3", "--zoom=").as_deref(), Some("3"));
    assert_eq!(strip_prefix("--zo", "--zoom="), None);
    assert_eq!(split_once("a=b=c", '='), Some(("a".to_owned(), "b=c".to_owned())));
    assert_eq!(split_once("abc", '='), None);
    assert_eq!(split(",a,,b", ','), vec!["", "a", "", "b"]);
    assert_eq!(split("", ','), vec![""]);
    assert_eq!(to_lower("ÄbC-Z@["), "Äbc-z@[");
    assert_eq!(decimal_text(u64::MAX), u64::MAX.to_string());
    let mut text = "z".to_owned();
    push_decimal(&mut text, 10);
    assert_eq!(text, "z10");
}

#[test]
fn sorting_is_stable() {
    let keys = vec![5u128, 1, 5, 0, 1, u128::MAX, 5];
    let order = stable_order(&keys);
    assert_eq!(order, vec![3, 1, 4, 0, 2, 6, 5]);
    let items = vec!["a", "b", "c", "d", "e", "f", "g"];
    assert_eq!(arrange(items, &order), vec!["d", "b", "e", "a", "c", "g", "f"]);
    assert!(stable_order(&Vec::new()).is_empty());
}
