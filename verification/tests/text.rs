use g_mesh::number::{decimal_text, parse_number, parse_signed, signed_decimal_text};
use g_mesh::order::{comes_before, dedup_texts, order_of, sort_texts};
use g_mesh::text::{contains_part, join_texts, lines_of, split_first, split_on, strip_prefix, strip_suffix, trim};

const SAMPLES: [&str; 14] = [
    "", " ", "a", " a ", "\t\n a b \u{3000}", "a=b=c", "=", "\n", "a\nb", "a\r\nb\r", "\u{a0}x\u{2003}", "\u{1f600}z",
    "a\n\nb\n", "plain",
];

#[test]
fn texts_are_taken_apart_as_the_standard_library_takes_them_apart() {
    for s in SAMPLES {
        assert_eq!(trim(s), s.trim(), "{s:?}");
        assert_eq!(lines_of(s), s.lines().collect::<Vec<_>>(), "{s:?}");
        assert_eq!(split_on(s, 'a'), s.split('a').collect::<Vec<_>>(), "{s:?}");
        let once = s.split_once('=').map(|(a, b)| (a.to_string(), b.to_string()));
        assert_eq!(split_first(s, '='), once, "{s:?}");
        for t in SAMPLES {
            assert_eq!(strip_prefix(s, t), s.strip_prefix(t).map(|r| r.to_string()), "{s:?} {t:?}");
            assert_eq!(strip_suffix(s, t), s.strip_suffix(t).map(|r| r.to_string()), "{s:?} {t:?}");
            assert_eq!(contains_part(s, t), s.contains(t), "{s:?} {t:?}");
            assert_eq!(comes_before(s, t), s < t, "{s:?} {t:?}");
        }
    }
}

#[test]
fn every_white_space_character_is_trimmed_and_no_other() {
    for n in 0..=0x3100u32 {
        if let Some(c) = char::from_u32(n) {
            let s = c.to_string();
            assert_eq!(trim(&s).is_empty(), c.is_whitespace(), "{n:x}");
        }
    }
}

#[test]
fn numbers_are_read_as_the_standard_library_reads_them() {
    for s in ["", "+", "-", "0", "+0", "-0", "007", "+7", "++7", "12a", " 1", "18446744073709551615", "18446744073709551616",
        "00000000000000000000000000000000000000000000000000001", "99999999999999999999999999999999999999999999"]
    {
        assert_eq!(parse_number(s, u64::MAX as u128), s.parse::<u64>().ok().map(|n| n as u128), "{s:?}");
        assert_eq!(parse_signed(s), s.parse::<i64>().ok(), "{s:?}");
    }
    for s in ["-9223372036854775808", "-9223372036854775809", "9223372036854775807", "9223372036854775808", "-+1", "+-1"] {
        assert_eq!(parse_signed(s), s.parse::<i64>().ok(), "{s:?}");
    }
    assert_eq!(parse_number("340282366920938463463374607431768211455", u128::MAX), Some(u128::MAX));
    assert_eq!(parse_number("340282366920938463463374607431768211456", u128::MAX), None);
}

#[test]
fn numbers_are_written_as_the_standard_library_writes_them() {
    for n in [0u128, 1, 9, 10, 99, 100, 1234567890, u64::MAX as u128, u128::MAX] {
        assert_eq!(decimal_text(n), n.to_string());
    }
    for n in [0i64, -1, 5, -10, i64::MAX, i64::MIN] {
        assert_eq!(signed_decimal_text(n), n.to_string());
    }
}

#[test]
fn lists_are_sorted_and_stripped_of_repeats() {
    let mixed: Vec<String> = ["b", "a", "", "b", "ab", "\u{1f600}", "\u{ffff}", "a"].iter().map(|s| s.to_string()).collect();
    let mut expected = mixed.clone();
    expected.sort();
    assert_eq!(sort_texts(&mixed), expected);
    expected.dedup();
    assert_eq!(dedup_texts(&sort_texts(&mixed)), expected);
    assert_eq!(order_of(&mixed), vec![2, 1, 7, 4, 0, 3, 6, 5]);
    assert_eq!(join_texts(&mixed[..2].to_vec(), ", "), "b, a");
    assert_eq!(join_texts(&Vec::new(), ", "), "");
}
