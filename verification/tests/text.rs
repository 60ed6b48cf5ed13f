use hypnos::notation::{read_requests, request_at, word_bounds, Counted};
use hypnos::pool::{read_for_effect, read_for_total, Reading, Scored};
use hypnos::report::{write_count, write_die, write_readings, write_reply};
use hypnos::text::{
    append_decimal, is_digit_char, is_space_char, number_at, read_chars, trim_bounds, unsigned_at,
};

fn chars(s: &str) -> Vec<char> {
    s.chars().collect()
}

#[test]
fn decimal_writing() {
    for (n, text) in [
        (0u64, "0"),
        (7, "7"),
        (10, "10"),
        (99, "99"),
        (100, "100"),
        (1950, "1950"),
        (1_000_000, "1000000"),
        (u64::MAX, "18446744073709551615"),
    ] {
        let mut out = String::from("n=");
        append_decimal(&mut out, n);
        assert_eq!(out, format!("n={}", text));
    }
}

#[test]
fn decimal_reading() {
    let c = chars("x0042y");
    assert_eq!(number_at(&c, 1, 5), Some(42));
    assert_eq!(number_at(&c, 1, 1), None);
    assert_eq!(number_at(&c, 0, 5), None);
    assert_eq!(number_at(&c, 1, 6), None);
    let big = chars("18446744073709551615");
    assert_eq!(number_at(&big, 0, big.len()), Some(u64::MAX));
    let bigger = chars("18446744073709551616");
    assert_eq!(number_at(&bigger, 0, bigger.len()), Some(u64::MAX));
    assert_eq!(unsigned_at(&big, 0, big.len()), Some(u64::MAX));
    assert_eq!(unsigned_at(&bigger, 0, bigger.len()), None);
    let huge = chars("99999999999999999999999999999");
    assert_eq!(number_at(&huge, 0, huge.len()), Some(u64::MAX));
    assert_eq!(unsigned_at(&huge, 0, huge.len()), None);
    let other = chars("٣");
    assert_eq!(number_at(&other, 0, 1), None);
    let plus = chars("+15");
    assert_eq!(unsigned_at(&plus, 0, 3), Some(15));
    assert_eq!(unsigned_at(&plus, 1, 3), Some(15));
    assert_eq!(unsigned_at(&plus, 0, 1), None);
    assert_eq!(number_at(&plus, 0, 3), None);
}

#[test]
fn what_is_written_reads_back() {
    for n in [0u64, 1, 9, 10, 11, 12345, 1_000_000, u64::MAX - 1, u64::MAX] {
        let mut out = String::new();
        append_decimal(&mut out, n);
        let c = chars(&out);
        assert_eq!(number_at(&c, 0, c.len()), Some(n));
        assert_eq!(unsigned_at(&c, 0, c.len()), Some(n));
    }
}

#[test]
fn character_kinds() {
    for c in [' ', '\t', '\n', '\u{b}', '\u{c}', '\r', '\u{85}', '\u{a0}', '\u{1680}', '\u{2000}',
        '\u{2005}', '\u{200a}', '\u{2028}', '\u{2029}', '\u{202f}', '\u{205f}', '\u{3000}']
    {
        assert!(is_space_char(c), "{:?}", c);
        assert!(c.is_whitespace());
    }
    for c in ['a', '0', '\u{8}', '\u{e}', '\u{200b}', '\u{feff}', '\u{180e}', '\u{2060}'] {
        assert!(!is_space_char(c), "{:?}", c);
        assert!(!c.is_whitespace());
    }
    for c in '0'..='9' {
        assert!(is_digit_char(c));
    }
    for c in ['/', ':', 'a', ' ', '٣', '²'] {
        assert!(!is_digit_char(c));
    }
}

#[test]
fn space_is_what_the_standard_library_calls_white_space() {
    for code in 0..=0x3100u32 {
        if let Some(c) = char::from_u32(code) {
            assert_eq!(is_space_char(c), c.is_whitespace(), "{:?}", c);
        }
    }
}

#[test]
fn trimming() {
    let c = chars("  ab c \n");
    assert_eq!(trim_bounds(&c, 0, c.len()), (2, 6));
    assert_eq!(trim_bounds(&c, 2, 6), (2, 6));
    assert_eq!(trim_bounds(&c, 4, 8), (5, 6));
    let blank = chars(" \t ");
    let (from, to) = trim_bounds(&blank, 0, 3);
    assert_eq!(from, to);
    assert_eq!(trim_bounds(&blank, 1, 1), (1, 1));
    assert_eq!(read_chars("héllo"), chars("héllo"));
    assert_eq!(read_chars(""), Vec::<char>::new());
}

#[test]
fn words_of_a_text() {
    assert_eq!(word_bounds(&chars("")), vec![]);
    assert_eq!(word_bounds(&chars("   ")), vec![]);
    assert_eq!(word_bounds(&chars("ab")), vec![(0, 2)]);
    assert_eq!(word_bounds(&chars(" ab  cde f ")), vec![(1, 3), (5, 8), (9, 10)]);
    assert_eq!(word_bounds(&chars("é\u{a0}x")), vec![(0, 1), (2, 3)]);
}

#[test]
fn requests_in_words() {
    let c = chars("3d6 d8 12 2d5");
    assert_eq!(request_at(&c, 0, 3, 12), Some(Counted { count: 3, sides: 6 }));
    assert_eq!(request_at(&c, 4, 6, 12), Some(Counted { count: 1, sides: 8 }));
    assert_eq!(request_at(&c, 7, 9, 12), Some(Counted { count: 1, sides: 12 }));
    assert_eq!(request_at(&c, 7, 9, 10), None);
    assert_eq!(request_at(&c, 10, 13, 12), None);
    assert_eq!(request_at(&c, 0, 2, 12), None);
    assert_eq!(request_at(&c, 3, 3, 12), None);
    assert_eq!(
        read_requests("2d4 10", 10).ok().unwrap(),
        vec![Counted { count: 2, sides: 4 }, Counted { count: 1, sides: 10 }]
    );
    assert_eq!(
        read_requests("2d4 12", 10).err().unwrap(),
        "Expected 12 to be like XdY, e.g. 3d6 or 1d8"
    );
    assert_eq!(read_requests("d4", 3).err().unwrap(), "Expected d4 to be like XdY, e.g. 3d6 or 1d8");
    assert_eq!(read_requests("d4", 4).ok().unwrap(), vec![Counted { count: 1, sides: 4 }]);
}

fn scored(value: u64, sides: u64) -> Scored {
    Scored { value, sides }
}

#[test]
fn pools_read_both_ways() {
    assert_eq!(read_for_effect(vec![]), None);
    assert_eq!(read_for_total(vec![]), None);
    assert_eq!(read_for_effect(vec![scored(3, 8)]), Some(Reading { total: 3, effect: 4 }));
    assert_eq!(read_for_total(vec![scored(3, 8)]), Some(Reading { total: 3, effect: 4 }));
    let pool = vec![scored(1, 4), scored(2, 6), scored(3, 8)];
    assert_eq!(read_for_effect(pool.clone()), Some(Reading { total: 3, effect: 8 }));
    assert_eq!(read_for_total(pool), Some(Reading { total: 5, effect: 4 }));
    let ties = vec![scored(5, 8), scored(5, 6), scored(5, 8), scored(1, 8), scored(5, 12)];
    assert_eq!(read_for_effect(ties.clone()), Some(Reading { total: 10, effect: 12 }));
    assert_eq!(read_for_total(ties), Some(Reading { total: 10, effect: 12 }));
    let ties = vec![scored(5, 8), scored(5, 6), scored(5, 4), scored(5, 6)];
    assert_eq!(read_for_effect(ties.clone()), Some(Reading { total: 10, effect: 8 }));
    assert_eq!(read_for_total(ties), Some(Reading { total: 10, effect: 8 }));
    let ties = vec![scored(5, 8), scored(6, 8), scored(5, 4)];
    assert_eq!(read_for_effect(ties.clone()), Some(Reading { total: 11, effect: 8 }));
    assert_eq!(read_for_total(ties), Some(Reading { total: 11, effect: 8 }));
}

#[test]
fn words_of_a_report() {
    assert_eq!(write_die(6), "d6");
    assert_eq!(write_count(0, " Glitches!\n"), "");
    assert_eq!(write_count(3, " Glitches!\n"), "3 Glitches!\n");
    assert_eq!(write_readings(7, 8, 7, 8), "Total: 7 (effect d8)");
    assert_eq!(
        write_readings(7, 8, 7, 6),
        "Best effect: 7 (effect d8)\nBest total: 7 (effect d6)\n"
    );
    assert_eq!(
        write_readings(7, 8, 9, 8),
        "Best effect: 7 (effect d8)\nBest total: 9 (effect d8)\n"
    );
    assert_eq!(write_reply("d4", " \n 3 (d4) \n\nx\n ", "s"), "Rolling d4\n\nResult: 3 (d4) \n\nx");
    assert_eq!(write_reply("d4", "   ", "s"), "Rolling d4\n\nResult: ");
    let fits = "y".repeat(1930);
    assert_eq!(write_reply("d4", &fits, "s"), format!("Rolling d4\n\nResult: {}", fits));
    let long = "y".repeat(1931);
    assert_eq!(
        write_reply("d4", &long, "s"),
        "Roll d4?? hoo.. that's a lot. I don't wanna flood the chat here, so, uh, I'll give you the quick summary:\n\ns"
    );
}
