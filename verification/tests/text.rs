use http_server::numeral::{decimal_string, hex_string, read_u32};
use http_server::text::{
    chars_of, find_in, is_white_space, matches_at, split_on, str_eq, string_of, trimmed,
};

fn chars(s: &str) -> Vec<char> {
    s.chars().collect()
}

fn strings(parts: Vec<&[char]>) -> Vec<String> {
    parts.into_iter().map(|p| p.iter().collect()).collect()
}

#[test]
fn decimal_of_numbers() {
    assert_eq!(decimal_string(0), "0");
    assert_eq!(decimal_string(7), "7");
    assert_eq!(decimal_string(10), "10");
    assert_eq!(decimal_string(404), "404");
    assert_eq!(decimal_string(65535), "65535");
    assert_eq!(decimal_string(4294967295), "4294967295");
}

#[test]
fn hexadecimal_of_numbers() {
    assert_eq!(hex_string(0), "0");
    assert_eq!(hex_string(9), "9");
    assert_eq!(hex_string(10), "A");
    assert_eq!(hex_string(15), "F");
    assert_eq!(hex_string(16), "10");
    assert_eq!(hex_string(255), "FF");
    assert_eq!(hex_string(0xABCDEF), "ABCDEF");
    assert_eq!(hex_string(0x1234_5678), "12345678");
}

#[test]
fn reading_a_length() {
    assert_eq!(read_u32(&chars("0")), Some(0));
    assert_eq!(read_u32(&chars("42")), Some(42));
    assert_eq!(read_u32(&chars("+42")), Some(42));
    assert_eq!(read_u32(&chars("0042")), Some(42));
    assert_eq!(read_u32(&chars("4294967295")), Some(4294967295));
    assert_eq!(read_u32(&chars("4294967296")), None);
    assert_eq!(read_u32(&chars("")), None);
    assert_eq!(read_u32(&chars("+")), None);
    assert_eq!(read_u32(&chars("-1")), None);
    assert_eq!(read_u32(&chars("++1")), None);
    assert_eq!(read_u32(&chars("1+")), None);
    assert_eq!(read_u32(&chars("12a")), None);
    assert_eq!(read_u32(&chars(" 1")), None);
    assert_eq!(read_u32(&chars("\u{661}")), None);
}

#[test]
fn strings_and_characters() {
    assert_eq!(chars_of("h\u{e9}!"), vec!['h', '\u{e9}', '!']);
    assert_eq!(chars_of(""), Vec::<char>::new());
    assert_eq!(string_of(&['a', '\u{1F600}']), "a\u{1F600}");
    assert!(str_eq("abc", "abc"));
    assert!(str_eq("", ""));
    assert!(!str_eq("abc", "abd"));
    assert!(!str_eq("abc", "ab"));
    assert!(!str_eq("abc", "ABC"));
}

#[test]
fn finding_a_pattern() {
    let s = chars("a, b,, c");
    assert_eq!(find_in(&s, &chars(","), 0), Some(1));
    assert_eq!(find_in(&s, &chars(","), 2), Some(4));
    assert_eq!(find_in(&s, &chars(",,"), 0), Some(4));
    assert_eq!(find_in(&s, &chars(",,"), 5), None);
    assert_eq!(find_in(&s, &chars("x"), 0), None);
    assert_eq!(find_in(&s, &chars("c"), 7), Some(7));
    assert_eq!(find_in(&s, &chars("c"), 8), None);
    assert_eq!(find_in(&s, &chars("c"), 100), None);
    assert_eq!(find_in(&s, &chars("a, b,, c!"), 0), None);
    assert!(matches_at(&s, &chars(", b"), 1));
    assert!(!matches_at(&s, &chars(", b"), 0));
    assert!(!matches_at(&s, &chars("c"), 8));
    assert!(!matches_at(&s, &chars("c"), 100));
}

#[test]
fn splitting_at_a_separator() {
    assert_eq!(strings(split_on(&chars("a b c"), &chars(" "))), vec!["a", "b", "c"]);
    assert_eq!(strings(split_on(&chars("a  b"), &chars(" "))), vec!["a", "", "b"]);
    assert_eq!(strings(split_on(&chars(" a "), &chars(" "))), vec!["", "a", ""]);
    assert_eq!(strings(split_on(&chars(""), &chars(" "))), vec![""]);
    assert_eq!(strings(split_on(&chars("abc"), &chars(" "))), vec!["abc"]);
    assert_eq!(
        strings(split_on(&chars("x\r\ny\r\n\r\n"), &chars("\r\n"))),
        vec!["x", "y", "", ""]
    );
    assert_eq!(strings(split_on(&chars("aaa"), &chars("aa"))), vec!["", "a"]);
    assert_eq!(strings(split_on(&chars("abc"), &chars(""))), vec!["abc"]);
}

#[test]
fn trimming_white_space() {
    assert_eq!(trimmed(&chars("  a b \t\r\n")), &chars("a b")[..]);
    assert_eq!(trimmed(&chars("a")), &chars("a")[..]);
    assert_eq!(trimmed(&chars("   ")), &chars("")[..]);
    assert_eq!(trimmed(&chars("")), &chars("")[..]);
    assert_eq!(trimmed(&chars("\u{a0}x\u{2003}")), &chars("x")[..]);
    assert_eq!(trimmed(&chars("_ x _")), &chars("_ x _")[..]);
}

#[test]
fn white_space_is_what_unicode_says() {
    let mut count = 0;
    for code in 0..=0x10FFFFu32 {
        if let Some(c) = char::from_u32(code) {
            assert_eq!(is_white_space(c), c.is_whitespace(), "U+{:04X}", code);
            if is_white_space(c) {
                count += 1;
            }
        }
    }
    assert_eq!(count, 25);
}

#[test]
fn trimming_agrees_with_the_standard_library() {
    let samples = [
        "",
        " ",
        "a",
        " a",
        "a ",
        "\t a b \r\n",
        "\u{3000}x\u{205f}",
        "\u{200b}x\u{200b}",
        "\u{feff}x",
        "x\u{85}\u{1680}\u{2028}\u{2029}\u{202f}",
        "  \u{a0}  ",
    ];
    for sample in samples.iter() {
        let expected: Vec<char> = sample.trim().chars().collect();
        assert_eq!(trimmed(&chars(sample)), &expected[..], "{:?}", sample);
    }
}

#[test]
fn splitting_agrees_with_the_standard_library() {
    let samples = ["", "a", ",", "a,b", ",a,,b,", "a, b", ",,", "ab,,cd,"];
    for sample in samples.iter() {
        let expected: Vec<String> = sample.split(",").map(|p| p.to_string()).collect();
        assert_eq!(strings(split_on(&chars(sample), &chars(","))), expected, "{:?}", sample);
        let wide: Vec<String> = sample.split(",,").map(|p| p.to_string()).collect();
        assert_eq!(strings(split_on(&chars(sample), &chars(",,"))), wide, "{:?}", sample);
    }
}

#[test]
fn reading_a_length_agrees_with_the_standard_library() {
    let samples = [
        "", "0", "00", "7", "+7", "-7", "+", "++7", "+-7", "7+", "4294967295", "4294967296",
        "04294967295", "42949672950", " 7", "7 ", "0x10", "1e3", "1_000", "\u{ff11}",
    ];
    for sample in samples.iter() {
        assert_eq!(read_u32(&chars(sample)), sample.parse::<u32>().ok(), "{:?}", sample);
    }
}

#[test]
fn numerals_agree_with_the_standard_library() {
    let samples = [0usize, 1, 9, 10, 15, 16, 99, 100, 255, 256, 4095, 4096, 65535, 1 << 20, 123456789];
    for n in samples.iter() {
        assert_eq!(decimal_string(*n), n.to_string());
        assert_eq!(hex_string(*n), format!("{:X}", n));
    }
    assert_eq!(decimal_string(usize::MAX), usize::MAX.to_string());
    assert_eq!(hex_string(usize::MAX), format!("{:X}", usize::MAX));
}
