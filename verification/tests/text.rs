use parser::decimal::{decimal_string, parse_i64, parse_u64, push_decimal, push_signed_decimal};
use parser::text::{
    char_is_whitespace, chars_of, same_text, string_of_range, trim_bounds, trimmed,
};

#[test]
fn whitespace_is_what_the_standard_library_calls_whitespace() {
    let mut code: u32 = 0;
    while code <= 0x10ffff {
        if let Some(c) = char::from_u32(code) {
            assert_eq!(char_is_whitespace(c), c.is_whitespace(), "U+{:04X}", code);
        }
        code += 1;
    }
}

#[test]
fn trimmed_agrees_with_the_standard_library() {
    let samples = vec![
        "",
        " ",
        "\n",
        " \t\r\n",
        "a",
        " a",
        "a ",
        "  a b  ",
        "\u{a0}x\u{3000}",
        "\u{2003}\u{2028}word\u{85}",
        "\u{200b} zero width \u{200b}",
        "\u{feff}bom",
        " 1000000000000000,DEPOSIT \n",
        "é ü",
        "\u{1680}\u{205f}\u{202f}",
    ];
    for sample in samples {
        assert_eq!(trimmed(sample), sample.trim(), "{:?}", sample);
    }
}

#[test]
fn trim_bounds_frame_what_is_kept() {
    let v: Vec<char> = "  ab c \n".chars().collect();
    assert_eq!(trim_bounds(&v), (2, 6));
    let blank: Vec<char> = " \t ".chars().collect();
    assert_eq!(trim_bounds(&blank), (3, 3));
    let empty: Vec<char> = Vec::new();
    assert_eq!(trim_bounds(&empty), (0, 0));
}

#[test]
fn chars_and_strings_convert_both_ways() {
    let v = chars_of("aé\u{1f600}z");
    assert_eq!(v, vec!['a', 'é', '\u{1f600}', 'z']);
    assert_eq!(string_of_range(&v, 1, 3), "é\u{1f600}");
    assert_eq!(string_of_range(&v, 0, 4), "aé\u{1f600}z");
    assert_eq!(string_of_range(&v, 2, 2), "");
}

#[test]
fn same_text_compares_characters() {
    assert!(same_text("DEPOSIT", "DEPOSIT"));
    assert!(!same_text("DEPOSIT", "deposit"));
    assert!(!same_text("DEPOSIT", "DEPOSIT "));
    assert!(same_text("", ""));
}

#[test]
fn decimal_string_agrees_with_the_standard_library() {
    let samples: Vec<u64> = vec![
        0,
        1,
        9,
        10,
        11,
        99,
        100,
        12345,
        1000000000000000,
        9223372036854775807,
        9223372036854775808,
        u64::MAX,
    ];
    for n in samples {
        assert_eq!(decimal_string(n), n.to_string());
    }
}

#[test]
fn push_decimal_appends() {
    let mut s = String::from("x=");
    push_decimal(&mut s, 1633036860000);
    assert_eq!(s, "x=1633036860000");
}

#[test]
fn push_signed_decimal_agrees_with_the_standard_library() {
    let samples: Vec<i64> = vec![0, 1, -1, 100, -100, i64::MAX, i64::MIN, i64::MIN + 1, -9, 10];
    for i in samples {
        let mut s = String::new();
        push_signed_decimal(&mut s, i);
        assert_eq!(s, i.to_string());
    }
}

#[test]
fn parse_u64_agrees_with_the_standard_library() {
    let samples = vec![
        "",
        "0",
        "7",
        "007",
        "+7",
        "-7",
        "+",
        "-",
        "++7",
        "+-7",
        " 7",
        "7 ",
        "7a",
        "a7",
        "1_000",
        "18446744073709551615",
        "18446744073709551616",
        "+18446744073709551615",
        "99999999999999999999999999",
        "00000000000000000000000000000000000001",
        "1000000000000000",
        "٣",
        "1.5",
        "0x10",
    ];
    for sample in samples {
        assert_eq!(parse_u64(sample), sample.parse::<u64>().ok(), "{:?}", sample);
    }
}

#[test]
fn parse_i64_agrees_with_the_standard_library() {
    let samples = vec![
        "",
        "0",
        "-0",
        "+0",
        "100",
        "-100",
        "+100",
        "-",
        "+",
        "--1",
        "-+1",
        "+-1",
        " 1",
        "1 ",
        "9223372036854775807",
        "9223372036854775808",
        "-9223372036854775808",
        "-9223372036854775809",
        "+9223372036854775807",
        "-00000000000000000000009223372036854775808",
        "12a",
        "−5",
    ];
    for sample in samples {
        assert_eq!(parse_i64(sample), sample.parse::<i64>().ok(), "{:?}", sample);
    }
}
