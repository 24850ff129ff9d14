use proton_usage::decimal::{parse_u64, u64_to_string};
use proton_usage::order::{comes_before, find_place};
use proton_usage::report::push_unescaped;
use proton_usage::text::{
    ascii_fold, char_is_whitespace, chars_of, eq_ignore_ascii_case, quote, starts_with,
    string_of, trim, trim_quotes, trim_start,
};

fn chars(text: &str) -> Vec<char> {
    text.chars().collect()
}

fn text(chars: &Vec<char>) -> String {
    chars.iter().collect()
}

#[test]
fn whitespace_is_what_unicode_says() {
    let mut count = 0;
    for code in 0..=0x10FFFFu32 {
        if let Some(c) = char::from_u32(code) {
            assert_eq!(char_is_whitespace(c), c.is_whitespace(), "U+{:04X}", code);
            if char_is_whitespace(c) {
                count += 1;
            }
        }
    }
    assert_eq!(count, 25);
}

#[test]
fn ascii_folding_touches_capital_ascii_letters_only() {
    for code in 0..=0x10FFFFu32 {
        if let Some(c) = char::from_u32(code) {
            assert_eq!(ascii_fold(c), c.to_ascii_lowercase() as u32, "U+{:04X}", code);
        }
    }
}

#[test]
fn trimming_takes_the_margins_only() {
    let samples = [
        "",
        " ",
        "\t\u{3000} a b \u{a0}\r\n",
        "a",
        " \u{200b} ",
        "\"\"",
        "\"\"a\"b\"\"",
        " \"x\" ",
        "\"",
    ];
    for sample in samples {
        assert_eq!(text(&trim(&chars(sample))), sample.trim(), "{:?}", sample);
        assert_eq!(text(&trim_start(&chars(sample))), sample.trim_start(), "{:?}", sample);
        assert_eq!(
            text(&trim_quotes(&chars(sample))),
            sample.trim_matches('"'),
            "{:?}",
            sample
        );
    }
}

#[test]
fn texts_are_taken_apart_and_put_together() {
    assert_eq!(chars_of("a\u{e9}\u{1F600}"), vec!['a', '\u{e9}', '\u{1F600}']);
    assert_eq!(chars_of(""), Vec::<char>::new());
    let all = chars("h\u{e9}llo");
    assert_eq!(string_of(&all, 1, 4), "\u{e9}ll");
    assert_eq!(string_of(&all, 2, 2), "");
    assert_eq!(text(&quote(&all)), "\"h\u{e9}llo\"");
    assert_eq!(text(&quote(&Vec::new())), "\"\"");
}

#[test]
fn prefixes_and_case() {
    assert!(starts_with(&chars("abc"), &chars("ab")));
    assert!(starts_with(&chars("abc"), &chars("")));
    assert!(starts_with(&chars("abc"), &chars("abc")));
    assert!(!starts_with(&chars("abc"), &chars("abcd")));
    assert!(!starts_with(&chars("abc"), &chars("b")));
    assert!(eq_ignore_ascii_case(&chars("\"sEcTiOn\""), &chars("\"Section\"")));
    assert!(eq_ignore_ascii_case(&chars(""), &chars("")));
    assert!(!eq_ignore_ascii_case(&chars("section"), &chars("sections")));
    assert!(!eq_ignore_ascii_case(&chars("\u{e9}"), &chars("\u{c9}")));
    assert!(!eq_ignore_ascii_case(&chars("k"), &chars("\u{212a}")));
}

#[test]
fn numerals_are_read_as_the_standard_library_reads_them() {
    let samples = [
        "0",
        "7",
        "+7",
        "0007",
        "18446744073709551615",
        "18446744073709551616",
        "99999999999999999999999",
        "",
        "+",
        "-",
        "-7",
        "++7",
        "7+",
        "1_000",
        "1 ",
        " 1",
        "\u{661}",
        "12a",
        "0x10",
    ];
    for sample in samples {
        assert_eq!(parse_u64(&chars(sample)), sample.parse::<u64>().ok(), "{:?}", sample);
    }
}

#[test]
fn numbers_are_written_and_read_back() {
    let samples = [0u64, 1, 9, 10, 11, 99, 100, 12345, 76561197962146232, u64::MAX - 1, u64::MAX];
    for sample in samples {
        let written = u64_to_string(sample);
        assert_eq!(written, format!("{}", sample));
        assert_eq!(parse_u64(&chars(&written)), Some(sample));
    }
}

#[test]
fn order_of_texts_is_that_of_strings() {
    let samples = [
        "", "a", "A", "ab", "abc", "abd", "b", "Proton 7.0", "Proton Experimental", "proton",
        "\u{e9}", "z", "\u{1F600}", "\u{ffff}", "a\u{0}",
    ];
    for a in samples {
        for b in samples {
            assert_eq!(comes_before(&chars(a), &chars(b)), a < b, "{:?} {:?}", a, b);
        }
    }
}

#[test]
fn place_among_groups_is_found() {
    let groups = vec![("b".to_string(), 1), ("d".to_string(), 2), ("f".to_string(), 3)];
    assert_eq!(find_place(&groups, &"a".to_string()), (0, false));
    assert_eq!(find_place(&groups, &"b".to_string()), (0, true));
    assert_eq!(find_place(&groups, &"c".to_string()), (1, false));
    assert_eq!(find_place(&groups, &"f".to_string()), (2, true));
    assert_eq!(find_place(&groups, &"g".to_string()), (3, false));
    assert_eq!(find_place(&Vec::<(String, u8)>::new(), &"a".to_string()), (0, false));
}

#[test]
fn unescaping_is_the_replacement_of_escaped_quotes() {
    let samples = [
        "",
        "\\",
        "\"",
        "\\\"",
        "\\\\\"",
        "\\\"\\\"",
        "a \\\"b c\\\" d",
        "\\n\\t\\\\",
        "PROTON_LOG=1 %command% -opt \\\"quoted value\\\"",
    ];
    for sample in samples {
        let mut out = String::from(">");
        push_unescaped(&mut out, sample);
        assert_eq!(out, format!(">{}", sample.replace("\\\"", "\"")), "{:?}", sample);
    }
}
