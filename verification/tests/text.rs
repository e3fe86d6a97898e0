use log_analyzer::number::spells_number;
use log_analyzer::text::{
    char_is_whitespace, holds_brace, join_trimmed_lines, spells_word, to_chars, to_text,
    trim_bounds, trimmed,
};

fn chars(s: &str) -> Vec<char> {
    s.chars().collect()
}

#[test]
fn whitespace_is_the_unicode_property() {
    for c in " \t\n\r\u{b}\u{c}\u{85}\u{a0}\u{1680}\u{2000}\u{200a}\u{2028}\u{2029}\u{202f}\u{205f}\u{3000}"
        .chars()
    {
        assert!(char_is_whitespace(c));
    }
    for c in "a{}\"\\\u{200b}\u{feff}0".chars() {
        assert!(!char_is_whitespace(c));
    }
}

#[test]
fn whitespace_agrees_with_std_on_every_char() {
    let mut n: u32 = 0;
    while n <= 0x10ffff {
        if let Some(c) = char::from_u32(n) {
            assert_eq!(char_is_whitespace(c), c.is_whitespace());
        }
        n += 1;
    }
}

#[test]
fn chars_and_text_round_trip() {
    let v = to_chars("h\u{e9}llo");
    assert_eq!(v, chars("h\u{e9}llo"));
    assert_eq!(to_text(&v, 1, 4), "\u{e9}ll");
    assert_eq!(to_text(&v, 2, 2), "");
}

#[test]
fn trim_bounds_of_a_range() {
    let v = chars("ab  cd  ef");
    assert_eq!(trim_bounds(&v, 2, 8), (4, 6));
    assert_eq!(trim_bounds(&v, 2, 4), (4, 4));
    assert_eq!(trim_bounds(&v, 0, 10), (0, 10));
}

#[test]
fn trimmed_agrees_with_std() {
    for s in ["", "  ", " a b ", "\n\ta\r\n", "\u{a0}x\u{3000}", "x"] {
        assert_eq!(trimmed(s), s.trim());
    }
}

#[test]
fn joined_lines_agree_with_std_lines() {
    for s in [
        "",
        "\n",
        "a",
        " a \n b ",
        "a\r\nb\r\n",
        "  {\n \"k\": 1\n}\n",
        "a\n\n\nb",
        "x \r y\n",
        "\n\n",
        "a\r",
    ] {
        let expected: String = s.lines().map(|line| line.trim()).collect::<Vec<_>>().join("");
        let joined: String = join_trimmed_lines(&chars(s)).into_iter().collect();
        assert_eq!(joined, expected);
    }
}

#[test]
fn brace_detection() {
    assert!(holds_brace("a{b"));
    assert!(holds_brace("}"));
    assert!(!holds_brace("plain line without braces"));
    assert!(!holds_brace(""));
}

#[test]
fn words_are_spelled_in_any_ascii_case() {
    assert!(spells_word(&chars("WaRn"), &chars("warn")));
    assert!(!spells_word(&chars("warn "), &chars("warn")));
    assert!(!spells_word(&chars("w\u{e4}rn"), &chars("warn")));
    assert!(!spells_word(&chars("war"), &chars("warn")));
}

#[test]
fn number_texts_agree_with_std_float_parsing() {
    for s in [
        "0", "40", "40.5", "-1", "+1", ".5", "5.", "+.5", "-5.", "1e5", "1E5", "1e+5", "1e-5",
        "1.5e10", ".5e1", "5.e1", "inf", "-inf", "+INF", "Infinity", "infinity", "NaN", "nan",
        "-nan", "", "+", "-", ".", "e5", "1e", "1e+", ".e1", "1.2.3", "1 ", " 1", "abc", "0x10",
        "1_000", "--1", "+-1", "1e5.5", "infinit", "in", "1f", "\u{661}", "1e1e1", "nane",
        "12345678901234567890123456789", "0.000000000000000000001", "1e400", "1..", "..1",
    ] {
        assert_eq!(spells_number(s), s.parse::<f64>().is_ok(), "{:?}", s);
    }
}
