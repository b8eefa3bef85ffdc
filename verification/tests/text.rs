use zenbook_fanctl::text::{
    chars_of, contains_chars, is_whitespace_char, matches_at, str_contains, trim_bounds,
};

fn trim_by_bounds(text: &str) -> String {
    let chars = chars_of(text);
    let (start, end) = trim_bounds(&chars);
    chars[start..end].iter().collect()
}

#[test]
fn chars_of_gives_every_character_in_order() {
    assert_eq!(chars_of(""), Vec::<char>::new());
    assert_eq!(chars_of("a°C\n"), vec!['a', '°', 'C', '\n']);
}

#[test]
fn white_space_is_what_std_takes_for_white_space() {
    let mut count = 0;
    for n in 0..=0x10ffffu32 {
        if let Some(c) = char::from_u32(n) {
            assert_eq!(is_whitespace_char(c), c.is_whitespace(), "U+{:04X}", n);
            if is_whitespace_char(c) {
                count += 1;
            }
        }
    }
    assert_eq!(count, 25);
}

#[test]
fn white_space_edges() {
    assert!(is_whitespace_char('\t'));
    assert!(is_whitespace_char('\r'));
    assert!(!is_whitespace_char('\u{8}'));
    assert!(!is_whitespace_char('\u{e}'));
    assert!(is_whitespace_char('\u{2000}'));
    assert!(is_whitespace_char('\u{200a}'));
    assert!(!is_whitespace_char('\u{200b}'));
    assert!(!is_whitespace_char('0'));
}

#[test]
fn trim_bounds_of_plain_and_padded_text() {
    assert_eq!(trim_bounds(&chars_of("abc")), (0, 3));
    assert_eq!(trim_bounds(&chars_of("  abc\n")), (2, 5));
    assert_eq!(trim_bounds(&chars_of("a b")), (0, 3));
    assert_eq!(trim_by_bounds(" a b "), "a b");
}

#[test]
fn trim_bounds_of_empty_and_blank_text() {
    assert_eq!(trim_bounds(&chars_of("")), (0, 0));
    let (start, end) = trim_bounds(&chars_of(" \n\t"));
    assert_eq!(start, end);
    assert_eq!(trim_by_bounds(" \n\t"), "");
}

#[test]
fn trim_bounds_agree_with_std() {
    for text in [
        "", " ", "x", " x", "x ", "\n45231\n", "\u{a0}é\u{3000}", " \u{200b} ", "a\tb", "\r\n",
        "\u{2028}\u{2029}z\u{202f}",
    ] {
        assert_eq!(trim_by_bounds(text), text.trim(), "{:?}", text);
    }
}

#[test]
fn matches_at_compares_the_window() {
    let hay = chars_of("acpitz");
    assert!(matches_at(&hay, &chars_of("acp"), 0));
    assert!(matches_at(&hay, &chars_of("itz"), 3));
    assert!(!matches_at(&hay, &chars_of("itz"), 2));
    assert!(matches_at(&hay, &chars_of(""), 6));
}

#[test]
fn matches_at_past_the_end_is_false() {
    let hay = chars_of("acpitz");
    assert!(!matches_at(&hay, &chars_of("itz"), 4));
    assert!(!matches_at(&hay, &chars_of(""), 7));
    assert!(!matches_at(&hay, &chars_of("acpitzz"), 0));
    assert!(!matches_at(&hay, &chars_of("a"), usize::MAX));
}

#[test]
fn contains_finds_a_run_anywhere() {
    assert!(str_contains("acpitz\n", "acpitz"));
    assert!(str_contains("x86_pkg_temp acpitz", "acpitz"));
    assert!(str_contains("/sys/class/thermal/thermal_zone0", "thermal_zone"));
    assert!(!str_contains("/sys/class/thermal/cooling_device0", "thermal_zone"));
    assert!(!str_contains("acpit", "acpitz"));
    assert!(!str_contains("a c p i t z", "acpitz"));
    assert!(!str_contains("ACPITZ", "acpitz"));
}

#[test]
fn contains_edge_cases() {
    assert!(str_contains("", ""));
    assert!(str_contains("abc", ""));
    assert!(!str_contains("", "a"));
    assert!(str_contains("aab", "ab"));
    assert!(str_contains("abc", "abc"));
    assert!(!str_contains("abc", "abcd"));
    assert!(contains_chars(&chars_of("xyz"), &chars_of("z")));
    assert!(!contains_chars(&chars_of("xyz"), &chars_of("zy")));
}

#[test]
fn contains_agrees_with_std() {
    let hays = ["", "a", "ab", "aba", "abab", "cpu_fan\n", "gpu_fan", "cpu_fa", "ééa", "aaab"];
    let needles = ["", "a", "b", "ab", "ba", "aab", "cpu_fan", "é", "éa", "abab"];
    for hay in hays {
        for needle in needles {
            assert_eq!(str_contains(hay, needle), hay.contains(needle), "{:?} {:?}", hay, needle);
        }
    }
}
