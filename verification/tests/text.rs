use query_handlers::text::{
    chars_of, contains, matches_at, number_text, same_text, starts_with, text_between,
    to_uppercase, trim, trim_end_matches,
};

fn listed_white_space(c: char) -> bool {
    let n = c as u32;
    (0x9..=0xd).contains(&n)
        || n == 0x20
        || n == 0x85
        || n == 0xa0
        || n == 0x1680
        || (0x2000..=0x200a).contains(&n)
        || (0x2028..=0x2029).contains(&n)
        || n == 0x202f
        || n == 0x205f
        || n == 0x3000
}

#[test]
fn white_space_is_as_listed() {
    for c in '\0'..=char::MAX {
        assert_eq!(c.is_whitespace(), listed_white_space(c));
        if c.is_whitespace() {
            assert_eq!(trim(&format!("{}x{}", c, c)), "x");
        }
    }
}

#[test]
fn upper_case_goes_character_by_character() {
    for c in '\0'..=char::MAX {
        let mapped: String = c.to_uppercase().collect();
        assert_eq!(c.to_string().to_uppercase(), mapped);
        if (c as u32) < 0x80 {
            assert_eq!(mapped, c.to_ascii_uppercase().to_string());
        }
    }
    for s in ["stra\u{df}e", "\u{3c3}\u{3c2} abc", "\u{149}x", "view", "i\u{307}", ""] {
        assert_eq!(to_uppercase(s), s.to_uppercase());
    }
    assert_eq!(to_uppercase("stra\u{df}e"), "STRASSE");
}

#[test]
fn trimming_takes_white_space_off_both_ends() {
    for s in ["", "  ", "a", " a b ", "\u{2003}\ta\u{a0}", "\u{200b}a"] {
        assert_eq!(trim(s), s.trim());
        assert_eq!(trim(&trim(s)), trim(s));
    }
}

#[test]
fn searching_finds_every_occurrence() {
    for (s, t) in [("abcabd", "abd"), ("aab", "ab"), ("a", "ab"), ("", ""), ("ab", ""), ("xy", "z")] {
        assert_eq!(contains(s, t), s.contains(t));
        assert_eq!(starts_with(s, t), s.starts_with(t));
    }
    assert!(matches_at(&chars_of("xab"), &chars_of("ab"), 1));
    assert!(!matches_at(&chars_of("xab"), &chars_of("ab"), 2));
    assert_eq!(text_between(&chars_of("h\u{e9}llo"), 1, 3), "\u{e9}l");
}

#[test]
fn trailing_characters_come_off() {
    for s in ["a;;", ";", "a;b", "", "a; "] {
        assert_eq!(trim_end_matches(s, ';'), s.trim_end_matches(';'));
    }
}

#[test]
fn texts_are_compared_by_their_characters() {
    assert!(same_text("view", "view"));
    assert!(!same_text("view", "VIEW"));
}

#[test]
fn numbers_are_written_in_decimal() {
    for n in [0, 7, 10, 99, 100, 1000, -1, -10, i32::MAX, i32::MIN] {
        assert_eq!(number_text(n), n.to_string());
    }
}
