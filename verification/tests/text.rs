use radio::text::{
    chars_of, columns, contains_text, drop_white, find_chars, parse_unsigned, push_decimal, push_padded,
    push_spaces, rfind_char, room, same_text, skip_white, trim_range,
};

fn trimmed(s: &str) -> String {
    let chars = chars_of(s);
    let (from, to) = trim_range(&chars, 0, chars.len());
    chars[from..to].iter().collect()
}

fn number(s: &str, max: usize) -> Option<usize> {
    let chars = chars_of(s);
    parse_unsigned(&chars, 0, chars.len(), max)
}

fn in_decimal(n: usize) -> String {
    let mut out = String::new();
    push_decimal(&mut out, n);
    out
}

#[test]
fn chars_are_the_characters() {
    assert_eq!(chars_of("aé▶"), vec!['a', 'é', '▶']);
    assert_eq!(chars_of(""), Vec::<char>::new());
}

#[test]
fn texts_are_compared_in_full() {
    assert!(same_text("", ""));
    assert!(same_text("FIP Rock", "FIP Rock"));
    assert!(!same_text("FIP Rock", "FIP Roc"));
    assert!(!same_text("FIP Rock", "FIP rock"));
    assert!(!same_text("é", "e\u{301}"));
}

#[test]
fn find_gives_the_first_occurrence() {
    let hay = chars_of("abcabc");
    let needle = chars_of("bc");
    assert_eq!(find_chars(&hay, &needle, 0), Some(1));
    assert_eq!(find_chars(&hay, &needle, 2), Some(4));
    assert_eq!(find_chars(&hay, &needle, 5), None);
    assert_eq!(find_chars(&hay, &needle, 99), None);
    assert_eq!(find_chars(&hay, &chars_of(""), 6), Some(6));
    assert_eq!(find_chars(&hay, &chars_of(""), 7), None);
}

#[test]
fn rfind_gives_the_last_occurrence() {
    assert_eq!(rfind_char(&chars_of("a'b'c"), '\''), Some(3));
    assert_eq!(rfind_char(&chars_of("abc"), '\''), None);
    assert_eq!(rfind_char(&chars_of(""), '\''), None);
}

#[test]
fn containment_is_found() {
    assert!(contains_text("kcrw eclectic 24", "eclectic"));
    assert!(contains_text("kexp", ""));
    assert!(!contains_text("kexp", "kexp2"));
}

#[test]
fn trimming_agrees_with_the_standard_library() {
    for code in 0..=0x10FFFF_u32 {
        if let Some(c) = char::from_u32(code) {
            let text = format!("{}x{}", c, c);
            assert_eq!(trimmed(&text), text.trim(), "U+{:04X}", code);
        }
    }
}

#[test]
fn trimming_twice_changes_nothing() {
    assert_eq!(trimmed(" \t a b \u{3000}\n"), "a b");
    assert_eq!(trimmed(&trimmed(" \t a b \u{3000}\n")), "a b");
    assert_eq!(trimmed(" \r\n "), "");
    let chars = chars_of("  ab  ");
    assert_eq!(skip_white(&chars, 0, 6), 2);
    assert_eq!(drop_white(&chars, 0, 6), 4);
}

#[test]
fn numbers_are_read_as_the_standard_library_reads_them() {
    for text in [
        "", "+", "-", "0", "+0", "-0", "7", "007", "+255", "255", "256", "999", "1_0", " 1", "1 ",
        "++1", "+-1", "12a", "a12", "٣", "99999999999999999999999",
    ] {
        assert_eq!(number(text, 255), text.parse::<u8>().ok().map(|n| n as usize), "{:?}", text);
        assert_eq!(number(text, usize::MAX), text.parse::<usize>().ok(), "{:?}", text);
    }
    assert_eq!(number(&usize::MAX.to_string(), usize::MAX), Some(usize::MAX));
    assert_eq!(number("18446744073709551616", usize::MAX), None);
}

#[test]
fn decimal_notation_reads_back() {
    for n in [0, 1, 9, 10, 42, 100, 999, 1000, 65535, usize::MAX] {
        assert_eq!(in_decimal(n), n.to_string());
        assert_eq!(number(&in_decimal(n), n), Some(n));
    }
}

#[test]
fn padding_fills_up_to_the_width() {
    let mut out = String::from("|");
    push_padded(&mut out, "aé", 4);
    push_padded(&mut out, "toolong", 3);
    push_spaces(&mut out, 2);
    assert_eq!(out, format!("|{:<4}{:<3}  ", "aé", "toolong"));
}

#[test]
fn wide_characters_take_two_columns() {
    assert_eq!(columns(""), 0);
    assert_eq!(columns("KEXP — né"), 9);
    assert_eq!(columns("東京"), 4);
    assert_eq!(columns("한국 ＡＢ"), 9);
    assert_eq!(columns("ラジオ ﾗｼﾞｵ"), 11);
    assert_eq!(columns("🎵🤘⚡⭐"), 8);
    assert_eq!(columns("\u{2847}\u{28FF}▶▾"), 4);
    assert_eq!(columns("\u{20000}\u{10FFFF}"), 3);
}

#[test]
fn narrow_symbols_take_one_column() {
    assert_eq!(columns("\u{1F1EB}\u{1F1F7}"), 2);
    assert_eq!(columns("\u{1F399}"), 1);
    assert_eq!(columns("\u{1FA00}"), 1);
    for c in ['\u{1F1E6}', '\u{1F1FF}', '\u{1F321}', '\u{1F32C}', '\u{1F336}', '\u{1F394}', '\u{1F54A}'] {
        assert_eq!(columns(&c.to_string()), 1, "{:?}", c);
    }
    for c in ['\u{1F5A5}', '\u{1F5FA}', '\u{1F6E0}', '\u{1F6EA}', '\u{1F900}', '\u{1F90B}', '\u{1FA6F}'] {
        assert_eq!(columns(&c.to_string()), 1, "{:?}", c);
    }
    for c in ['\u{1F200}', '\u{1F320}', '\u{1F3A4}', '\u{1F5A4}', '\u{1F64F}', '\u{1F6EB}', '\u{1FA70}'] {
        assert_eq!(columns(&c.to_string()), 2, "{:?}", c);
    }
}

#[test]
fn joining_characters_take_no_column() {
    assert_eq!(columns("e\u{301}"), 1);
    assert_eq!(columns("\u{304B}\u{3099}"), 2);
    assert_eq!(columns("\u{1112}\u{1161}\u{11AB}"), 2);
    // The selector of emoji makes a narrow character wide.
    assert_eq!(columns("\u{2764}\u{FE0F}"), 2);
    assert_eq!(columns("\u{26A1}\u{FE0F}"), 2);
    assert_eq!(columns("\u{FE0F}"), 1);
}

#[test]
fn room_is_kept_for_every_character() {
    assert_eq!(room(""), 0);
    assert_eq!(room("KEXP"), 4);
    assert_eq!(room("東京"), 4);
    assert_eq!(room("e\u{301}"), 2);
    assert_eq!(room("\u{304B}\u{3099}"), 2);
    assert_eq!(room("東e\u{301}"), 3);
    assert_eq!(room("東京e\u{301}"), 5);
    assert_eq!(room("\u{1F1EB}\u{1F1F7}"), 2);
}
