use site_grabber::numbers::{digits_of, parse_i64};
use site_grabber::text::{
    ascii_alphanumeric, chars_of, has_text, join_texts, nonblank_lines_of, same_text, split_chars,
    text_of, trimmed, Trimmed,
};

fn chars(s: &str) -> Vec<char> {
    s.chars().collect()
}

fn strings(list: &[&str]) -> Vec<String> {
    list.iter().map(|s| s.to_string()).collect()
}

#[test]
fn white_space_is_that_of_unicode() {
    for c in '\0'..=char::MAX {
        let u = c as u32;
        let listed = (0x09..=0x0d).contains(&u)
            || [0x20, 0x85, 0xa0, 0x1680, 0x2028, 0x2029, 0x202f, 0x205f, 0x3000].contains(&u)
            || (0x2000..=0x200a).contains(&u);
        assert_eq!(c.is_whitespace(), listed, "{u:x}");
    }
}

#[test]
fn ascii_letters_and_digits() {
    for c in '\0'..='\u{ff}' {
        assert_eq!(ascii_alphanumeric(c), c.is_ascii_alphanumeric());
    }
}

#[test]
fn texts_and_characters() {
    assert_eq!(chars_of("aé☃"), vec!['a', 'é', '☃']);
    assert_eq!(text_of(&['a', 'é', '☃']), "aé☃");
    assert!(same_text("включить", "включить"));
    assert!(!same_text("include", "includes"));
    assert!(!same_text("include", "exclude"));
}

#[test]
fn trimming_takes_off_the_ends() {
    for s in ["", " ", " a b ", "\u{a0}\t[ x ]\n", "[[1]]", "__a.b--", "é"] {
        let c = chars(s);
        assert_eq!(text_of(trimmed(&c, Trimmed::WhiteSpace)), s.trim());
        assert_eq!(
            text_of(trimmed(&c, Trimmed::Brackets)),
            s.trim_matches(|c| c == '[' || c == ']')
        );
        assert_eq!(
            text_of(trimmed(&c, Trimmed::NotAlphanumeric)),
            s.trim_matches(|c: char| !c.is_ascii_alphanumeric())
        );
    }
}

#[test]
fn trimming_twice_is_trimming_once() {
    let c = chars("  x y  ");
    let once = trimmed(&c, Trimmed::WhiteSpace);
    assert_eq!(trimmed(once, Trimmed::WhiteSpace), once);
    assert_eq!(text_of(once), "x y");
}

#[test]
fn splitting_and_joining_undo_each_other() {
    for s in ["", ",", "a", "a,b", ",a,,b,"] {
        let parts: Vec<String> = split_chars(&chars(s), ',').iter().map(|p| text_of(p)).collect();
        assert_eq!(parts, s.split(',').collect::<Vec<_>>());
        assert_eq!(join_texts(&parts, ","), s);
    }
    assert_eq!(join_texts(&strings(&["a", "b", "c"]), ", "), "a, b, c");
    assert_eq!(join_texts(&[], "x"), "");
}

#[test]
fn searching_for_a_text() {
    for (s, pat) in [("", ""), ("a", ""), ("", "a"), ("xaby", "ab"), ("aab", "ab"), ("ba", "ab")] {
        assert_eq!(has_text(&chars(s), &chars(pat)), s.contains(pat));
    }
}

#[test]
fn lines_that_are_not_blank() {
    assert_eq!(nonblank_lines_of(" a \r\n\n \t\nb\r\nc\r"), strings(&["a", "b", "c"]));
    assert_eq!(nonblank_lines_of("\n\n"), Vec::<String>::new());
}

#[test]
fn numbers_are_written_like_std() {
    for n in [0, 1, 9, 10, 15, 16, 255, 256, 4096, 123456789, u64::MAX] {
        assert_eq!(text_of(&digits_of(n, 10)), format!("{n}"));
        assert_eq!(text_of(&digits_of(n, 16)), format!("{n:x}"));
        assert_eq!(text_of(&digits_of(n, 2)), format!("{n:b}"));
    }
}

#[test]
fn numbers_are_read_like_std() {
    for s in [
        "", "+", "-", "0", "-0", "+7", "-7", "007", "1a", "a1", "--1", "+-1", " 1", "1 ", "1_0",
        "9223372036854775807", "9223372036854775808", "-9223372036854775808",
        "-9223372036854775809", "99999999999999999999999999", "-99999999999999999999999999",
        "00000000000000000000000000000000000001", "٣", "1.0",
    ] {
        assert_eq!(parse_i64(&chars(s)), s.parse::<i64>().ok(), "{s:?}");
    }
}

#[test]
fn numbers_are_read_as_they_were_written() {
    for n in [0, 1, -1, 42, i64::MAX, i64::MIN] {
        assert_eq!(parse_i64(&chars(&n.to_string())), Some(n));
    }
}
