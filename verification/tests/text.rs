use shiny_portal::text::{
    chars_of, find_full_line, parse_u64, push_decimal, push_hexadecimal, same_text, text_between, trim,
};
use shiny_portal::uri::path_to_file_uri;

fn decimal(n: u64) -> String {
    let mut text = String::new();
    push_decimal(&mut text, n);
    text
}

#[test]
fn decimals_are_written_as_usual() {
    assert_eq!(decimal(0), "0");
    assert_eq!(decimal(9), "9");
    assert_eq!(decimal(10), "10");
    assert_eq!(decimal(u64::MAX), "18446744073709551615");
}

#[test]
fn decimals_are_appended() {
    let mut text = "n=".to_string();
    push_decimal(&mut text, 42);
    assert_eq!(text, "n=42");
}

#[test]
fn decimals_read_back() {
    for n in [0, 7, 1000, 4294967296, u64::MAX] {
        assert_eq!(parse_u64(&decimal(n)), Some(n));
    }
}

#[test]
fn different_numbers_have_different_decimals() {
    assert_ne!(decimal(11), decimal(111));
}

#[test]
fn numbers_are_parsed_like_the_standard_library() {
    for text in [
        "", "+", "-", "0", "+7", "-7", "007", " 7", "7 ", "12a", "18446744073709551615",
        "18446744073709551616", "99999999999999999999999", "+18446744073709551615", "++1", "٣",
    ] {
        assert_eq!(parse_u64(text), text.parse::<u64>().ok(), "{text:?}");
    }
}

#[test]
fn trimming_is_that_of_the_standard_library() {
    for text in ["", "  ", "a", " a b ", "\t\r\nx\u{b}\u{c}", "\u{a0}é\u{2003}", "\u{1f}z"] {
        assert_eq!(trim(text), text.trim(), "{text:?}");
    }
}

#[test]
fn trimming_twice_is_trimming_once() {
    let once = trim("  two words \n");
    assert_eq!(once, "two words");
    assert_eq!(trim(&once), once);
}

#[test]
fn full_lines_are_those_of_the_standard_library() {
    for text in [
        "", "\n\n", "one", "\n  \n two \nthree", "\r\n\r\nlast\r\n", "a\rb\n", " \t\r", "x\r",
    ] {
        let expected = text.lines().find(|line| !line.trim().is_empty()).map(str::to_string);
        assert_eq!(find_full_line(text), expected, "{text:?}");
    }
}

#[test]
fn full_lines_are_not_blank() {
    assert_eq!(find_full_line(" \n\t x \n"), Some("\t x ".to_string()));
    assert_eq!(find_full_line(" \n \t \n"), None);
}

#[test]
fn texts_are_cut_by_characters() {
    let chars = chars_of("héllo");
    assert_eq!(chars, vec!['h', 'é', 'l', 'l', 'o']);
    assert_eq!(text_between(&chars, 1, 3), "él");
    assert!(same_text("é", &text_between(&chars, 1, 2)));
    assert!(!same_text("e", "é"));
}

#[test]
fn plain_paths_stay_as_they_are() {
    assert_eq!(
        path_to_file_uri(b"/run/user/1000/a-b_c.~Z/9.png"),
        "file:///run/user/1000/a-b_c.~Z/9.png"
    );
    assert_eq!(path_to_file_uri(b""), "file://");
}

#[test]
fn other_bytes_are_escaped_in_upper_case() {
    assert_eq!(path_to_file_uri(b"/a b%\xff\x0a+"), "file:///a%20b%25%FF%0A%2B");
}

#[test]
fn uris_read_back() {
    let path: Vec<u8> = (0..=255).collect();
    let uri = path_to_file_uri(&path);
    let escaped = uri.strip_prefix("file://").unwrap().as_bytes();
    let mut back = Vec::new();
    let mut i = 0;
    while i < escaped.len() {
        if escaped[i] == b'%' {
            let digits = std::str::from_utf8(&escaped[i + 1..i + 3]).unwrap();
            back.push(u8::from_str_radix(digits, 16).unwrap());
            i += 3;
        } else {
            back.push(escaped[i]);
            i += 1;
        }
    }
    assert_eq!(back, path);
}

#[test]
fn different_paths_have_different_uris() {
    assert_ne!(path_to_file_uri(b"/%20"), path_to_file_uri(b"/ "));
}

#[test]
fn uris_hold_plain_characters_only() {
    let path: Vec<u8> = (0..=255).collect();
    for c in path_to_file_uri(&path)[7..].chars() {
        assert!(c.is_ascii_alphanumeric() || "-._~/%".contains(c), "{c:?}");
    }
}

#[test]
fn white_space_is_the_same_for_every_character() {
    for c in '\0'..=char::MAX {
        let listed = matches!(
            c,
            '\u{9}'..='\u{d}'
                | ' '
                | '\u{85}'
                | '\u{a0}'
                | '\u{1680}'
                | '\u{2000}'..='\u{200a}'
                | '\u{2028}'
                | '\u{2029}'
                | '\u{202f}'
                | '\u{205f}'
                | '\u{3000}'
        );
        assert_eq!(c.is_whitespace(), listed, "{c:?}");
        if listed {
            assert_eq!(trim(&format!("{c}x{c}")), "x");
        }
    }
}

#[test]
fn hexadecimals_have_a_fixed_width() {
    for n in [0, 9, 10, 0x1f, 0x34325258, u64::MAX] {
        let mut text = "0x".to_string();
        push_hexadecimal(&mut text, n, 16);
        assert_eq!(text, format!("0x{n:016x}"));
    }
    let mut text = String::new();
    push_hexadecimal(&mut text, 0x123, 2);
    assert_eq!(text, "23");
}
