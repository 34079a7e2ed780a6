use rkd::text::{
    begins_with, chars_of, matches_at, same_chars, space_char, split_text, string_of, trimmed,
    Separator,
};

fn cs(s: &str) -> Vec<char> {
    s.chars().collect()
}

fn pieces(s: &str, sep: &Separator) -> Vec<String> {
    split_text(&cs(s), sep).iter().map(|p| p.iter().collect()).collect()
}

#[test]
fn characters_and_strings_convert_both_ways() {
    assert_eq!(chars_of("a+b"), vec!['a', '+', 'b']);
    assert_eq!(chars_of(""), Vec::<char>::new());
    assert_eq!(chars_of("é✓"), vec!['é', '✓']);
    assert_eq!(string_of(&['a', 'b']), "ab");
    assert_eq!(string_of(&[]), "");
    assert_eq!(string_of(&chars_of("Logitech G413")), "Logitech G413");
}

#[test]
fn texts_compare_by_their_characters() {
    assert!(same_chars(&cs("alt"), &cs("alt")));
    assert!(!same_chars(&cs("alt"), &cs("Alt")));
    assert!(!same_chars(&cs("alt"), &cs("alto")));
    assert!(same_chars(&cs(""), &cs("")));
    assert!(!same_chars(&cs("ab"), &cs("ba")));
}

#[test]
fn whitespace_is_what_unicode_says() {
    for c in [' ', '\t', '\n', '\r', '\u{b}', '\u{c}', '\u{85}', '\u{a0}', '\u{1680}', '\u{2000}',
        '\u{200a}', '\u{2028}', '\u{2029}', '\u{202f}', '\u{205f}', '\u{3000}']
    {
        assert!(space_char(c));
    }
    for c in ['a', '_', '+', '\u{0}', '\u{8}', '\u{e}', '\u{200b}', '\u{feff}'] {
        assert!(!space_char(c));
    }
    let mut c = '\u{0}';
    loop {
        assert_eq!(space_char(c), c.is_whitespace());
        if c == char::MAX {
            break;
        }
        c = match char::from_u32(c as u32 + 1) {
            Some(next) => next,
            None => '\u{e000}',
        };
    }
}

#[test]
fn trimming_removes_whitespace_at_both_ends() {
    assert_eq!(trimmed(&cs("  ls -l \t")), cs("ls -l"));
    assert_eq!(trimmed(&cs("ls")), cs("ls"));
    assert_eq!(trimmed(&cs("")), cs(""));
    assert_eq!(trimmed(&cs(" \t\r\n")), cs(""));
    assert_eq!(trimmed(&cs("\u{a0}a b\u{3000}")), cs("a b"));
    for s in ["", " ", "a", " a", "a ", "  a  b  ", "\t\tx\n"] {
        assert_eq!(string_of(&trimmed(&cs(s))), s.trim());
    }
}

#[test]
fn patterns_are_found_where_they_stand() {
    let s = cs("B: EV=120013");
    assert!(begins_with(&s, &cs("B: ")));
    assert!(!begins_with(&s, &cs(": ")));
    assert!(begins_with(&s, &cs("")));
    assert!(!begins_with(&cs("B"), &cs("B: ")));
    assert!(matches_at(&s, &cs("EV"), 3));
    assert!(!matches_at(&s, &cs("EV"), 4));
    assert!(!matches_at(&s, &cs("13"), 11));
    assert!(matches_at(&s, &cs("13"), 10));
    assert!(matches_at(&s, &cs(""), 12));
    assert!(!matches_at(&s, &cs(""), 13));
}

#[test]
fn splitting_at_a_character() {
    let plus = Separator::of_char('+');
    assert_eq!(pieces("Ctrl+Shift+k", &plus), vec!["Ctrl", "Shift", "k"]);
    assert_eq!(pieces("k", &plus), vec!["k"]);
    assert_eq!(pieces("", &plus), vec![""]);
    assert_eq!(pieces("+", &plus), vec!["", ""]);
    assert_eq!(pieces("a++b", &plus), vec!["a", "", "b"]);
    assert_eq!(pieces("+a+", &plus), vec!["", "a", ""]);
    for s in ["", "+", "a+b", "++", "a+", "+a", "Ctrl + k"] {
        let expected: Vec<String> = s.split('+').map(|p| p.to_string()).collect();
        assert_eq!(pieces(s, &plus), expected);
    }
}

#[test]
fn splitting_at_a_text() {
    let blank = Separator::of_text("\n\n");
    assert_eq!(pieces("a\nb\n\nc", &blank), vec!["a\nb", "c"]);
    assert_eq!(pieces("a\n\n\nb", &blank), vec!["a", "\nb"]);
    assert_eq!(pieces("a\n\n\n\nb", &blank), vec!["a", "", "b"]);
    assert_eq!(pieces("a\n", &blank), vec!["a\n"]);
    for s in ["", "\n", "\n\n", "x\n\ny\n\n", "\n\n\n", "a\n\nb\n\n\nc"] {
        let expected: Vec<String> = s.split("\n\n").map(|p| p.to_string()).collect();
        assert_eq!(pieces(s, &blank), expected);
    }
    assert_eq!(pieces("abc", &Separator::of_text("")), vec!["abc"]);
}

#[test]
fn splitting_at_whitespace() {
    assert_eq!(pieces("ls -l /tmp", &Separator::Space), vec!["ls", "-l", "/tmp"]);
    assert_eq!(pieces("ls\t-l", &Separator::Space), vec!["ls", "-l"]);
    assert_eq!(pieces("ls  -l", &Separator::Space), vec!["ls", "", "-l"]);
    assert_eq!(pieces("", &Separator::Space), vec![""]);
    assert_eq!(pieces(" ", &Separator::Space), vec!["", ""]);
    for s in ["a b", " a", "a ", "a\tb\nc", "abc"] {
        let expected: Vec<String> = s.split(char::is_whitespace).map(|p| p.to_string()).collect();
        assert_eq!(pieces(s, &Separator::Space), expected);
    }
}

#[test]
fn separator_spans() {
    let s = cs("a\n\nb c");
    assert_eq!(Separator::of_text("\n\n").span_at(&s, 1), 2);
    assert_eq!(Separator::of_text("\n\n").span_at(&s, 2), 0);
    assert_eq!(Separator::of_char('\n').span_at(&s, 2), 1);
    assert_eq!(Separator::Space.span_at(&s, 1), 1);
    assert_eq!(Separator::Space.span_at(&s, 4), 1);
    assert_eq!(Separator::Space.span_at(&s, 0), 0);
    assert_eq!(Separator::Space.span_at(&s, 6), 0);
}
