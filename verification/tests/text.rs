use log_sanitizer::text::{
    char_is_whitespace, chars_of, equals, find, join, lines, push_decimal, split, starts_with,
    str_equals, string_of, strip_prefix, trim_bounds,
};

fn chars(s: &str) -> Vec<char> {
    s.chars().collect()
}

fn strings(parts: Vec<Vec<char>>) -> Vec<String> {
    parts.into_iter().map(|p| p.into_iter().collect()).collect()
}

#[test]
fn strings_and_characters_convert_both_ways() {
    assert_eq!(chars_of("aé☃"), vec!['a', 'é', '☃']);
    assert_eq!(chars_of(""), Vec::<char>::new());
    assert_eq!(string_of(&['a', 'é', '☃']), "aé☃");
    assert_eq!(string_of(&[]), "");
}

#[test]
fn trim_agrees_with_std() {
    for sample in ["", " ", "a", "  a b  ", "\t\n\r a\u{a0}", "\u{2003}x\u{3000}", "\u{200b}x", "x\u{85}", "\u{1680}\u{2028}\u{2029}\u{202f}\u{205f}y\u{b}\u{c}"] {
        let all = chars(sample);
        let (from, to) = trim_bounds(&all);
        let trimmed: String = all[from..to].iter().collect();
        assert_eq!(trimmed, sample.trim());
    }
}

#[test]
fn whitespace_agrees_with_std() {
    let mut c = '\0';
    loop {
        assert_eq!(char_is_whitespace(c), c.is_whitespace());
        match char::from_u32(c as u32 + 1) {
            Some(next) if (next as u32) < 0x4000 => c = next,
            _ => break,
        }
    }
}

#[test]
fn find_gives_the_first_index_or_the_length() {
    assert_eq!(find(&chars("a]b]"), ']'), 1);
    assert_eq!(find(&chars("]"), ']'), 0);
    assert_eq!(find(&chars("abc"), ']'), 3);
    assert_eq!(find(&chars(""), ']'), 0);
}

#[test]
fn prefixes_are_recognised() {
    assert_eq!(strip_prefix(&chars("round-12"), "round-"), Some(6));
    assert_eq!(strip_prefix(&chars("round-"), "round-"), Some(6));
    assert_eq!(strip_prefix(&chars("roun"), "round-"), None);
    assert_eq!(strip_prefix(&chars("x"), ""), Some(0));
    assert!(starts_with(&chars("GAME-X"), "GAME-"));
    assert!(!starts_with(&chars("GAMEX"), "GAME-"));
    assert!(equals(&chars("SQL"), "SQL"));
    assert!(!equals(&chars("SQLx"), "SQL"));
    assert!(!equals(&chars("SQ"), "SQL"));
    assert!(str_equals("é", "é"));
    assert!(!str_equals("e", "é"));
}

#[test]
fn split_agrees_with_std() {
    for sample in ["", " ", "a", "a b", " a  b ", "  ", "a b c d"] {
        let expected: Vec<String> = sample.split(' ').map(str::to_string).collect();
        assert_eq!(strings(split(&chars(sample), ' ')), expected);
    }
}

#[test]
fn join_agrees_with_std() {
    for sample in [vec![], vec![""], vec!["a"], vec!["a", "b"], vec!["", "a", "", ""]] {
        let parts: Vec<Vec<char>> = sample.iter().map(|p| chars(p)).collect();
        let joined: String = join(&parts, ", ").into_iter().collect();
        assert_eq!(joined, sample.join(", "));
    }
}

#[test]
fn split_then_join_gives_the_text_back() {
    for sample in ["", " a  b ", "one two three"] {
        let joined: String = join(&split(&chars(sample), ' '), " ").into_iter().collect();
        assert_eq!(joined, sample);
    }
}

#[test]
fn lines_agree_with_std() {
    for sample in ["", "\n", "a", "a\n", "a\r\n", "a\r", "a\n\nb", "a\r\nb\n\nc\r", "\r\n\r\n", "a\r\r\nb", "\n\na"] {
        let expected: Vec<String> = sample.lines().map(str::to_string).collect();
        assert_eq!(strings(lines(&chars(sample))), expected);
    }
}

#[test]
fn decimal_agrees_with_std() {
    for n in [0u64, 1, 9, 10, 11, 99, 100, 1234567890, u64::MAX] {
        let mut out = vec!['#'];
        push_decimal(&mut out, n);
        let text: String = out.into_iter().collect();
        assert_eq!(text, format!("#{n}"));
    }
}
