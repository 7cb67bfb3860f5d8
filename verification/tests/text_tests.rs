use spindle_speed_updater::text::{chars_of, is_whitespace_char, joined, lines_of, same_chars};

fn lines_as_strings(text: &str) -> Vec<String> {
    lines_of(&chars_of(text)).iter().map(|line| line.iter().collect()).collect()
}

fn std_lines(text: &str) -> Vec<String> {
    text.lines().map(String::from).collect()
}

/// Every string over `alphabet` of at most `max_len` characters.
fn all_strings(alphabet: &[char], max_len: usize) -> Vec<String> {
    let mut all = vec![String::new()];
    let mut last = vec![String::new()];
    for _ in 0..max_len {
        let mut next = Vec::new();
        for prefix in &last {
            for c in alphabet {
                let mut longer = prefix.clone();
                longer.push(*c);
                next.push(longer);
            }
        }
        all.extend(next.iter().cloned());
        last = next;
    }
    all
}

#[test]
fn chars_of_gives_every_character_in_order() {
    let text = "S1000 M3\r\nG1 X10 \u{2003}\u{e9}";
    assert_eq!(chars_of(text), text.chars().collect::<Vec<char>>());
    assert_eq!(chars_of(""), Vec::<char>::new());
}

#[test]
fn same_chars_compares_contents() {
    assert!(same_chars(&chars_of("S1 M3"), &chars_of("S1 M3")));
    assert!(!same_chars(&chars_of("S1 M3"), &chars_of("S1 M4")));
    assert!(!same_chars(&chars_of("S1 M3"), &chars_of("S1 M3 ")));
    assert!(same_chars(&chars_of(""), &chars_of("")));
}

#[test]
fn whitespace_is_the_unicode_property() {
    for code in 0..=0x10FFFFu32 {
        if let Some(c) = char::from_u32(code) {
            assert_eq!(is_whitespace_char(c), c.is_whitespace(), "code point {:x}", code);
        }
    }
}

#[test]
fn empty_text_has_no_lines() {
    assert_eq!(lines_as_strings(""), Vec::<String>::new());
}

#[test]
fn a_final_line_feed_ends_the_last_line() {
    assert_eq!(lines_as_strings("a\n"), vec!["a"]);
    assert_eq!(lines_as_strings("a\nb"), vec!["a", "b"]);
    assert_eq!(lines_as_strings("a\n\n"), vec!["a", ""]);
    assert_eq!(lines_as_strings("\n"), vec![""]);
}

#[test]
fn carriage_return_before_line_feed_is_part_of_the_ending() {
    assert_eq!(lines_as_strings("a\r\nb\r\n"), vec!["a", "b"]);
    assert_eq!(lines_as_strings("a\r\r\nb"), vec!["a\r", "b"]);
    assert_eq!(lines_as_strings("a\rb\nc"), vec!["a\rb", "c"]);
}

#[test]
fn carriage_return_at_the_end_of_the_text_stays() {
    assert_eq!(lines_as_strings("a\r"), vec!["a\r"]);
    assert_eq!(lines_as_strings("a\nb\r"), vec!["a", "b\r"]);
}

#[test]
fn lines_agree_with_std_on_all_short_texts() {
    for text in all_strings(&['a', 'S', ' ', '\r', '\n'], 6) {
        assert_eq!(lines_as_strings(&text), std_lines(&text), "text {:?}", text);
    }
}

#[test]
fn joined_puts_one_line_feed_between_lines() {
    let lines = vec![chars_of("a"), chars_of(""), chars_of("b c")];
    assert_eq!(joined(&lines), "a\n\nb c");
    assert_eq!(joined(&vec![chars_of("only")]), "only");
    assert_eq!(joined(&Vec::new()), "");
    assert_eq!(joined(&vec![chars_of("")]), "");
}

#[test]
fn joined_agrees_with_std_join() {
    for text in all_strings(&['a', '\r', '\n'], 6) {
        let lines = lines_of(&chars_of(&text));
        let expected = std_lines(&text).join("\n");
        assert_eq!(joined(&lines), expected, "text {:?}", text);
    }
}
