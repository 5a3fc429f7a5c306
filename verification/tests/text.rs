use bad_ascii::text::{chars_of, find_from, split_lines};

fn std_lines(text: &str) -> Vec<String> {
    text.lines().map(String::from).collect()
}

#[test]
fn lines_of_samples() {
    assert_eq!(split_lines("a\nb\nc"), vec!["a", "b", "c"]);
    assert_eq!(split_lines("a\nb\n"), vec!["a", "b"]);
    assert_eq!(split_lines("one line"), vec!["one line"]);
}

#[test]
fn empty_text_has_no_lines() {
    assert_eq!(split_lines(""), Vec::<String>::new());
}

#[test]
fn empty_lines_are_kept() {
    assert_eq!(split_lines("\n"), vec![""]);
    assert_eq!(split_lines("\n\n"), vec!["", ""]);
    assert_eq!(split_lines("a\n\nb"), vec!["a", "", "b"]);
    assert_eq!(split_lines("\na"), vec!["", "a"]);
}

#[test]
fn carriage_return_belongs_to_the_line_feed_only() {
    assert_eq!(split_lines("a\r\nb"), vec!["a", "b"]);
    assert_eq!(split_lines("a\r"), vec!["a\r"]);
    assert_eq!(split_lines("a\rb\n"), vec!["a\rb"]);
    assert_eq!(split_lines("a\r\r\n"), vec!["a\r"]);
    assert_eq!(split_lines("\r\n"), vec![""]);
    assert_eq!(split_lines("\r"), vec!["\r"]);
}

#[test]
fn lines_match_the_standard_library() {
    for text in [
        "", "\n", "\r\n", "\r", "a", "a\n", "a\r\n", "a\r", "a\nb", "a\n\nb\n", "\n\n\n",
        "foo\nbar\n\r\nbaz\r", "x\r\r\ny", "\u{2588}\u{2588}\n\x1b[0m \n", "\n\r", "\r\n\r\n",
    ] {
        assert_eq!(split_lines(text), std_lines(text), "{:?}", text);
    }
}

#[test]
fn find_from_stops_at_the_first_match() {
    let chars = chars_of("a,b,,c");
    assert_eq!(find_from(&chars, 0, ','), 1);
    assert_eq!(find_from(&chars, 1, ','), 1);
    assert_eq!(find_from(&chars, 2, ','), 3);
    assert_eq!(find_from(&chars, 4, ','), 4);
    assert_eq!(find_from(&chars, 5, ','), 6);
    assert_eq!(find_from(&chars, 6, ','), 6);
    assert_eq!(find_from(&chars, 0, 'z'), 6);
}
