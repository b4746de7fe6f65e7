use tilt_logs::listing::{container_names, parse_lines};

fn names(items: &[&str]) -> Vec<String> {
    items.iter().map(|s| s.to_string()).collect()
}

#[test]
fn parse_lines_one_name_per_line() {
    assert_eq!(parse_lines("web-1\nweb-2\ndb\n"), names(&["web-1", "web-2", "db"]));
}

#[test]
fn parse_lines_without_final_newline() {
    assert_eq!(parse_lines("web-1\ndb"), names(&["web-1", "db"]));
}

#[test]
fn parse_lines_empty_output_is_no_names() {
    assert_eq!(parse_lines(""), Vec::<String>::new());
    assert_eq!(parse_lines("\n"), names(&[""]));
}

#[test]
fn parse_lines_strips_carriage_return_before_newline() {
    assert_eq!(parse_lines("a\r\nb\r\n"), names(&["a", "b"]));
    assert_eq!(parse_lines("a\r\nb\r"), names(&["a", "b\r"]));
    assert_eq!(parse_lines("a\rb\n"), names(&["a\rb"]));
}

#[test]
fn parse_lines_keeps_blank_lines_in_the_middle() {
    assert_eq!(parse_lines("a\n\nb\n"), names(&["a", "", "b"]));
}

#[test]
fn parse_lines_agrees_with_std_lines() {
    for text in ["x\ny\n", "x\r\n\r\ny", "\n\n", "one", "é\nü\r\n"] {
        let expected: Vec<String> = text.lines().map(|s| s.to_string()).collect();
        assert_eq!(parse_lines(text), expected);
    }
}

#[test]
fn container_names_of_successful_listing() {
    assert_eq!(container_names(true, b"web-1\ndb\n"), names(&["web-1", "db"]));
}

#[test]
fn container_names_of_failed_listing_is_empty() {
    assert_eq!(container_names(false, b"web-1\ndb\n"), Vec::<String>::new());
}

#[test]
fn container_names_replaces_invalid_utf8() {
    assert_eq!(container_names(true, b"we\xffb\ndb\n"), names(&["we\u{FFFD}b", "db"]));
    assert_eq!(container_names(true, b""), Vec::<String>::new());
}
