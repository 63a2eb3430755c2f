use markdown::parser::block::lines::split_lines;
use markdown::parser::block::{
    classify, find_list_mark, is_blank_line, is_definition_line, parse_lines, read_wrapped_title,
    BlockKind,
};
use markdown::parser::span::is_punct;
use markdown::parser::text::{chars_of, is_whitespace};
use markdown::parser::Block::{Blockquote, Paragraph, Raw};
use markdown::parser::Span::Text;

fn chars(s: &str) -> Vec<char> {
    s.chars().collect()
}

fn lines(v: &[&str]) -> Vec<Vec<char>> {
    v.iter().map(|l| chars(l)).collect()
}

#[test]
fn chars_of_a_text() {
    assert_eq!(chars_of("aé\n"), vec!['a', 'é', '\n']);
    assert_eq!(chars_of(""), Vec::<char>::new());
}

#[test]
fn text_is_cut_at_line_feeds() {
    assert_eq!(split_lines(&chars("a\nb")), lines(&["a", "b"]));
    assert_eq!(split_lines(&chars("a\nb\n")), lines(&["a", "b"]));
    assert_eq!(split_lines(&chars("a\n\nb\n\n")), lines(&["a", "", "b", ""]));
    assert_eq!(split_lines(&chars("\n")), lines(&[""]));
    assert_eq!(split_lines(&chars("")), lines(&[]));
}

#[test]
fn carriage_return_before_a_line_feed_is_dropped() {
    assert_eq!(split_lines(&chars("a\r\nb\r\n")), lines(&["a", "b"]));
    assert_eq!(split_lines(&chars("a\rb\r")), lines(&["a\rb"]));
    assert_eq!(split_lines(&chars("\r\n")), lines(&[""]));
}

#[test]
fn white_space_characters() {
    for c in [' ', '\t', '\n', '\r', '\u{0B}', '\u{0C}', '\u{85}', '\u{A0}', '\u{2003}', '\u{3000}'] {
        assert!(is_whitespace(c));
        assert!(c.is_whitespace());
    }
    for c in ['a', '-', '\u{200B}', '\u{1F}', 'é'] {
        assert!(!is_whitespace(c));
        assert!(!c.is_whitespace());
    }
}

#[test]
fn white_space_is_what_the_standard_library_takes_for_it() {
    let mut c = '\0';
    loop {
        assert_eq!(is_whitespace(c), c.is_whitespace());
        if c == '\u{FFFF}' {
            break;
        }
        c = char::from_u32(c as u32 + 1).unwrap_or('\u{E000}');
    }
}

#[test]
fn punctuation_characters() {
    for c in "!\"#$%&'()*+,-./:;<=>?@[\\]^_`{|}~".chars() {
        assert!(is_punct(c));
    }
    for c in ['a', 'Z', '0', ' ', '\n', 'é', '\u{7F}'] {
        assert!(!is_punct(c));
    }
}

#[test]
fn blank_lines() {
    assert!(is_blank_line(&chars("")));
    assert!(is_blank_line(&chars(" \t ")));
    assert!(!is_blank_line(&chars(" x ")));
}

#[test]
fn kind_of_a_line() {
    assert_eq!(classify(&chars("# h")), BlockKind::Header);
    assert_eq!(classify(&chars("---")), BlockKind::Rule);
    assert_eq!(classify(&chars("***")), BlockKind::Rule);
    assert_eq!(classify(&chars("```rust")), BlockKind::Fence);
    assert_eq!(classify(&chars("~~~~")), BlockKind::Fence);
    assert_eq!(classify(&chars("> q")), BlockKind::Quote);
    assert_eq!(classify(&chars("[id]: url")), BlockKind::Definition);
    assert_eq!(classify(&chars("- item")), BlockKind::List);
    assert_eq!(classify(&chars("* item")), BlockKind::List);
    assert_eq!(classify(&chars("3. item")), BlockKind::List);
    assert_eq!(classify(&chars("b. item")), BlockKind::List);
    assert_eq!(classify(&chars("text")), BlockKind::Paragraph);
    assert_eq!(classify(&chars("``")), BlockKind::Paragraph);
    assert_eq!(classify(&chars(" # indented")), BlockKind::Paragraph);
    assert_eq!(classify(&chars("")), BlockKind::Paragraph);
}

#[test]
fn list_marker_and_its_width() {
    assert_eq!(find_list_mark(&chars("- a")), Some((false, 2)));
    assert_eq!(find_list_mark(&chars("+ ")), Some((false, 2)));
    assert_eq!(find_list_mark(&chars("1. a")), Some((true, 3)));
    assert_eq!(find_list_mark(&chars("123. a")), Some((true, 5)));
    assert_eq!(find_list_mark(&chars("i. a")), Some((true, 3)));
    assert_eq!(find_list_mark(&chars("-")), None);
    assert_eq!(find_list_mark(&chars("1.")), None);
    assert_eq!(find_list_mark(&chars("1) a")), None);
    assert_eq!(find_list_mark(&chars("x. a")), Some((true, 3)));
    assert_eq!(find_list_mark(&chars("Z. a")), Some((true, 3)));
    assert_eq!(find_list_mark(&chars("xy. a")), None);
    assert_eq!(find_list_mark(&chars("@. a")), None);
    assert_eq!(find_list_mark(&chars("[. a")), None);
    assert_eq!(find_list_mark(&chars("`. a")), None);
    assert_eq!(find_list_mark(&chars("{. a")), None);
    assert_eq!(find_list_mark(&chars("é. a")), None);
    assert_eq!(find_list_mark(&chars(" - a")), None);
}

#[test]
fn definition_lines() {
    assert!(is_definition_line(&chars("[a]: b")));
    assert!(is_definition_line(&chars("[a b]:b \"t\"")));
    assert!(!is_definition_line(&chars("[a]:")));
    assert!(!is_definition_line(&chars("[a]:   ")));
    assert!(!is_definition_line(&chars("[a] : b")));
    assert!(!is_definition_line(&chars("[]: b")));
    assert!(!is_definition_line(&chars("a]: b")));
}

#[test]
fn title_on_a_line_of_its_own() {
    assert_eq!(read_wrapped_title(&chars("  \"a b\" ")), Some("a b".to_owned()));
    assert_eq!(read_wrapped_title(&chars("\"\"")), Some("".to_owned()));
    assert_eq!(read_wrapped_title(&chars("\"")), None);
    assert_eq!(read_wrapped_title(&chars("a \"b\"")), None);
}

#[test]
fn lines_at_depth_zero_are_raw() {
    assert_eq!(parse_lines(&lines(&["# a", "", "> b"]), 0), vec![Raw("# a\n\n> b".to_owned())]);
    assert_eq!(parse_lines(&lines(&[]), 0), vec![]);
}

#[test]
fn lines_at_depth_one_hold_raw_content() {
    assert_eq!(
        parse_lines(&lines(&["a", "> b", "> > c"]), 1),
        vec![Paragraph(vec![Text("a".to_owned())]), Blockquote(vec![Raw("b\n> c".to_owned())])]
    );
}
