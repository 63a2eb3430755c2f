use markdown::parser::span::parse_spans;
use markdown::parser::ObjectSize;
use markdown::parser::Span;
use markdown::parser::Span::{Break, Code, Emphasis, Image, Link, Literal, RefLink, Strong, Text};

fn text(s: &str) -> Span {
    Text(s.to_owned())
}

#[test]
fn plain_text_is_one_span() {
    assert_eq!(parse_spans("just some words"), vec![text("just some words")]);
    assert_eq!(parse_spans(""), vec![]);
    assert_eq!(parse_spans(" kept as it is "), vec![text(" kept as it is ")]);
}

#[test]
fn image_is_followed_by_the_rest_as_text() {
    assert_eq!(
        parse_spans("![an example](example.com) test"),
        vec![Image("an example".to_owned(), "example.com".to_owned(), None, None), text(" test")]
    );
}

#[test]
fn image_after_text_is_found_where_it_begins() {
    assert_eq!(
        parse_spans("were ![an example](example.com) test"),
        vec![
            text("were "),
            Image("an example".to_owned(), "example.com".to_owned(), None, None),
            text(" test")
        ]
    );
}

#[test]
fn image_with_size_and_text_of_many_bytes() {
    assert_eq!(
        parse_spans("é ![ü](image.jpg =111x222) ö"),
        vec![
            text("é "),
            Image(
                "ü".to_owned(),
                "image.jpg".to_owned(),
                None,
                Some(ObjectSize { width: Some("111".to_owned()), height: Some("222".to_owned()) })
            ),
            text(" ö")
        ]
    );
}

#[test]
fn size_outside_the_bracket_is_text() {
    assert_eq!(
        parse_spans("![an example](http://host.com/filepath.jpg) =111x222"),
        vec![
            Image("an example".to_owned(), "http://host.com/filepath.jpg".to_owned(), None, None),
            text(" =111x222")
        ]
    );
}

#[test]
fn exclamation_mark_without_image_is_text() {
    assert_eq!(parse_spans("wow! [x"), vec![text("wow! [x")]);
    assert_eq!(parse_spans("![()] testing"), vec![text("!"), RefLink(vec![text("()")], "()".to_owned(), "[()]".to_owned()), text(" testing")]);
}

#[test]
fn escaped_punctuation_is_literal() {
    assert_eq!(parse_spans("\\*x\\*"), vec![Literal('*'), text("x"), Literal('*')]);
    assert_eq!(parse_spans("a\\\\b"), vec![text("a"), Literal('\\'), text("b")]);
    assert_eq!(parse_spans("\\~"), vec![Literal('~')]);
}

#[test]
fn backslash_before_a_letter_is_text() {
    assert_eq!(parse_spans("a\\b"), vec![text("a\\b")]);
    assert_eq!(parse_spans("\\"), vec![text("\\")]);
}

#[test]
fn code_span_keeps_its_content_raw() {
    assert_eq!(parse_spans("`a*b*`"), vec![Code("a*b*".to_owned())]);
    assert_eq!(parse_spans("x `y` z"), vec![text("x "), Code("y".to_owned()), text(" z")]);
}

#[test]
fn code_span_closes_with_as_many_backticks_as_it_opens() {
    assert_eq!(parse_spans("``a`b``"), vec![Code("a`b".to_owned())]);
    assert_eq!(parse_spans("`a``b`"), vec![Code("a``b".to_owned())]);
    assert_eq!(parse_spans("``a``b"), vec![Code("a".to_owned()), text("b")]);
    assert_eq!(parse_spans("``a`"), vec![text("`"), Code("a".to_owned())]);
}

#[test]
fn unclosed_code_span_is_text() {
    assert_eq!(parse_spans("`abc"), vec![text("`abc")]);
}

#[test]
fn emphasis_and_strong() {
    assert_eq!(parse_spans("*a*"), vec![Emphasis(vec![text("a")])]);
    assert_eq!(parse_spans("_a_"), vec![Emphasis(vec![text("a")])]);
    assert_eq!(parse_spans("**a**"), vec![Strong(vec![text("a")])]);
    assert_eq!(parse_spans("__a__"), vec![Strong(vec![text("a")])]);
    assert_eq!(
        parse_spans("x *a* y **b** z"),
        vec![
            text("x "),
            Emphasis(vec![text("a")]),
            text(" y "),
            Strong(vec![text("b")]),
            text(" z")
        ]
    );
}

#[test]
fn emphasis_holds_spans() {
    assert_eq!(
        parse_spans("*a `b` c*"),
        vec![Emphasis(vec![text("a "), Code("b".to_owned()), text(" c")])]
    );
    assert_eq!(parse_spans("**a _b_**"), vec![Strong(vec![text("a "), Emphasis(vec![text("b")])])]);
}

#[test]
fn unbalanced_emphasis_is_text() {
    assert_eq!(parse_spans("*a"), vec![text("*a")]);
    assert_eq!(parse_spans("a * b"), vec![text("a * b")]);
    assert_eq!(parse_spans("**"), vec![text("**")]);
    assert_eq!(parse_spans("a_b"), vec![text("a_b")]);
}

#[test]
fn emphasis_needs_content() {
    assert_eq!(parse_spans("****"), vec![Emphasis(vec![text("*")]), text("*")]);
    assert_eq!(parse_spans("**"), vec![text("**")]);
    assert_eq!(parse_spans("***"), vec![Emphasis(vec![text("*")])]);
    assert_eq!(parse_spans("**a*"), vec![Emphasis(vec![text("*a")])]);
}

#[test]
fn link_with_url_and_title() {
    assert_eq!(
        parse_spans("[text](http://x.org)"),
        vec![Link(vec![text("text")], "http://x.org".to_owned(), None)]
    );
    assert_eq!(
        parse_spans("[text](http://x.org \"A title\")"),
        vec![Link(vec![text("text")], "http://x.org".to_owned(), Some("A title".to_owned()))]
    );
    assert_eq!(
        parse_spans("[text](  http://x.org   \"T\"  ) end"),
        vec![
            Link(vec![text("text")], "http://x.org".to_owned(), Some("T".to_owned())),
            text(" end")
        ]
    );
    assert_eq!(parse_spans("[text]()"), vec![Link(vec![text("text")], "".to_owned(), None)]);
}

#[test]
fn link_title_needs_both_quotes() {
    assert_eq!(
        parse_spans("[t](u \"x)"),
        vec![Link(vec![text("t")], "u \"x".to_owned(), None)]
    );
    assert_eq!(parse_spans("[t](\"x\")"), vec![Link(vec![text("t")], "\"x\"".to_owned(), None)]);
    assert_eq!(
        parse_spans("[t](u \"\")"),
        vec![Link(vec![text("t")], "u".to_owned(), Some("".to_owned()))]
    );
}

#[test]
fn link_content_holds_spans() {
    assert_eq!(
        parse_spans("[**b** and `c`](u)"),
        vec![Link(
            vec![Strong(vec![text("b")]), text(" and "), Code("c".to_owned())],
            "u".to_owned(),
            None
        )]
    );
}

#[test]
fn link_content_may_hold_brackets() {
    assert_eq!(
        parse_spans("[a [b] c](u)"),
        vec![Link(
            vec![text("a "), RefLink(vec![text("b")], "b".to_owned(), "[b]".to_owned()), text(" c")],
            "u".to_owned(),
            None
        )]
    );
    assert_eq!(
        parse_spans("[![i](p.png)](u)"),
        vec![Link(
            vec![Image("i".to_owned(), "p.png".to_owned(), None, None)],
            "u".to_owned(),
            None
        )]
    );
}

#[test]
fn unclosed_link_is_text() {
    assert_eq!(parse_spans("[text](http://x.org"), vec![text("[text](http://x.org")]);
    assert_eq!(parse_spans("[text"), vec![text("[text")]);
    assert_eq!(parse_spans("a ] b"), vec![text("a ] b")]);
}

#[test]
fn reference_link_keeps_its_source() {
    assert_eq!(
        parse_spans("[text][id]"),
        vec![RefLink(vec![text("text")], "id".to_owned(), "[text][id]".to_owned())]
    );
    assert_eq!(
        parse_spans("see [the *docs*][Docs]."),
        vec![
            text("see "),
            RefLink(
                vec![text("the "), Emphasis(vec![text("docs")])],
                "Docs".to_owned(),
                "[the *docs*][Docs]".to_owned()
            ),
            text(".")
        ]
    );
}

#[test]
fn reference_link_in_short_form_has_its_content_as_id() {
    assert_eq!(
        parse_spans("[text]"),
        vec![RefLink(vec![text("text")], "text".to_owned(), "[text]".to_owned())]
    );
    assert_eq!(
        parse_spans("[a] b"),
        vec![RefLink(vec![text("a")], "a".to_owned(), "[a]".to_owned()), text(" b")]
    );
}

#[test]
fn reference_link_with_unclosed_id_is_text() {
    assert_eq!(parse_spans("[a][b"), vec![text("[a][b")]);
}

#[test]
fn hard_break_at_the_end_of_a_line() {
    assert_eq!(parse_spans("a  \nb"), vec![text("a"), Break, text("b")]);
    assert_eq!(parse_spans("a    \nb"), vec![text("a"), Break, text("b")]);
    assert_eq!(parse_spans("a  "), vec![text("a"), Break]);
    assert_eq!(parse_spans("a\\\nb"), vec![text("a"), Break, text("b")]);
}

#[test]
fn blanks_inside_a_line_are_no_break() {
    assert_eq!(parse_spans("a  b"), vec![text("a  b")]);
    assert_eq!(parse_spans("a \nb"), vec![text("a \nb")]);
    assert_eq!(parse_spans("a\nb"), vec![text("a\nb")]);
}

#[test]
fn escape_goes_before_emphasis() {
    assert_eq!(parse_spans("\\*a*"), vec![Literal('*'), text("a*")]);
}

#[test]
fn code_goes_before_emphasis() {
    assert_eq!(parse_spans("`*`*"), vec![Code("*".to_owned()), text("*")]);
}

#[test]
fn deep_nesting_ends_in_text() {
    let depth = 40;
    let source = format!("{}x{}", "[".repeat(depth), "]".repeat(depth));
    let mut spans = parse_spans(&source);
    let mut levels = 0;
    loop {
        assert_eq!(spans.len(), 1);
        match spans.pop().unwrap() {
            RefLink(content, _, raw) => {
                assert_eq!(raw, format!("{}x{}", "[".repeat(depth - levels), "]".repeat(depth - levels)));
                levels += 1;
                spans = content;
            }
            Text(rest) => {
                assert_eq!(rest, format!("{}x{}", "[".repeat(depth - levels), "]".repeat(depth - levels)));
                break;
            }
            other => panic!("unexpected span {:?}", other),
        }
    }
    assert_eq!(levels, markdown::parser::span::SPAN_DEPTH);
}

#[test]
fn many_open_brackets_do_not_hang() {
    let source = "[".repeat(3000);
    assert_eq!(parse_spans(&source), vec![text(&source)]);
}

#[test]
fn parsing_spans_twice_gives_equal_trees() {
    let source = "a *b* [c](d \"e\") ![f](g =1x2) `h` [i][j]  \nk";
    assert_eq!(parse_spans(source), parse_spans(source));
}

#[test]
fn thousands_of_nested_brackets_end_in_text() {
    let depth = 3000;
    let source = format!("{}x{}", "[".repeat(depth), "]".repeat(depth));
    let spans = parse_spans(&source);
    assert_eq!(spans.len(), 1);
    match &spans[0] {
        RefLink(_, id, raw) => {
            assert_eq!(raw, &source);
            assert_eq!(id.len(), source.len() - 2);
        }
        other => panic!("unexpected span {:?}", other),
    }
}

#[test]
fn emphasis_in_emphasis() {
    assert_eq!(parse_spans("*_x_*"), vec![Emphasis(vec![Emphasis(vec![text("x")])])]);
    assert_eq!(
        parse_spans("**a *b* c**"),
        vec![Strong(vec![text("a "), Emphasis(vec![text("b")]), text(" c")])]
    );
    assert_eq!(parse_spans("*a*b*"), vec![Emphasis(vec![text("a")]), text("b*")]);
}

#[test]
fn link_and_reference_lie_in_one_line() {
    assert_eq!(parse_spans("[a\nb](u)"), vec![text("[a\nb](u)")]);
    assert_eq!(parse_spans("[a](u\nv)"), vec![text("[a](u\nv)")]);
    assert_eq!(parse_spans("[a\nb]"), vec![text("[a\nb]")]);
    assert_eq!(parse_spans("[a\nb][c]"), vec![
        text("[a\nb]"),
        RefLink(vec![text("c")], "c".to_owned(), "[c]".to_owned())
    ]);
    assert_eq!(
        parse_spans("[a][b\nc]"),
        vec![text("[a][b\nc]")]
    );
    assert_eq!(
        parse_spans("[a]\n[b]"),
        vec![
            RefLink(vec![text("a")], "a".to_owned(), "[a]".to_owned()),
            text("\n"),
            RefLink(vec![text("b")], "b".to_owned(), "[b]".to_owned())
        ]
    );
    assert_eq!(
        parse_spans("[a]\n(u)"),
        vec![RefLink(vec![text("a")], "a".to_owned(), "[a]".to_owned()), text("\n(u)")]
    );
    assert_eq!(
        parse_spans("*x\n[a](u)\ny*"),
        vec![Emphasis(vec![
            text("x\n"),
            Link(vec![text("a")], "u".to_owned(), None),
            text("\ny")
        ])]
    );
}
