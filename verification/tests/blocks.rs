use markdown::parser::block::parse_blocks;
use markdown::parser::parse;
use markdown::parser::Block;
use markdown::parser::Block::{
    Blockquote, CodeBlock, Header, Hr, LinkReference, OrderedList, Paragraph, Raw, UnorderedList,
};
use markdown::parser::ListItem;
use markdown::parser::OrderedListType;
use markdown::parser::Span;
use markdown::parser::Span::{Break, Emphasis, Image, Link, RefLink, Text};

fn text(s: &str) -> Span {
    Text(s.to_owned())
}

fn para(s: &str) -> Block {
    Paragraph(vec![text(s)])
}

fn simple(s: &str) -> ListItem {
    ListItem::Simple(vec![text(s)])
}

#[test]
fn empty_document_has_no_block() {
    assert_eq!(parse(""), vec![]);
    assert_eq!(parse("\n\n  \n"), vec![]);
}

#[test]
fn paragraphs_are_parted_by_blank_lines() {
    assert_eq!(parse("one\n\ntwo\n"), vec![para("one"), para("two")]);
    assert_eq!(parse("one\ntwo"), vec![para("one\ntwo")]);
    assert_eq!(parse("one\r\ntwo\r\n\r\nthree"), vec![para("one\ntwo"), para("three")]);
}

#[test]
fn paragraph_holds_spans() {
    assert_eq!(
        parse("a *b*\n![i](u)"),
        vec![Paragraph(vec![
            text("a "),
            Emphasis(vec![text("b")]),
            text("\n"),
            Image("i".to_owned(), "u".to_owned(), None, None)
        ])]
    );
}

#[test]
fn forced_line_break_in_a_paragraph() {
    assert_eq!(parse("a  \nb"), vec![Paragraph(vec![text("a"), Break, text("b")])]);
}

#[test]
fn header_level_counts_the_marks() {
    assert_eq!(parse("# One"), vec![Header(vec![text("One")], 1)]);
    assert_eq!(parse("### Three ###"), vec![Header(vec![text("Three ###")], 3)]);
    assert_eq!(parse("######## Eight"), vec![Header(vec![text("Eight")], 8)]);
    assert_eq!(parse("#"), vec![Header(vec![], 1)]);
    assert_eq!(parse("#tag"), vec![Header(vec![text("tag")], 1)]);
}

#[test]
fn header_ends_a_paragraph() {
    assert_eq!(
        parse("text\n## Head *x*\nmore"),
        vec![para("text"), Header(vec![text("Head "), Emphasis(vec![text("x")])], 2), para("more")]
    );
}

#[test]
fn horizontal_rule() {
    assert_eq!(parse("---"), vec![Hr]);
    assert_eq!(parse("*****"), vec![Hr]);
    assert_eq!(parse("___"), vec![Hr]);
    assert_eq!(parse("a\n---\nb"), vec![para("a"), Hr, para("b")]);
}

#[test]
fn rule_needs_three_of_one_character() {
    assert_eq!(parse("--"), vec![para("--")]);
    assert_eq!(parse("-*-"), vec![para("-*-")]);
    assert_eq!(parse("--- x"), vec![para("--- x")]);
}

#[test]
fn fenced_code_block_is_kept_as_it_is() {
    assert_eq!(
        parse("```rust\nlet a = *b*;\n\n# no header\n```\nafter"),
        vec![
            CodeBlock(Some("rust".to_owned()), "let a = *b*;\n\n# no header".to_owned()),
            para("after")
        ]
    );
    assert_eq!(parse("~~~\nx\n~~~"), vec![CodeBlock(None, "x".to_owned())]);
    assert_eq!(parse("```\n```"), vec![CodeBlock(None, "".to_owned())]);
}

#[test]
fn fence_closes_with_its_own_character() {
    assert_eq!(parse("```\na\n~~~\nb\n```"), vec![CodeBlock(None, "a\n~~~\nb".to_owned())]);
}

#[test]
fn unclosed_fence_takes_the_rest() {
    assert_eq!(
        parse("``` py \nx = 1\n\ny = 2"),
        vec![CodeBlock(Some("py".to_owned()), "x = 1\n\ny = 2".to_owned())]
    );
    assert_eq!(parse("```"), vec![CodeBlock(None, "".to_owned())]);
}

#[test]
fn block_quote_holds_blocks() {
    assert_eq!(parse("> a\n> b"), vec![Blockquote(vec![para("a\nb")])]);
    assert_eq!(
        parse("> # h\n>\n>text\nout"),
        vec![Blockquote(vec![Header(vec![text("h")], 1), para("text")]), para("out")]
    );
}

#[test]
fn block_quote_in_block_quote() {
    assert_eq!(
        parse("> a\n> > b\n> c"),
        vec![Blockquote(vec![para("a"), Blockquote(vec![para("b")]), para("c")])]
    );
}

#[test]
fn deep_block_quote_ends_raw() {
    let depth = 20;
    let source = format!("{}x", "> ".repeat(depth));
    let mut blocks = parse(&source);
    let mut levels = 0;
    loop {
        assert_eq!(blocks.len(), 1);
        match blocks.pop().unwrap() {
            Blockquote(content) => {
                levels += 1;
                blocks = content;
            }
            Raw(rest) => {
                assert_eq!(rest, format!("{}x", "> ".repeat(depth - levels)));
                break;
            }
            other => panic!("unexpected block {:?}", other),
        }
    }
    assert_eq!(levels, markdown::parser::block::BLOCK_DEPTH);
}

#[test]
fn link_reference_definition() {
    assert_eq!(
        parse("[id]: http://x.org"),
        vec![LinkReference("id".to_owned(), "http://x.org".to_owned(), None)]
    );
    assert_eq!(
        parse("[Id two]:   http://x.org   \"The title\""),
        vec![LinkReference(
            "Id two".to_owned(),
            "http://x.org".to_owned(),
            Some("The title".to_owned())
        )]
    );
}

#[test]
fn link_reference_title_on_the_next_line() {
    assert_eq!(
        parse("[id]: http://x.org\n    \"Wrapped\"\ntext"),
        vec![
            LinkReference("id".to_owned(), "http://x.org".to_owned(), Some("Wrapped".to_owned())),
            para("text")
        ]
    );
    assert_eq!(
        parse("[id]: u \"t\"\n\"not a title\""),
        vec![
            LinkReference("id".to_owned(), "u".to_owned(), Some("t".to_owned())),
            para("\"not a title\"")
        ]
    );
}

#[test]
fn line_that_only_looks_like_a_definition_is_a_paragraph() {
    assert_eq!(
        parse("[id]:"),
        vec![Paragraph(vec![RefLink(vec![text("id")], "id".to_owned(), "[id]".to_owned()), text(":")])]
    );
    assert_eq!(
        parse("[]: u"),
        vec![Paragraph(vec![RefLink(vec![], "".to_owned(), "[]".to_owned()), text(": u")])]
    );
    assert_eq!(
        parse("[a](b): c"),
        vec![Paragraph(vec![Link(vec![text("a")], "b".to_owned(), None), text(": c")])]
    );
}

#[test]
fn unordered_list_of_simple_items() {
    assert_eq!(
        parse("- a\n- b\n- c"),
        vec![UnorderedList(vec![simple("a"), simple("b"), simple("c")])]
    );
    assert_eq!(parse("* a\n+ b"), vec![UnorderedList(vec![simple("a"), simple("b")])]);
}

#[test]
fn ordered_list_style_follows_the_first_marker() {
    assert_eq!(
        parse("1. a\n2. b"),
        vec![OrderedList(vec![simple("a"), simple("b")], OrderedListType::Numeric)]
    );
    assert_eq!(
        parse("a. x\nb. y"),
        vec![OrderedList(vec![simple("x"), simple("y")], OrderedListType::Lowercase)]
    );
    assert_eq!(
        parse("b. x\nc. y"),
        vec![OrderedList(vec![simple("x"), simple("y")], OrderedListType::Numeric)]
    );
    assert_eq!(
        parse("I. x\nII. y"),
        vec![OrderedList(vec![simple("x")], OrderedListType::UppercaseRoman), para("II. y")]
    );
    assert_eq!(
        parse("a. x\n1. y"),
        vec![OrderedList(vec![simple("x"), simple("y")], OrderedListType::Lowercase)]
    );
    assert_eq!(parse("A. x"), vec![OrderedList(vec![simple("x")], OrderedListType::Uppercase)]);
    assert_eq!(parse("i. x"), vec![OrderedList(vec![simple("x")], OrderedListType::LowercaseRoman)]);
    assert_eq!(parse("I. x"), vec![OrderedList(vec![simple("x")], OrderedListType::UppercaseRoman)]);
    assert_eq!(parse("12. x"), vec![OrderedList(vec![simple("x")], OrderedListType::Numeric)]);
}

#[test]
fn list_ends_where_the_family_of_marker_changes() {
    assert_eq!(
        parse("- a\n1. b"),
        vec![
            UnorderedList(vec![simple("a")]),
            OrderedList(vec![simple("b")], OrderedListType::Numeric)
        ]
    );
}

#[test]
fn blank_line_between_items_makes_both_loose() {
    assert_eq!(
        parse("- a\n\n- b"),
        vec![UnorderedList(vec![
            ListItem::Paragraph(vec![para("a")]),
            ListItem::Paragraph(vec![para("b")])
        ])]
    );
}

#[test]
fn only_the_items_next_to_a_blank_line_are_loose() {
    assert_eq!(
        parse("1. a\n2. b\n\n3. c\n4. d"),
        vec![OrderedList(
            vec![
                simple("a"),
                ListItem::Paragraph(vec![para("b")]),
                ListItem::Paragraph(vec![para("c")]),
                simple("d")
            ],
            OrderedListType::Numeric
        )]
    );
}

#[test]
fn item_takes_the_lines_indented_under_it() {
    assert_eq!(parse("- a\n  b\n- c"), vec![UnorderedList(vec![simple("a\nb"), simple("c")])]);
    assert_eq!(
        parse("10. a\n    b\n   c"),
        vec![OrderedList(vec![simple("a\nb")], OrderedListType::Numeric), para("   c")]
    );
}

#[test]
fn loose_item_holds_a_list() {
    assert_eq!(
        parse("- a\n  - b\n  - c\n\n- d"),
        vec![UnorderedList(vec![
            ListItem::Paragraph(vec![para("a"), UnorderedList(vec![simple("b"), simple("c")])]),
            ListItem::Paragraph(vec![para("d")])
        ])]
    );
}

#[test]
fn line_that_is_not_indented_ends_the_list() {
    assert_eq!(parse("- a\nb"), vec![UnorderedList(vec![simple("a")]), para("b")]);
    assert_eq!(parse("- a\n\nb"), vec![UnorderedList(vec![simple("a")]), para("b")]);
}

#[test]
fn marker_needs_a_blank_after_it() {
    assert_eq!(parse("-a"), vec![para("-a")]);
    assert_eq!(parse("1.a"), vec![para("1.a")]);
    assert_eq!(parse("b.x"), vec![para("b.x")]);
    assert_eq!(parse("b) x"), vec![para("b) x")]);
    assert_eq!(parse("ab. x"), vec![para("ab. x")]);
    assert_eq!(parse("é. x"), vec![para("é. x")]);
}

#[test]
fn list_with_letter_markers() {
    assert_eq!(
        parse("a. one\nb. two"),
        vec![OrderedList(vec![simple("one"), simple("two")], OrderedListType::Lowercase)]
    );
    assert_eq!(
        parse("A. one\nB. two\n\nC. three"),
        vec![OrderedList(
            vec![
                simple("one"),
                ListItem::Paragraph(vec![para("two")]),
                ListItem::Paragraph(vec![para("three")])
            ],
            OrderedListType::Uppercase
        )]
    );
    assert_eq!(
        parse("z. one"),
        vec![OrderedList(vec![simple("one")], OrderedListType::Numeric)]
    );
}

#[test]
fn parse_is_parse_blocks() {
    let source = "# h\n\n> q\n\n- a\n\n- b\n\n[r]: u\n\n```\nc\n```\n\np [r]\n";
    assert_eq!(parse(source), parse_blocks(source));
}

#[test]
fn parsing_twice_gives_equal_trees() {
    let source = "# h\n\n> q\n> > r\n\n1. a\n\n2. b\n\n[r]: u \"t\"\n\n~~~x\nc\n\np *e* [r] ![i](u =1x2)\n";
    assert_eq!(parse(source), parse(source));
}

#[test]
fn whole_document() {
    let source = "Title\n\n# Head\n\nSome *text* with a [link](http://x.org \"T\")\nand a [ref].\n\n* one\n* two\n\n> quoted\n\n[ref]: http://y.org\n***\n";
    assert_eq!(
        parse(source),
        vec![
            para("Title"),
            Header(vec![text("Head")], 1),
            Paragraph(vec![
                text("Some "),
                Emphasis(vec![text("text")]),
                text(" with a "),
                Link(vec![text("link")], "http://x.org".to_owned(), Some("T".to_owned())),
                text("\nand a "),
                RefLink(vec![text("ref")], "ref".to_owned(), "[ref]".to_owned()),
                text(".")
            ]),
            UnorderedList(vec![simple("one"), simple("two")]),
            Blockquote(vec![para("quoted")]),
            LinkReference("ref".to_owned(), "http://y.org".to_owned(), None),
            Hr
        ]
    );
}

#[test]
fn any_text_has_a_tree() {
    let sources = [
        "\0\u{1}\u{7f}",
        "\r\r\n\r",
        "```",
        "> > > ",
        "- \n- \n\n- ",
        "[",
        "]",
        "[]:",
        "[a]: \"",
        "#",
        "![",
        "![](",
        "![]()",
        "*_*_*_",
        "`` ` ``` ` ``",
        "\\",
        "1. \n   \n2.",
        "é".repeat(100).as_str(),
        "\u{2028}\u{3000}\u{a0}",
        "a. \n\nb",
        "* * *\n***\n* * *",
    ]
    .map(|s| s.to_owned());
    for source in sources.iter() {
        let blocks = parse(source);
        assert_eq!(parse(source), blocks);
        assert_eq!(markdown::parser::resolve::resolve(&blocks).len(), blocks.len());
    }
}

#[test]
fn long_text_of_marks_has_a_tree() {
    let source = "*[`_![(>#-".repeat(400);
    assert_eq!(parse(&source).len(), 1);
}

#[test]
fn lines_of_marks_have_a_tree() {
    let source = "> - # [\n".repeat(300);
    let blocks = parse(&source);
    assert_eq!(blocks.len(), 1);
    assert_eq!(parse(&source), blocks);
}
