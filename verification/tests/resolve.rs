use markdown::parser::parse;
use markdown::parser::resolve::{
    find_definition, reference_table, resolve, resolve_blocks, resolve_span, resolve_spans,
    Reference,
};
use markdown::parser::span::parse_spans;
use markdown::parser::Block;
use markdown::parser::Block::{Blockquote, Header, LinkReference, Paragraph, UnorderedList};
use markdown::parser::ListItem;
use markdown::parser::Span;
use markdown::parser::Span::{Emphasis, Link, RefLink, Strong, Text};

fn text(s: &str) -> Span {
    Text(s.to_owned())
}

fn reference(id: &str, url: &str, title: Option<&str>) -> Reference {
    Reference { id: id.to_owned(), url: url.to_owned(), title: title.map(|t| t.to_owned()) }
}

#[test]
fn table_lists_the_definitions_in_order() {
    let blocks = parse("[a]: u1\n\ntext\n\n[b]: u2 \"t\"\n");
    assert_eq!(
        reference_table(&blocks),
        vec![reference("a", "u1", None), reference("b", "u2", Some("t"))]
    );
    assert_eq!(reference_table(&parse("no definition")), vec![]);
}

#[test]
fn table_holds_the_definitions_inside_quotes_and_lists() {
    let blocks = parse("> [q]: u1\n\n- x\n\n- [l]: u2\n\n[top]: u3");
    assert_eq!(
        reference_table(&blocks),
        vec![reference("q", "u1", None), reference("l", "u2", None), reference("top", "u3", None)]
    );
}

#[test]
fn first_definition_of_an_id_is_found() {
    let table = vec![reference("a", "1", None), reference("b", "2", None), reference("a", "3", None)];
    assert_eq!(find_definition(&table, &"a".to_owned()), Some(0));
    assert_eq!(find_definition(&table, &"b".to_owned()), Some(1));
    assert_eq!(find_definition(&table, &"c".to_owned()), None);
    assert_eq!(find_definition(&table, &"A".to_owned()), None);
    assert_eq!(find_definition(&vec![], &"a".to_owned()), None);
}

#[test]
fn defined_reference_becomes_a_link() {
    let table = vec![reference("id", "http://x.org", Some("T"))];
    assert_eq!(
        resolve_spans(&parse_spans("see [the *text*][id]."), &table),
        vec![
            text("see "),
            Link(
                vec![text("the "), Emphasis(vec![text("text")])],
                "http://x.org".to_owned(),
                Some("T".to_owned())
            ),
            text(".")
        ]
    );
}

#[test]
fn undefined_reference_becomes_its_source() {
    let table = vec![reference("other", "http://x.org", None)];
    assert_eq!(
        resolve_spans(&parse_spans("see [the *text*][id]."), &table),
        vec![text("see "), text("[the *text*][id]"), text(".")]
    );
    assert_eq!(
        resolve_span(&RefLink(vec![text("x")], "x".to_owned(), "[x]".to_owned()), &vec![]),
        text("[x]")
    );
}

#[test]
fn references_inside_spans_are_resolved() {
    let table = vec![reference("a", "ua", None)];
    assert_eq!(
        resolve_spans(&parse_spans("**[a] [b]** [x [a] y](u)"), &table),
        vec![
            Strong(vec![Link(vec![text("a")], "ua".to_owned(), None), text(" "), text("[b]")]),
            text(" "),
            Link(
                vec![text("x "), Link(vec![text("a")], "ua".to_owned(), None), text(" y")],
                "u".to_owned(),
                None
            )
        ]
    );
}

#[test]
fn other_spans_are_kept() {
    let spans = parse_spans("a *b* `c` ![i](u \"t\" =1x2) \\* [l](m)  \nz");
    assert_eq!(resolve_spans(&spans, &vec![]), spans);
}

#[test]
fn definition_may_follow_its_use() {
    assert_eq!(
        resolve(&parse("# [h]\n\nuse [h] and [missing]\n\n[h]: http://h.org \"H\"")),
        vec![
            Header(vec![Link(vec![text("h")], "http://h.org".to_owned(), Some("H".to_owned()))], 1),
            Paragraph(vec![
                text("use "),
                Link(vec![text("h")], "http://h.org".to_owned(), Some("H".to_owned())),
                text(" and "),
                text("[missing]")
            ]),
            LinkReference("h".to_owned(), "http://h.org".to_owned(), Some("H".to_owned()))
        ]
    );
}

#[test]
fn references_in_quotes_and_lists_are_resolved() {
    assert_eq!(
        resolve(&parse("> [a]\n\n- [a]\n- x\n\n- [a]\n\n[a]: u")),
        vec![
            Blockquote(vec![Paragraph(vec![Link(vec![text("a")], "u".to_owned(), None)])]),
            UnorderedList(vec![
                ListItem::Simple(vec![Link(vec![text("a")], "u".to_owned(), None)]),
                ListItem::Paragraph(vec![Paragraph(vec![text("x")])]),
                ListItem::Paragraph(vec![Paragraph(vec![Link(
                    vec![text("a")],
                    "u".to_owned(),
                    None
                )])]),
            ]),
            LinkReference("a".to_owned(), "u".to_owned(), None)
        ]
    );
}

#[test]
fn ids_are_compared_as_they_are_written() {
    assert_eq!(
        resolve(&parse("[Id]\n\n[id]: u")),
        vec![Paragraph(vec![text("[Id]")]), LinkReference("id".to_owned(), "u".to_owned(), None)]
    );
}

#[test]
fn resolving_against_another_table() {
    let blocks = parse("[a] [b]");
    let table = vec![reference("b", "ub", None)];
    assert_eq!(
        resolve_blocks(&blocks, &table),
        vec![Paragraph(vec![text("[a]"), text(" "), Link(vec![text("b")], "ub".to_owned(), None)])]
    );
}

#[test]
fn document_without_references_resolves_to_itself() {
    let source = "# h\n\n> q *e*\n\n1. a\n\n2. b\n\n```x\nc\n```\n\n---\n";
    let blocks: Vec<Block> = parse(source);
    assert_eq!(resolve(&blocks), blocks);
}

#[test]
fn copy_of_a_tree_is_equal_to_it() {
    let source = "# h [r]\n\n> q *e* **s** `c`\n\n1. a\n\n2. b ![i](u \"t\" =1x)\n\n- [l](u \"t\")\n\n```x\nc\n```\n\n[r]: u\n---\n";
    let blocks = parse(source);
    assert!(blocks.len() > 5);
    assert_eq!(blocks.clone(), blocks);
    let spans = parse_spans("a *b* [c][d] \\e");
    assert_eq!(spans.clone(), spans);
}

fn raws_in_spans(spans: &Vec<Span>, out: &mut Vec<String>) {
    for span in spans {
        match span {
            RefLink(content, _, raw) => {
                out.push(raw.clone());
                raws_in_spans(content, out);
            }
            Link(content, _, _) | Emphasis(content) | Strong(content) => raws_in_spans(content, out),
            _ => {}
        }
    }
}

fn raws_in_blocks(blocks: &Vec<Block>, out: &mut Vec<String>) {
    for block in blocks {
        match block {
            Header(spans, _) | Paragraph(spans) => raws_in_spans(spans, out),
            Blockquote(inner) => raws_in_blocks(inner, out),
            Block::OrderedList(items, _) | UnorderedList(items) => {
                for item in items {
                    match item {
                        ListItem::Simple(spans) => raws_in_spans(spans, out),
                        ListItem::Paragraph(inner) => raws_in_blocks(inner, out),
                    }
                }
            }
            _ => {}
        }
    }
}

#[test]
fn raw_text_of_a_reference_is_a_piece_of_the_document() {
    let sources = [
        "[foo][bar]",
        "a [b] c\r\n> d [e *f*][g] h\r\n> > # [i]\r\n",
        "- x [a][b]\n  y [c]\n\n- z [d [e] f]\n\n1. [g]\n",
        "# [h1] and **[h2][x]**\n\n*[e1]\n[e2]*\n",
        "[a\nb] [c]\n> [d\n> e] [f]\n",
    ];
    let counts = [1, 3, 5, 4, 2];
    for (source, count) in sources.iter().zip(counts.iter()) {
        let mut raws = vec![];
        raws_in_blocks(&parse(source), &mut raws);
        assert_eq!(raws.len(), *count, "in {:?}: {:?}", source, raws);
        for raw in raws {
            assert!(source.contains(raw.as_str()), "{:?} is no piece of {:?}", raw, source);
            assert!(!raw.contains('\n'));
        }
    }
}

#[test]
fn undefined_reference_anywhere_becomes_its_source() {
    assert_eq!(
        resolve(&parse("> - a [x][y] b\n>\n> - *[z]*\n\n[w]: u")),
        vec![
            Blockquote(vec![UnorderedList(vec![
                ListItem::Paragraph(vec![Paragraph(vec![text("a "), text("[x][y]"), text(" b")])]),
                ListItem::Paragraph(vec![Paragraph(vec![Emphasis(vec![text("[z]")])])]),
            ])]),
            LinkReference("w".to_owned(), "u".to_owned(), None)
        ]
    );
}

#[test]
fn undefined_reference_takes_what_it_holds_with_it() {
    assert_eq!(
        resolve(&parse("[a [b] c][d]\n\n[b]: u")),
        vec![
            Paragraph(vec![text("[a [b] c][d]")]),
            LinkReference("b".to_owned(), "u".to_owned(), None)
        ]
    );
    assert_eq!(
        resolve(&parse("[a [b] c][d]\n\n[d]: u")),
        vec![
            Paragraph(vec![Link(vec![text("a "), text("[b]"), text(" c")], "u".to_owned(), None)]),
            LinkReference("d".to_owned(), "u".to_owned(), None)
        ]
    );
}
