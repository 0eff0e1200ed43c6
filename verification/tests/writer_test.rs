use lisi::ast::{Attribute, AttributeValue, BlockType, Element, ElementSpan, ListType, AST};
use lisi::codeblock_parser::{Attribute as ReferenceAttribute, CodeblockParser, Fragment};
use lisi::extract_toc::extract_table_of_contents;
use lisi::lisi::{Extension, Lisi};
use lisi::options::{parse_key_val, Opts};
use lisi::reader::asciidoc::{
    parse_column_format, parse_columns_format, parse_columns_format_from_content, ColKind,
    ColumnFormat,
};
use lisi::reader::markdown::{
    byte_offset_to_position, convert_events, event_from, slice_text, tag_from, EventKind,
    MarkdownEvent, MarkdownReader, MarkdownTag, Spanned, TagKind,
};
use lisi::reader::Reader;
use lisi::substitution::{extract_join_str, indent, unescape};
use lisi::text::{from_chars, split_lines, to_chars, whitespace};
use lisi::util::Cache;
use lisi::writer::asciidoc::AsciidocWriter;

fn new_element(element: Element, content: &str) -> ElementSpan {
    ElementSpan {
        element,
        source: None,
        content: content.to_string(),
        children: vec![],
        attributes: vec![],
        positional_attributes: vec![],
        start: 0,
        end: 0,
        start_line: 0,
        start_col: 0,
        end_line: 0,
        end_col: 0,
    }
}

fn with(mut element: ElementSpan, key: &str, value: &str) -> ElementSpan {
    element.attributes.push(Attribute {
        key: key.to_string(),
        value: AttributeValue::String(value.to_string()),
    });
    element
}

fn holding(mut element: ElementSpan, children: Vec<ElementSpan>) -> ElementSpan {
    element.children = children;
    element
}

fn document(elements: Vec<ElementSpan>) -> AST {
    AST { content: String::new(), elements, attributes: Vec::new() }
}

fn text(content: &str) -> ElementSpan {
    new_element(Element::Text, content)
}

fn written(ast: &AST) -> String {
    AsciidocWriter::new().document(ast, &Opts::new())
}

#[test]
fn find_toc_in_flat_ast() {
    let input = AST {
        content: String::new(),
        attributes: Vec::new(),
        elements: vec![
            new_element(Element::Title { level: 1 }, "Main Header"),
            new_element(Element::Paragraph, "Some Text"),
            new_element(Element::Title { level: 2 }, "Subheader"),
            new_element(Element::Paragraph, "Paragraph Text"),
            new_element(Element::Title { level: 3 }, "SubSubheader"),
            new_element(Element::Title { level: 2 }, "Next Subheader"),
            new_element(Element::Paragraph, "blah blah blah"),
        ],
    };
    assert_eq!(
        extract_table_of_contents(&input, 2),
        AST {
            content: String::new(),
            attributes: Vec::new(),
            elements: vec![
                new_element(Element::Title { level: 1 }, "Main Header"),
                new_element(Element::Title { level: 2 }, "Subheader"),
                new_element(Element::Title { level: 2 }, "Next Subheader"),
            ],
        }
    );
}

#[test]
fn attribute_lookup_takes_the_first() {
    let element = with(with(text("x"), "k", "first"), "k", "second");
    assert_eq!(element.get_attribute("k"), Some("first"));
    assert_eq!(element.get_attribute("other"), None);
    let mut ast = document(vec![]);
    ast.attributes.push(Attribute { key: "source".to_string(), value: AttributeValue::Ref("a.adoc".to_string()) });
    assert_eq!(ast.get_attribute("source"), Some("a.adoc"));
    assert_eq!(ast.get_attribute("title"), None);
    assert_eq!(AttributeValue::Ref("r".to_string()).as_str(), "r");
    assert_eq!(AsciidocWriter::attribute_value_to_string(&AttributeValue::Ref("r".to_string())), "r");
    assert_eq!(AttributeValue::String("s".to_string()).as_str(), "s");
}

#[test]
fn written_titles_and_paragraphs() {
    let ast = document(vec![
        with(new_element(Element::Title { level: 2 }, "== Intro"), "name", "Intro"),
        holding(
            new_element(Element::Paragraph, ""),
            vec![
                text("plain "),
                with(with(new_element(Element::Styled, ""), "style", "strong"), "content", "bold"),
                text(" "),
                with(with(new_element(Element::Styled, ""), "style", "em"), "content", "it"),
                text(" "),
                with(with(new_element(Element::Styled, ""), "style", "monospaced"), "content", "c"),
                text(" "),
                with(with(new_element(Element::Styled, ""), "style", "odd"), "content", "o"),
            ],
        ),
        new_element(Element::Title { level: 0 }, ""),
    ]);
    assert_eq!(written(&ast), "== Intro\n\nplain *bold* _it_ `c` o\n\n ");
}

#[test]
fn written_lists() {
    let item = |level: u32, children: Vec<ElementSpan>| {
        holding(new_element(Element::ListItem(level), ""), children)
    };
    let paragraph = |content: &str| holding(new_element(Element::Paragraph, ""), vec![text(content)]);
    let nested = holding(
        new_element(Element::List(ListType::Number), ""),
        vec![item(2, vec![paragraph("inner")])],
    );
    let ast = document(vec![
        holding(
            new_element(Element::List(ListType::Bullet), ""),
            vec![
                item(1, vec![paragraph("one")]),
                text("skipped"),
                item(1, vec![paragraph("two"), nested]),
            ],
        ),
        item(3, vec![text("loose")]),
        item(1, vec![text("next")]),
        text("end"),
    ]);
    assert_eq!(written(&ast), "* one\n* two\n\n.. inner\n*** loose* nextend");
}

#[test]
fn written_blocks() {
    let mut block = with(new_element(Element::TypedBlock { kind: BlockType::Listing }, "ignored"), "content", "\n  code()  \n");
    block.positional_attributes.push(AttributeValue::Ref("source".to_string()));
    block.positional_attributes.push(AttributeValue::String("rust".to_string()));
    let block = with(block, "title", "T");
    let bare = new_element(Element::TypedBlock { kind: BlockType::Quote }, " said ");
    let only_named = with(new_element(Element::TypedBlock { kind: BlockType::Example }, "e"), "id", "x");
    let ast = document(vec![block, bare, only_named]);
    assert_eq!(
        written(&ast),
        "[source,rust,title=T]\n----\ncode()\n----\n\n____\nsaid\n____\n\n[,id=x]\n====\ne\n===="
    );
}

#[test]
fn written_tables_links_and_the_rest() {
    let cell = |content: &str| holding(new_element(Element::TableCell, ""), vec![text(content)]);
    let row = holding(new_element(Element::TableRow, ""), vec![cell("a"), cell("b")]);
    let table = with(with(holding(new_element(Element::Table, ""), vec![row]), "cols", "2"), "x", "y");
    let mut link = with(new_element(Element::Link, ""), "url", "https://example.com");
    link.positional_attributes.push(AttributeValue::Ref("this link".to_string()));
    let xref = with(holding(new_element(Element::XRef, ""), vec![text("see")]), "anchor", "target");
    let image = with(holding(new_element(Element::Image, ""), vec![text("child")]), "path", "a.png");
    let image_alt = with(with(new_element(Element::Image, ""), "path", "b.png"), "alt", "Alt");
    let ast = AST {
        content: String::new(),
        attributes: vec![Attribute { key: "author".to_string(), value: AttributeValue::Ref("me".to_string()) }],
        elements: vec![
            table,
            link,
            xref,
            new_element(Element::XRef, ""),
            image,
            image_alt,
            with(new_element(Element::Anchor, ""), "name", "here"),
            new_element(Element::Anchor, ""),
            new_element(Element::Comment, "  note \n"),
            new_element(Element::Attribute(Attribute { key: "k".to_string(), value: AttributeValue::Ref("v".to_string()) }), ""),
            new_element(Element::Error("bad".to_string()), ""),
            new_element(Element::ExternalContent, ""),
        ],
    };
    assert_eq!(
        written(&ast),
        ":author: me\n\n[cols=2,x=y]\n|===\n| a| b\n|===\n\nlink:https://example.com[this link]\n<<target,see>>\n<<>>\nimage::a.png[child]\nimage::b.png[Alt]\n[[here]]\n\n\n// note\n\n\n// ERROR: bad\n\n// ExternalContent"
    );
}

#[test]
fn key_value_pairs() {
    assert_eq!(parse_key_val("a=b"), Some(("a".to_string(), "b".to_string())));
    assert_eq!(parse_key_val("k=v=w"), Some(("k".to_string(), "v=w".to_string())));
    assert_eq!(parse_key_val("=x"), Some(("".to_string(), "x".to_string())));
    assert_eq!(parse_key_val("ab"), None);
    assert_eq!(parse_key_val(""), None);
}

#[test]
fn lines_as_the_standard_library_splits_them() {
    for sample in ["", "a", "a\n", "a\nb", "a\r\nb\r\n", "\n\n", "a\r", "\r\n\r", "x\n\ry\n"] {
        let ours: Vec<String> = split_lines(&to_chars(sample)).iter().map(from_chars).collect();
        let theirs: Vec<String> = sample.lines().map(String::from).collect();
        assert_eq!(ours, theirs, "{:?}", sample);
    }
}

#[test]
fn white_space_as_the_standard_library_knows_it() {
    let mut c = '\0';
    loop {
        assert_eq!(whitespace(c), c.is_whitespace(), "{:?}", c);
        if c == char::MAX {
            break;
        }
        c = char::from_u32(c as u32 + 1).unwrap_or('\u{e000}');
    }
}

#[test]
fn indentation_before_every_line() {
    let mut out = to_chars("x");
    indent(&to_chars("one\n\ntwo\r\nthree\n"), "\t ", &mut out);
    assert_eq!(from_chars(&out), "x\n\t one\n\t \n\t two\n\t three");
    let mut out = to_chars("x");
    indent(&to_chars(""), "  ", &mut out);
    assert_eq!(from_chars(&out), "x");
}

#[test]
fn separators() {
    let join = |body: &str| match &CodeblockParser::parse(body)[0] {
        Fragment::Reference(reference) => extract_join_str(reference),
        _ => panic!("no reference"),
    };
    assert_eq!(join("<<a>>"), "\n");
    assert_eq!(join("<<a|x=\"1\">>"), "\n");
    assert_eq!(join("<<a|x=\"1\", join=\"-\", join=\"+\">>"), "-");
    assert_eq!(join("<<a|join=\"\">>"), "");
    assert_eq!(join("<<a|k:=\"v\"\njoin=\"\\\\n\\t\\\">>"), "\\n\t\\");
    assert_eq!(from_chars(&unescape("a\\nb\\\\\\x\\")), "a\nb\\\\x\\");
}

#[test]
fn attribute_lists() {
    let reference = |body: &str| match CodeblockParser::parse(body).into_iter().next() {
        Some(Fragment::Reference(reference)) => Some(reference),
        _ => None,
    };
    let r = reference("<<a-b_1 | k := \"v\" ,\n m:=<<n|o:=\"p\">>\n q=\"r\">>").unwrap();
    assert_eq!(r.identifier, "a-b_1");
    assert_eq!(r.attributes.len(), 3);
    assert!(matches!(&r.attributes[0], ReferenceAttribute::Literal { key, value } if key == "k" && value == "v"));
    assert!(matches!(&r.attributes[1], ReferenceAttribute::Nested { key, reference }
        if key == "m" && reference.identifier == "n" && reference.attributes.len() == 1));
    assert!(matches!(&r.attributes[2], ReferenceAttribute::Plain { key, value } if key == "q" && value == "r"));
    assert!(reference("<<a|k:=\"v\" m:=\"w\">>").is_none());
    assert!(reference("<<a|k:=v>>").is_none());
    assert!(reference("<<a|k:=\"v\",>>").is_none());
    assert!(reference("<<a b>>").is_none());
    assert!(reference("<<a|k=<<b>>>>").is_none());
    assert!(reference("<<a\n>>").is_some());
}

#[test]
fn positions_count_characters() {
    let v = to_chars("aé\nb😀c");
    assert_eq!(byte_offset_to_position(&v, 0), (1, 1));
    assert_eq!(byte_offset_to_position(&v, 1), (1, 2));
    assert_eq!(byte_offset_to_position(&v, 3), (1, 3));
    assert_eq!(byte_offset_to_position(&v, 4), (2, 1));
    assert_eq!(byte_offset_to_position(&v, 9), (2, 3));
    assert_eq!(byte_offset_to_position(&v, 100), (2, 4));
    assert_eq!(slice_text(&v, 1, 4), "é\n");
    assert_eq!(slice_text(&v, 5, 9), "😀");
    assert_eq!(slice_text(&v, 4, 4), "");
}

fn event(event: MarkdownEvent, start: usize, end: usize) -> Spanned {
    Spanned { event, start, end }
}

#[test]
fn events_build_a_tree() {
    let input = "- [x] a\n\n---\n";
    let tree = convert_events(
        input,
        vec![
            event(MarkdownEvent::SoftBreak, 0, 0),
            event(MarkdownEvent::Start(MarkdownTag::List(false)), 0, 8),
            event(MarkdownEvent::Start(MarkdownTag::Item), 0, 8),
            event(MarkdownEvent::TaskListMarker(true), 2, 5),
            event(MarkdownEvent::Text("a".to_string()), 6, 7),
            event(MarkdownEvent::HardBreak, 7, 8),
            event(MarkdownEvent::Rule, 9, 12),
            event(MarkdownEvent::End(false), 0, 8),
            event(MarkdownEvent::TaskListMarker(false), 0, 0),
            event(MarkdownEvent::End(false), 0, 8),
            event(MarkdownEvent::End(true), 0, 0),
            event(MarkdownEvent::Other, 0, 0),
            event(MarkdownEvent::Start(MarkdownTag::Paragraph), 0, 1),
        ],
    );
    assert_eq!(tree.len(), 2);
    assert_eq!(tree[0].element, Element::ExternalContent);
    assert_eq!(tree[0].get_attribute("type"), Some("horizontal-rule"));
    assert_eq!(tree[0].content, "---");
    assert_eq!((tree[0].start_line, tree[0].start_col, tree[0].end_line, tree[0].end_col), (3, 1, 3, 4));
    assert_eq!(tree[1].element, Element::List(ListType::Bullet));
    let item = &tree[1].children[0];
    assert_eq!(item.element, Element::ListItem(1));
    assert_eq!(item.get_attribute("checked"), Some("true"));
    assert_eq!(item.children.len(), 2);
    assert_eq!(item.children[0].content, "a");
    assert_eq!(item.children[1].content, "\n");
}

#[test]
fn events_of_code_and_links() {
    let tree = convert_events(
        "xx",
        vec![
            event(MarkdownEvent::Start(MarkdownTag::CodeBlock(Some("rust".to_string()))), 0, 2),
            event(MarkdownEvent::Text("fn a".to_string()), 0, 1),
            event(MarkdownEvent::Text("() {}".to_string()), 1, 2),
            event(MarkdownEvent::End(true), 0, 2),
            event(MarkdownEvent::Start(MarkdownTag::CodeBlock(Some(String::new()))), 0, 2),
            event(MarkdownEvent::End(true), 0, 2),
            event(
                MarkdownEvent::Start(MarkdownTag::Link {
                    dest_url: "ftp://host/x://y".to_string(),
                    title: "T".to_string(),
                }),
                0,
                1,
            ),
            event(MarkdownEvent::End(false), 0, 1),
            event(
                MarkdownEvent::Start(MarkdownTag::Link { dest_url: "local:/".to_string(), title: String::new() }),
                0,
                1,
            ),
            event(MarkdownEvent::End(false), 0, 1),
            event(
                MarkdownEvent::Start(MarkdownTag::Image { dest_url: "i.png".to_string(), title: "It".to_string() }),
                0,
                1,
            ),
            event(MarkdownEvent::End(false), 0, 1),
            event(MarkdownEvent::Code("c".to_string()), 0, 1),
            event(MarkdownEvent::Html("<b>".to_string()), 0, 1),
            event(MarkdownEvent::Start(MarkdownTag::Heading(3)), 0, 1),
            event(MarkdownEvent::End(false), 0, 1),
        ],
    );
    assert_eq!(tree.len(), 8);
    assert_eq!(tree[0].element, Element::TypedBlock { kind: BlockType::Listing });
    assert_eq!(tree[0].get_attribute("content"), Some("fn a() {}"));
    assert_eq!(tree[0].positional_attributes.len(), 2);
    assert_eq!(tree[0].positional_attributes[1].as_str(), "rust");
    assert!(tree[1].positional_attributes.is_empty());
    assert_eq!(tree[1].get_attribute("content"), Some(""));
    assert_eq!(tree[2].get_attribute("url"), Some("ftp://host/x://y"));
    assert_eq!(tree[2].get_attribute("title"), Some("T"));
    assert_eq!(tree[2].get_attribute("protocol"), Some("ftp"));
    assert_eq!(tree[3].get_attribute("protocol"), None);
    assert_eq!(tree[3].get_attribute("title"), None);
    assert_eq!(tree[4].element, Element::Image);
    assert_eq!(tree[4].get_attribute("path"), Some("i.png"));
    assert_eq!(tree[4].positional_attributes[0].as_str(), "It");
    assert_eq!(tree[5].get_attribute("style"), Some("monospaced"));
    assert_eq!(tree[5].get_attribute("content"), Some("c"));
    assert_eq!(tree[6].element, Element::TypedBlock { kind: BlockType::Passtrough });
    assert_eq!(tree[6].get_attribute("content"), Some("<b>"));
    assert_eq!(tree[7].element, Element::Title { level: 3 });
}

#[test]
fn markdown_source_attribute() {
    let mut opts = Opts::new();
    opts.input = Some("doc.md".to_string());
    let mut env = Cache::new();
    let ast = MarkdownReader::new().parse("# t\n", &opts, &mut env).unwrap();
    assert_eq!(ast.get_attribute("source"), Some("doc.md"));
    assert_eq!(ast.content, "# t\n");
    assert_eq!(ast.elements[0].element, Element::Title { level: 1 });
}

#[test]
fn markdown_code_blocks_are_woven() {
    let input = "```lua\nrequire \"m\"\n```\n";
    let mut env = Cache::new();
    let ast = MarkdownReader::new().parse(input, &Opts::new(), &mut env).unwrap();
    let block = &ast.elements[0];
    assert_eq!(block.positional_attributes[0].as_str(), "source");
    let mut lisi = Lisi::from_env(Cache::new());
    let (_, report) = lisi.weave_document(ast).unwrap();
    assert_eq!(report.order, vec!["_id_0_22".to_string()]);
    let _ = lisi.transform(AST { content: String::new(), elements: vec![], attributes: vec![] });
}

/// The table `|===`, `| Col1 | Col2`, an empty line, `| Cell1 | Cell2`,
/// `| Cell3 | Cell4`, `|===` as a document tree.
#[test]
fn asciidoc_to_asciidoc_test_simple_table() {
    let cell = |content: &str| {
        holding(
            new_element(Element::TableCell, content),
            vec![holding(new_element(Element::Paragraph, content), vec![text(content)])],
        )
    };
    let row = |a: &str, b: &str| holding(new_element(Element::TableRow, ""), vec![cell(a), cell(b)]);
    let table = with(
        holding(
            new_element(Element::Table, ""),
            vec![row("Col1", "Col2"), row("Cell1", "Cell2"), row("Cell3", "Cell4")],
        ),
        "content",
        "| Col1 | Col2\n\n| Cell1 | Cell2\n| Cell3 | Cell4\n",
    );
    let output = written(&document(vec![table]));
    // We may need to adjust the expected output based on how tables are parsed
    assert!(output.contains("|==="));
    assert!(output.contains("Col1"));
    assert!(output.contains("Col2"));
    assert!(output.contains("Cell1"));
}

/// The paragraph `Check out link:https://example.com[this link].` as a
/// document tree.
#[test]
fn link_inline() {
    let mut link = with(
        with(new_element(Element::Link, "link:https://example.com[this link]"), "url", "https://example.com"),
        "protocol",
        "https",
    );
    link.positional_attributes.push(AttributeValue::Ref("this link".to_string()));
    let paragraph = holding(
        new_element(Element::Paragraph, "Check out link:https://example.com[this link]."),
        vec![text("Check out "), link, text(".")],
    );
    let output = written(&document(vec![paragraph]));
    assert!(output.contains("link:"));
    assert!(output.contains("https://example.com"));
    assert!(output.contains("this link"));
    assert_eq!(output, "Check out link:https://example.com[this link].");
}

#[test]
fn test_table() {
    let out = parse_columns_format(r#"1,a"#);
    assert_eq!(
        out,
        vec![
            ColumnFormat { length: 1, kind: ColKind::Default },
            ColumnFormat { length: 1, kind: ColKind::Asciidoc },
        ]
    );
}

#[test]
fn column_formats() {
    let default = ColumnFormat { length: 1, kind: ColKind::Default };
    let document = ColumnFormat { length: 1, kind: ColKind::Asciidoc };
    assert_eq!(parse_column_format("a"), document);
    assert_eq!(parse_column_format(" a"), default);
    assert_eq!(parse_column_format(""), default);
    assert_eq!(parse_columns_format(""), vec![default]);
    assert_eq!(parse_columns_format(" a ,, \ta\n,aa,"), vec![document, default, document, default, default]);
    assert_eq!(parse_columns_format_from_content("| a | b |\n| c\n"), vec![default, default, default]);
    assert_eq!(parse_columns_format_from_content(""), vec![]);
    assert_eq!(parse_columns_format_from_content("\n|"), vec![]);
}

#[test]
fn tags_from_what_the_parser_says() {
    let tag = |block, inline| {
        tag_from(block, inline, 4, Some("rust".to_string()), true, "u".to_string(), "t".to_string())
    };
    assert!(matches!(tag(TagKind::Paragraph, TagKind::Link), MarkdownTag::Paragraph));
    assert!(matches!(tag(TagKind::Heading, TagKind::Other), MarkdownTag::Heading(4)));
    assert!(matches!(tag(TagKind::BlockQuote, TagKind::Other), MarkdownTag::BlockQuote));
    assert!(matches!(tag(TagKind::CodeBlock, TagKind::Other), MarkdownTag::CodeBlock(Some(l)) if l == "rust"));
    assert!(matches!(tag(TagKind::HtmlBlock, TagKind::Other), MarkdownTag::HtmlBlock));
    assert!(matches!(tag(TagKind::List, TagKind::Other), MarkdownTag::List(true)));
    assert!(matches!(tag(TagKind::Item, TagKind::Other), MarkdownTag::Item));
    assert!(matches!(tag(TagKind::Table, TagKind::Other), MarkdownTag::Table));
    assert!(matches!(tag(TagKind::TableRow, TagKind::Other), MarkdownTag::TableRow));
    assert!(matches!(tag(TagKind::TableHead, TagKind::Other), MarkdownTag::TableRow));
    assert!(matches!(tag(TagKind::TableCell, TagKind::Other), MarkdownTag::TableCell));
    assert!(matches!(tag(TagKind::Other, TagKind::Emphasis), MarkdownTag::Emphasis));
    assert!(matches!(tag(TagKind::Other, TagKind::Strong), MarkdownTag::Strong));
    assert!(matches!(tag(TagKind::Other, TagKind::Strikethrough), MarkdownTag::Strikethrough));
    assert!(matches!(tag(TagKind::Other, TagKind::Link),
        MarkdownTag::Link { dest_url, title } if dest_url == "u" && title == "t"));
    assert!(matches!(tag(TagKind::Emphasis, TagKind::Image),
        MarkdownTag::Image { dest_url, title } if dest_url == "u" && title == "t"));
    assert!(matches!(tag(TagKind::Other, TagKind::Other), MarkdownTag::Other));
    assert!(matches!(tag(TagKind::Link, TagKind::Paragraph), MarkdownTag::Other));
}

#[test]
fn events_from_what_the_parser_says() {
    let made = |kind| event_from(kind, MarkdownTag::Item, true, "x".to_string(), true);
    assert!(matches!(made(EventKind::Start), MarkdownEvent::Start(MarkdownTag::Item)));
    assert!(matches!(made(EventKind::End), MarkdownEvent::End(true)));
    assert!(matches!(made(EventKind::Text), MarkdownEvent::Text(t) if t == "x"));
    assert!(matches!(made(EventKind::Code), MarkdownEvent::Code(t) if t == "x"));
    assert!(matches!(made(EventKind::Html), MarkdownEvent::Html(t) if t == "x"));
    assert!(matches!(made(EventKind::InlineHtml), MarkdownEvent::Html(t) if t == "x"));
    assert!(matches!(made(EventKind::SoftBreak), MarkdownEvent::SoftBreak));
    assert!(matches!(made(EventKind::HardBreak), MarkdownEvent::HardBreak));
    assert!(matches!(made(EventKind::Rule), MarkdownEvent::Rule));
    assert!(matches!(made(EventKind::TaskListMarker), MarkdownEvent::TaskListMarker(true)));
    assert!(matches!(made(EventKind::Other), MarkdownEvent::Other));
    assert!(matches!(
        event_from(EventKind::End, MarkdownTag::Other, false, String::new(), false),
        MarkdownEvent::End(false)
    ));
}

fn paragraph_of(parts: Vec<ElementSpan>) -> ElementSpan {
    holding(new_element(Element::Paragraph, ""), parts)
}

fn styled(style: &str, content: &str) -> ElementSpan {
    with(with(new_element(Element::Styled, ""), "style", style), "content", content)
}

fn list_of(kind: ListType, items: &[(u32, &str)]) -> ElementSpan {
    let children = items
        .iter()
        .map(|(level, content)| {
            holding(
                new_element(Element::ListItem(*level), ""),
                vec![paragraph_of(vec![text(content)])],
            )
        })
        .collect();
    holding(new_element(Element::List(kind), ""), children)
}

/// The paragraph `This is a simple paragraph.` as a document tree.
#[test]
fn simple_paragraph() {
    let content = "This is a simple paragraph.";
    let output = written(&document(vec![paragraph_of(vec![text(content)])]));
    assert_eq!(output, content);
}

/// Three paragraphs, an empty line between each two, as a document tree.
#[test]
fn multiple_paragraphs() {
    let content = r#"First paragraph.

Second paragraph.

Third paragraph."#;
    let output = written(&document(vec![
        paragraph_of(vec![text("First paragraph.")]),
        paragraph_of(vec![text("Second paragraph.")]),
        paragraph_of(vec![text("Third paragraph.")]),
    ]));
    assert_eq!(output, content);
}

/// Titles of the levels 1 to 6 as a document tree.
#[test]
fn headers_atx_style() {
    let content = r#"= Document Title

== Level 2 Header

=== Level 3 Header

==== Level 4 Header

===== Level 5 Header

====== Level 6 Header"#;
    let title = |level: u32, name: &str| with(new_element(Element::Title { level }, ""), "name", name);
    let output = written(&document(vec![
        title(1, "Document Title"),
        title(2, "Level 2 Header"),
        title(3, "Level 3 Header"),
        title(4, "Level 4 Header"),
        title(5, "Level 5 Header"),
        title(6, "Level 6 Header"),
    ]));
    assert_eq!(output, content);
}

#[test]
fn inline_formatting_bold() {
    let content = "Some text is *bold*.";
    let output = written(&document(vec![paragraph_of(vec![
        text("Some text is "),
        styled("strong", "bold"),
        text("."),
    ])]));
    assert_eq!(output, content);
}

#[test]
fn inline_formatting_italic() {
    let content = "Some text is _italic_.";
    let output = written(&document(vec![paragraph_of(vec![
        text("Some text is "),
        styled("em", "italic"),
        text("."),
    ])]));
    assert_eq!(output, content);
}

#[test]
fn inline_formatting_monospace() {
    let content = "Some text is `monospace`.";
    let output = written(&document(vec![paragraph_of(vec![
        text("Some text is "),
        styled("monospaced", "monospace"),
        text("."),
    ])]));
    assert_eq!(output, content);
}

#[test]
fn inline_formatting_mixed() {
    let content = "Text with *bold*, _italic_, and `code` formatting.";
    let output = written(&document(vec![paragraph_of(vec![
        text("Text with "),
        styled("strong", "bold"),
        text(", "),
        styled("em", "italic"),
        text(", and "),
        styled("monospaced", "code"),
        text(" formatting."),
    ])]));
    assert_eq!(output, content);
}

#[test]
fn bullet_list_simple() {
    let content = r#"* First item
* Second item
* Third item"#;
    let output = written(&document(vec![list_of(
        ListType::Bullet,
        &[(1, "First item"), (1, "Second item"), (1, "Third item")],
    )]));
    assert_eq!(output, content);
}

#[test]
fn bullet_list_nested() {
    let content = r#"* First item
** Nested item
*** Deeply nested
* Second item"#;
    let output = written(&document(vec![list_of(
        ListType::Bullet,
        &[(1, "First item"), (2, "Nested item"), (3, "Deeply nested"), (1, "Second item")],
    )]));
    assert_eq!(output, content);
}

#[test]
fn numbered_list_simple() {
    let content = r#". First item
. Second item
. Third item"#;
    let output = written(&document(vec![list_of(
        ListType::Number,
        &[(1, "First item"), (1, "Second item"), (1, "Third item")],
    )]));
    assert_eq!(output, content);
}

#[test]
fn numbered_list_nested() {
    let content = r#". First item
.. Nested item
... Deeply nested
. Second item"#;
    let output = written(&document(vec![list_of(
        ListType::Number,
        &[(1, "First item"), (2, "Nested item"), (3, "Deeply nested"), (1, "Second item")],
    )]));
    assert_eq!(output, content);
}

/// A listing with the language `bash` as a document tree.
#[test]
fn code_block_listing() {
    let content = r#"[source,bash]
----
echo "Hello, World!"
ls -la
----"#;
    let mut block = with(
        new_element(Element::TypedBlock { kind: BlockType::Listing }, ""),
        "content",
        "echo \"Hello, World!\"\nls -la",
    );
    block.positional_attributes.push(AttributeValue::Ref("source".to_string()));
    block.positional_attributes.push(AttributeValue::Ref("bash".to_string()));
    let output = written(&document(vec![block]));
    assert_eq!(output, content);
}
