//! The Markdown reader. The text is parsed by `pulldown_cmark`; what is
//! verified here is how the events of that parser become a document tree.
//! The events of a text have a name, [`parsed_events`]; what they are is the
//! parser's to say.

use crate::ast::{
    named_view, spans_view, values_view, Attribute, AttributeValue, BlockType, Element,
    ElementSpan, ElementSpec, ListType, NamedSpec, SpanSpec, ValueSpec, AST,
};
use crate::options::Opts;
use crate::reader::{document_attributes, Reader};
use crate::text::{push_char, to_chars};
use crate::util::{AsciidoctrineError, Environment};
use pulldown_cmark::{CodeBlockKind, Event, Options, Parser, Tag, TagEnd};
use vstd::prelude::*;

verus! {

#[verifier::external_type_specification]
#[verifier::external_body]
pub struct ExEvent<'a>(Event<'a>);

/// The kinds of events that the Markdown parser yields.
#[derive(Debug, Clone, Copy, PartialEq, Eq)]
pub enum EventKind {
    Start,
    End,
    Text,
    Code,
    Html,
    InlineHtml,
    SoftBreak,
    HardBreak,
    Rule,
    TaskListMarker,
    Other,
}

/// The kinds of tags that open an element.
#[derive(Debug, Clone, Copy, PartialEq, Eq)]
pub enum TagKind {
    Paragraph,
    Heading,
    BlockQuote,
    CodeBlock,
    HtmlBlock,
    List,
    Item,
    Table,
    TableHead,
    TableRow,
    TableCell,
    Emphasis,
    Strong,
    Strikethrough,
    Link,
    Image,
    Other,
}

/// A tag that opens an element, with what the reader needs of it.
#[derive(Debug)]
pub enum MarkdownTag {
    Paragraph,
    Heading(u32),
    BlockQuote,
    /// A code block, with the language of its fence.
    CodeBlock(Option<String>),
    HtmlBlock,
    /// A list; `true` where it is numbered.
    List(bool),
    Item,
    Table,
    TableRow,
    TableCell,
    Emphasis,
    Strong,
    Strikethrough,
    Link { dest_url: String, title: String },
    Image { dest_url: String, title: String },
    Other,
}

/// An event of the Markdown parser, with what the reader needs of it.
#[derive(Debug)]
pub enum MarkdownEvent {
    Start(MarkdownTag),
    /// The end of an element; `true` where it is a code block.
    End(bool),
    Text(String),
    Code(String),
    Html(String),
    SoftBreak,
    HardBreak,
    Rule,
    TaskListMarker(bool),
    Other,
}

/// An event with the byte range of the text it came from.
#[derive(Debug)]
pub struct Spanned {
    pub event: MarkdownEvent,
    pub start: usize,
    pub end: usize,
}

/// The mathematical value of a [`MarkdownTag`].
pub enum TagSpec {
    Paragraph,
    Heading(u32),
    BlockQuote,
    CodeBlock(Option<Seq<char>>),
    HtmlBlock,
    List(bool),
    Item,
    Table,
    TableRow,
    TableCell,
    Emphasis,
    Strong,
    Strikethrough,
    Link { dest_url: Seq<char>, title: Seq<char> },
    Image { dest_url: Seq<char>, title: Seq<char> },
    Other,
}

/// The mathematical value of a [`MarkdownEvent`].
pub enum EventSpec {
    Start(TagSpec),
    End(bool),
    Text(Seq<char>),
    Code(Seq<char>),
    Html(Seq<char>),
    SoftBreak,
    HardBreak,
    Rule,
    TaskListMarker(bool),
    Other,
}

/// The mathematical value of a [`Spanned`].
pub struct SpannedSpec {
    pub event: EventSpec,
    pub start: usize,
    pub end: usize,
}

impl View for MarkdownTag {
    type V = TagSpec;

    open spec fn view(&self) -> TagSpec {
        match self {
            MarkdownTag::Paragraph => TagSpec::Paragraph,
            MarkdownTag::Heading(level) => TagSpec::Heading(*level),
            MarkdownTag::BlockQuote => TagSpec::BlockQuote,
            MarkdownTag::CodeBlock(lang) => TagSpec::CodeBlock(
                match lang {
                    Some(lang) => Some(lang@),
                    None => None,
                },
            ),
            MarkdownTag::HtmlBlock => TagSpec::HtmlBlock,
            MarkdownTag::List(numbered) => TagSpec::List(*numbered),
            MarkdownTag::Item => TagSpec::Item,
            MarkdownTag::Table => TagSpec::Table,
            MarkdownTag::TableRow => TagSpec::TableRow,
            MarkdownTag::TableCell => TagSpec::TableCell,
            MarkdownTag::Emphasis => TagSpec::Emphasis,
            MarkdownTag::Strong => TagSpec::Strong,
            MarkdownTag::Strikethrough => TagSpec::Strikethrough,
            MarkdownTag::Link { dest_url, title } => TagSpec::Link {
                dest_url: dest_url@,
                title: title@,
            },
            MarkdownTag::Image { dest_url, title } => TagSpec::Image {
                dest_url: dest_url@,
                title: title@,
            },
            MarkdownTag::Other => TagSpec::Other,
        }
    }
}

impl View for MarkdownEvent {
    type V = EventSpec;

    open spec fn view(&self) -> EventSpec {
        match self {
            MarkdownEvent::Start(tag) => EventSpec::Start(tag@),
            MarkdownEvent::End(code) => EventSpec::End(*code),
            MarkdownEvent::Text(text) => EventSpec::Text(text@),
            MarkdownEvent::Code(text) => EventSpec::Code(text@),
            MarkdownEvent::Html(text) => EventSpec::Html(text@),
            MarkdownEvent::SoftBreak => EventSpec::SoftBreak,
            MarkdownEvent::HardBreak => EventSpec::HardBreak,
            MarkdownEvent::Rule => EventSpec::Rule,
            MarkdownEvent::TaskListMarker(checked) => EventSpec::TaskListMarker(*checked),
            MarkdownEvent::Other => EventSpec::Other,
        }
    }
}

impl View for Spanned {
    type V = SpannedSpec;

    open spec fn view(&self) -> SpannedSpec {
        SpannedSpec { event: self.event@, start: self.start, end: self.end }
    }
}

/// The mathematical values of a sequence of events.
pub open spec fn events_view(s: Seq<Spanned>) -> Seq<SpannedSpec> {
    Seq::new(s.len(), |i: int| s[i]@)
}

/// How many bytes a character takes in UTF-8.
pub open spec fn utf8_width(c: char) -> nat {
    if c <= '\u{7F}' {
        1
    } else if c <= '\u{7FF}' {
        2
    } else if c <= '\u{FFFF}' {
        3
    } else {
        4
    }
}

/// The byte offset of the character at index `i`.
pub open spec fn byte_offset(s: Seq<char>, i: int) -> nat
    decreases i,
{
    if i <= 0 || i > s.len() {
        0
    } else {
        byte_offset(s, i - 1) + utf8_width(s[i - 1])
    }
}

/// The characters among the first `n` whose bytes start in the byte range
/// from `start` up to `end`.
pub open spec fn span_text(s: Seq<char>, start: nat, end: nat, n: int) -> Seq<char>
    decreases n,
{
    if n <= 0 || n > s.len() {
        seq![]
    } else {
        let rest = span_text(s, start, end, n - 1);
        if start <= byte_offset(s, n - 1) < end {
            rest.push(s[n - 1])
        } else {
            rest
        }
    }
}

/// The number after `n`, as far as numbers go.
pub open spec fn bump(n: usize) -> usize {
    if n < usize::MAX {
        (n + 1) as usize
    } else {
        n
    }
}

/// The line and the column of the first `n` characters whose bytes start
/// before the byte offset `offset`: lines and columns count from one, and
/// a line feed starts a new line.
pub open spec fn position(s: Seq<char>, offset: nat, n: int) -> (usize, usize)
    decreases n,
{
    if n <= 0 || n > s.len() {
        (1, 1)
    } else {
        let (line, col) = position(s, offset, n - 1);
        if byte_offset(s, n - 1) >= offset {
            (line, col)
        } else if s[n - 1] == '\n' {
            (bump(line), 1)
        } else {
            (line, bump(col))
        }
    }
}

/// Where `://` first stands in `s` at or after `i`; the length of `s` if
/// nowhere.
pub open spec fn protocol_end(s: Seq<char>, i: int) -> int
    decreases s.len() - i,
{
    if 0 <= i && i + 2 < s.len() {
        if s[i] == ':' && s[i + 1] == '/' && s[i + 2] == '/' {
            i
        } else {
            protocol_end(s, i + 1)
        }
    } else {
        s.len() as int
    }
}

/// A node without children and attributes for the text between two byte
/// offsets of the input.
pub open spec fn leaf(input: Seq<char>, start: usize, end: usize, element: ElementSpec) -> SpanSpec {
    SpanSpec {
        source: None,
        content: span_text(input, start as nat, end as nat, input.len() as int),
        start,
        end,
        start_line: position(input, start as nat, input.len() as int).0,
        start_col: position(input, start as nat, input.len() as int).1,
        end_line: position(input, end as nat, input.len() as int).0,
        end_col: position(input, end as nat, input.len() as int).1,
        element,
        children: seq![],
        positional_attributes: seq![],
        attributes: seq![],
    }
}

pub open spec fn named_ref(key: Seq<char>, value: Seq<char>) -> NamedSpec {
    NamedSpec { key, value: ValueSpec::Ref(value) }
}

pub open spec fn named_text(key: Seq<char>, value: Seq<char>) -> NamedSpec {
    NamedSpec { key, value: ValueSpec::String(value) }
}

/// The node that a tag opens.
pub open spec fn opened(input: Seq<char>, start: usize, end: usize, tag: TagSpec) -> SpanSpec {
    match tag {
        TagSpec::Paragraph => leaf(input, start, end, ElementSpec::Paragraph),
        TagSpec::Heading(level) => leaf(input, start, end, ElementSpec::Title { level }),
        TagSpec::BlockQuote => leaf(
            input,
            start,
            end,
            ElementSpec::TypedBlock { kind: BlockType::Quote },
        ),
        TagSpec::CodeBlock(lang) => {
            let block = leaf(input, start, end, ElementSpec::TypedBlock { kind: BlockType::Listing });
            match lang {
                Some(lang) => if lang.len() > 0 {
                    SpanSpec {
                        positional_attributes: seq![
                            ValueSpec::String("source"@),
                            ValueSpec::String(lang),
                        ],
                        ..block
                    }
                } else {
                    block
                },
                None => block,
            }
        },
        TagSpec::HtmlBlock => leaf(
            input,
            start,
            end,
            ElementSpec::TypedBlock { kind: BlockType::Passtrough },
        ),
        TagSpec::List(numbered) => leaf(
            input,
            start,
            end,
            ElementSpec::List(
                if numbered {
                    ListType::Number
                } else {
                    ListType::Bullet
                },
            ),
        ),
        TagSpec::Item => leaf(input, start, end, ElementSpec::ListItem(1)),
        TagSpec::Table => leaf(input, start, end, ElementSpec::Table),
        TagSpec::TableRow => leaf(input, start, end, ElementSpec::TableRow),
        TagSpec::TableCell => leaf(input, start, end, ElementSpec::TableCell),
        TagSpec::Emphasis => SpanSpec {
            attributes: seq![named_ref("style"@, "em"@)],
            ..leaf(input, start, end, ElementSpec::Styled)
        },
        TagSpec::Strong => SpanSpec {
            attributes: seq![named_ref("style"@, "strong"@)],
            ..leaf(input, start, end, ElementSpec::Styled)
        },
        TagSpec::Strikethrough => SpanSpec {
            attributes: seq![named_ref("style"@, "strikethrough"@)],
            ..leaf(input, start, end, ElementSpec::Styled)
        },
        TagSpec::Link { dest_url, title } => {
            let url = seq![named_text("url"@, dest_url)];
            let titled = if title.len() > 0 {
                url.push(named_text("title"@, title))
            } else {
                url
            };
            let p = protocol_end(dest_url, 0);
            SpanSpec {
                attributes: if 0 <= p < dest_url.len() {
                    titled.push(named_text("protocol"@, dest_url.subrange(0, p)))
                } else {
                    titled
                },
                ..leaf(input, start, end, ElementSpec::Link)
            }
        },
        TagSpec::Image { dest_url, title } => SpanSpec {
            attributes: seq![named_text("path"@, dest_url)],
            positional_attributes: if title.len() > 0 {
                seq![ValueSpec::String(title)]
            } else {
                seq![]
            },
            ..leaf(input, start, end, ElementSpec::Image)
        },
        TagSpec::Other => leaf(input, start, end, ElementSpec::Text),
    }
}

/// What the reader holds between two events.
pub struct ReaderState {
    /// The finished nodes of the top level.
    pub elements: Seq<SpanSpec>,
    /// The nodes that are open, the innermost last.
    pub stack: Seq<SpanSpec>,
    /// The text of the code block that is open.
    pub current_text: Seq<char>,
}

/// The state after a finished node was put where it belongs: below the
/// innermost open node, or at the top level where none is open.
pub open spec fn attached(state: ReaderState, node: SpanSpec) -> ReaderState {
    if state.stack.len() > 0 {
        let parent = state.stack.last();
        ReaderState {
            stack: state.stack.drop_last().push(
                SpanSpec { children: parent.children.push(node), ..parent },
            ),
            ..state
        }
    } else {
        ReaderState { elements: state.elements.push(node), ..state }
    }
}

/// The state after one event.
pub open spec fn stepped(state: ReaderState, input: Seq<char>, e: SpannedSpec) -> ReaderState {
    match e.event {
        EventSpec::Start(tag) => ReaderState {
            stack: state.stack.push(opened(input, e.start, e.end, tag)),
            ..state
        },
        EventSpec::End(code) => if state.stack.len() > 0 {
            let top = state.stack.last();
            let rest = ReaderState { stack: state.stack.drop_last(), ..state };
            if code {
                attached(
                    ReaderState { current_text: seq![], ..rest },
                    SpanSpec {
                        attributes: top.attributes.push(
                            named_text("content"@, state.current_text),
                        ),
                        ..top
                    },
                )
            } else {
                attached(rest, top)
            }
        } else {
            state
        },
        EventSpec::Text(text) => if state.stack.len() > 0 && state.stack.last().element == (
        ElementSpec::TypedBlock { kind: BlockType::Listing }) {
            ReaderState { current_text: state.current_text + text, ..state }
        } else {
            attached(state, leaf(input, e.start, e.end, ElementSpec::Text))
        },
        EventSpec::Code(code) => attached(
            state,
            SpanSpec {
                attributes: seq![
                    named_ref("style"@, "monospaced"@),
                    named_text("content"@, code),
                ],
                ..leaf(input, e.start, e.end, ElementSpec::Styled)
            },
        ),
        EventSpec::Html(html) => attached(
            state,
            SpanSpec {
                attributes: seq![named_text("content"@, html)],
                ..leaf(input, e.start, e.end, ElementSpec::TypedBlock { kind: BlockType::Passtrough })
            },
        ),
        EventSpec::SoftBreak | EventSpec::HardBreak => if state.stack.len() > 0 {
            attached(
                state,
                SpanSpec { content: "\n"@, ..leaf(input, e.start, e.end, ElementSpec::Text) },
            )
        } else {
            state
        },
        EventSpec::Rule => ReaderState {
            elements: state.elements.push(
                SpanSpec {
                    attributes: seq![named_ref("type"@, "horizontal-rule"@)],
                    ..leaf(input, e.start, e.end, ElementSpec::ExternalContent)
                },
            ),
            ..state
        },
        EventSpec::TaskListMarker(checked) => if state.stack.len() > 0
            && state.stack.last().element is ListItem {
            let parent = state.stack.last();
            ReaderState {
                stack: state.stack.drop_last().push(
                    SpanSpec {
                        attributes: parent.attributes.push(
                            named_text(
                                "checked"@,
                                if checked {
                                    "true"@
                                } else {
                                    "false"@
                                },
                            ),
                        ),
                        ..parent
                    },
                ),
                ..state
            }
        } else {
            state
        },
        EventSpec::Other => state,
    }
}

/// The state after the first `n` events.
pub open spec fn ran(input: Seq<char>, events: Seq<SpannedSpec>, n: int) -> ReaderState
    decreases n,
{
    if n <= 0 || n > events.len() {
        ReaderState { elements: seq![], stack: seq![], current_text: seq![] }
    } else {
        stepped(ran(input, events, n - 1), input, events[n - 1])
    }
}

/// The top-level nodes that the events build. Nodes that are still open
/// at the end are left out.
pub open spec fn built(input: Seq<char>, events: Seq<SpannedSpec>) -> Seq<SpanSpec> {
    ran(input, events, events.len() as int).elements
}

fn char_width(c: char) -> (w: u128)
    ensures
        w == utf8_width(c),
{
    if c <= '\u{7F}' {
        1
    } else if c <= '\u{7FF}' {
        2
    } else if c <= '\u{FFFF}' {
        3
    } else {
        4
    }
}

pub proof fn lemma_byte_offset_bound(s: Seq<char>, i: int)
    requires
        0 <= i <= s.len(),
    ensures
        byte_offset(s, i) <= 4 * i,
    decreases i,
{
    if i > 0 {
        lemma_byte_offset_bound(s, i - 1);
    }
}

/// The text of the input between two byte offsets.
pub fn slice_text(v: &Vec<char>, start: usize, end: usize) -> (r: String)
    ensures
        r@ == span_text(v@, start as nat, end as nat, v@.len() as int),
{
    let mut r = String::new();
    let mut offset: u128 = 0;
    let mut i: usize = 0;
    while i < v.len()
        invariant
            i <= v.len(),
            offset == byte_offset(v@, i as int),
            r@ == span_text(v@, start as nat, end as nat, i as int),
        decreases v.len() - i,
    {
        proof {
            lemma_byte_offset_bound(v@, i as int);
        }
        if start as u128 <= offset && offset < end as u128 {
            push_char(&mut r, v[i]);
        }
        offset = offset + char_width(v[i]);
        i += 1;
    }
    r
}

/// The line and the column of a byte offset of the input.
pub fn byte_offset_to_position(v: &Vec<char>, offset: usize) -> (r: (usize, usize))
    ensures
        r == position(v@, offset as nat, v@.len() as int),
{
    let mut line: usize = 1;
    let mut col: usize = 1;
    let mut at: u128 = 0;
    let mut i: usize = 0;
    while i < v.len()
        invariant
            i <= v.len(),
            at == byte_offset(v@, i as int),
            (line, col) == position(v@, offset as nat, i as int),
        decreases v.len() - i,
    {
        proof {
            lemma_byte_offset_bound(v@, i as int);
        }
        if at < offset as u128 {
            if v[i] == '\n' {
                if line < usize::MAX {
                    line += 1;
                }
                col = 1;
            } else {
                if col < usize::MAX {
                    col += 1;
                }
            }
        }
        at = at + char_width(v[i]);
        i += 1;
    }
    (line, col)
}

fn find_protocol(s: &Vec<char>) -> (p: usize)
    ensures
        p == protocol_end(s@, 0),
        p <= s.len(),
{
    let mut i: usize = 0;
    while i < s.len() && s.len() - i > 2
        invariant
            i <= s.len(),
            protocol_end(s@, 0) == protocol_end(s@, i as int),
        decreases s.len() - i,
    {
        if s[i] == ':' && s[i + 1] == '/' && s[i + 2] == '/' {
            return i;
        }
        i += 1;
    }
    s.len()
}

fn named_owned(key: &str, value: String) -> (a: Attribute)
    ensures
        a@ == named_text(key@, value@),
{
    Attribute { key: String::from_str(key), value: AttributeValue::String(value) }
}

fn named_borrowed(key: &str, value: &str) -> (a: Attribute)
    ensures
        a@ == named_ref(key@, value@),
{
    Attribute { key: String::from_str(key), value: AttributeValue::Ref(String::from_str(value)) }
}

fn make_node(
    v: &Vec<char>,
    start: usize,
    end: usize,
    element: Element,
    positional_attributes: Vec<AttributeValue>,
    attributes: Vec<Attribute>,
) -> (r: ElementSpan)
    ensures
        r@ == (SpanSpec {
            positional_attributes: values_view(positional_attributes@),
            attributes: named_view(attributes@),
            ..leaf(v@, start, end, element@)
        }),
{
    let (start_line, start_col) = byte_offset_to_position(v, start);
    let (end_line, end_col) = byte_offset_to_position(v, end);
    let r = ElementSpan {
        source: None,
        content: slice_text(v, start, end),
        start,
        end,
        start_line,
        start_col,
        end_line,
        end_col,
        element,
        children: Vec::new(),
        positional_attributes,
        attributes,
    };
    assert(r@.children =~= seq![]);
    r
}

fn open_tag(v: &Vec<char>, start: usize, end: usize, tag: MarkdownTag) -> (r: ElementSpan)
    ensures
        r@ == opened(v@, start, end, tag@),
{
    let mut positional: Vec<AttributeValue> = Vec::new();
    let mut attributes: Vec<Attribute> = Vec::new();
    assert(values_view(positional@) =~= seq![]);
    assert(named_view(attributes@) =~= seq![]);
    let element = match tag {
        MarkdownTag::Paragraph => Element::Paragraph,
        MarkdownTag::Heading(level) => Element::Title { level },
        MarkdownTag::BlockQuote => Element::TypedBlock { kind: BlockType::Quote },
        MarkdownTag::CodeBlock(lang) => {
            match lang {
                Some(lang) => {
                    if lang.as_str().unicode_len() > 0 {
                        positional.push(AttributeValue::String(String::from_str("source")));
                        positional.push(AttributeValue::String(lang));
                        assert(values_view(positional@) =~= seq![
                            ValueSpec::String("source"@),
                            ValueSpec::String(lang@),
                        ]);
                    }
                },
                None => {},
            }
            Element::TypedBlock { kind: BlockType::Listing }
        },
        MarkdownTag::HtmlBlock => Element::TypedBlock { kind: BlockType::Passtrough },
        MarkdownTag::List(numbered) => if numbered {
            Element::List(ListType::Number)
        } else {
            Element::List(ListType::Bullet)
        },
        MarkdownTag::Item => Element::ListItem(1),
        MarkdownTag::Table => Element::Table,
        MarkdownTag::TableRow => Element::TableRow,
        MarkdownTag::TableCell => Element::TableCell,
        MarkdownTag::Emphasis => {
            attributes.push(named_borrowed("style", "em"));
            assert(named_view(attributes@) =~= seq![named_ref("style"@, "em"@)]);
            Element::Styled
        },
        MarkdownTag::Strong => {
            attributes.push(named_borrowed("style", "strong"));
            assert(named_view(attributes@) =~= seq![named_ref("style"@, "strong"@)]);
            Element::Styled
        },
        MarkdownTag::Strikethrough => {
            attributes.push(named_borrowed("style", "strikethrough"));
            assert(named_view(attributes@) =~= seq![named_ref("style"@, "strikethrough"@)]);
            Element::Styled
        },
        MarkdownTag::Link { dest_url, title } => {
            let dest = to_chars(dest_url.as_str());
            let p = find_protocol(&dest);
            let protocol = crate::codeblock_parser::slice_string(&dest, 0, p);
            let ghost url = seq![named_text("url"@, dest_url@)];
            attributes.push(named_owned("url", dest_url));
            assert(named_view(attributes@) =~= url);
            if title.as_str().unicode_len() > 0 {
                attributes.push(named_owned("title", title));
                assert(named_view(attributes@) =~= url.push(named_text("title"@, title@)));
            }
            let ghost titled = named_view(attributes@);
            if p < dest.len() {
                attributes.push(named_owned("protocol", protocol));
                assert(named_view(attributes@) =~= titled.push(
                    named_text("protocol"@, dest@.subrange(0, p as int)),
                ));
            }
            Element::Link
        },
        MarkdownTag::Image { dest_url, title } => {
            attributes.push(named_owned("path", dest_url));
            assert(named_view(attributes@) =~= seq![named_text("path"@, dest_url@)]);
            if title.as_str().unicode_len() > 0 {
                positional.push(AttributeValue::String(title));
                assert(values_view(positional@) =~= seq![ValueSpec::String(title@)]);
            }
            Element::Image
        },
        MarkdownTag::Other => Element::Text,
    };
    make_node(v, start, end, element, positional, attributes)
}

/// Puts a finished node where it belongs: below the innermost open node,
/// or at the top level where none is open.
fn attach(elements: &mut Vec<ElementSpan>, stack: &mut Vec<ElementSpan>, node: ElementSpan)
    ensures
        ({
            let before = ReaderState {
                elements: spans_view(old(elements)@),
                stack: spans_view(old(stack)@),
                current_text: seq![],
            };
            let after = attached(before, node@);
            spans_view(final(elements)@) == after.elements && spans_view(final(stack)@)
                == after.stack
        }),
{
    let ghost elements0 = spans_view(elements@);
    let ghost stack0 = spans_view(stack@);
    if stack.len() > 0 {
        assert(stack0.last() == stack@[stack@.len() - 1]@);
        let mut parent = stack.pop().unwrap();
        let ghost parent0 = parent@;
        proof {
            parent.lemma_children();
        }
        let ghost node_view = node@;
        parent.children.push(node);
        proof {
            parent.lemma_children();
            assert(parent@.children =~= parent0.children.push(node_view));
        }
        stack.push(parent);
        assert(spans_view(stack@) =~= stack0.drop_last().push(
            SpanSpec { children: parent0.children.push(node_view), ..parent0 },
        ));
        assert(spans_view(elements@) =~= elements0);
    } else {
        elements.push(node);
        assert(spans_view(elements@) =~= elements0.push(node@));
        assert(spans_view(stack@) =~= stack0);
    }
}

fn is_listing(span: &ElementSpan) -> (r: bool)
    ensures
        r == (span@.element == (ElementSpec::TypedBlock { kind: BlockType::Listing })),
{
    assert(span@.element == span.element@);
    match &span.element {
        Element::TypedBlock { kind: BlockType::Listing } => true,
        _ => false,
    }
}

fn is_list_item(span: &ElementSpan) -> (r: bool)
    ensures
        r == (span@.element is ListItem),
{
    assert(span@.element == span.element@);
    match &span.element {
        Element::ListItem(_) => true,
        _ => false,
    }
}

/// The top-level nodes that the events build from the input.
pub fn convert_events(input: &str, events: Vec<Spanned>) -> (r: Vec<ElementSpan>)
    ensures
        spans_view(r@) == built(input@, events_view(events@)),
{
    let v = to_chars(input);
    let ghost all = events_view(events@);
    let n = events.len();
    let mut events = events;
    let mut elements: Vec<ElementSpan> = Vec::new();
    let mut stack: Vec<ElementSpan> = Vec::new();
    let mut current_text = String::new();
    let mut i: usize = 0;
    assert(spans_view(elements@) =~= seq![]);
    assert(spans_view(stack@) =~= seq![]);
    while i < n
        invariant
            i <= n,
            n == all.len(),
            v@ == input@,
            events@.len() == n - i,
            forall|k: int| 0 <= k < events@.len() ==> events@[k]@ == all[i + k],
            ran(v@, all, i as int) == (ReaderState {
                elements: spans_view(elements@),
                stack: spans_view(stack@),
                current_text: current_text@,
            }),
        decreases n - i,
    {
        let ghost state = ran(v@, all, i as int);
        let Spanned { event, start, end } = events.remove(0);
        let ghost e = all[i as int];
        assert(e.event == event@ && e.start == start && e.end == end);
        let ghost stack0 = spans_view(stack@);
        let ghost elements0 = spans_view(elements@);
        match event {
            MarkdownEvent::Start(tag) => {
                let node = open_tag(&v, start, end, tag);
                stack.push(node);
                assert(spans_view(stack@) =~= stack0.push(node@));
            },
            MarkdownEvent::End(code) => {
                if stack.len() > 0 {
                    assert(stack0.last() == stack@[stack@.len() - 1]@);
                    let mut top = stack.pop().unwrap();
                    assert(spans_view(stack@) =~= stack0.drop_last());
                    if code {
                        let ghost top0 = top@;
                        let ghost attrs0 = named_view(top.attributes@);
                        proof {
                            top.lemma_children();
                        }
                        let mut text = String::new();
                        core::mem::swap(&mut text, &mut current_text);
                        top.attributes.push(named_owned("content", text));
                        proof {
                            top.lemma_children();
                            assert(named_view(top.attributes@) =~= attrs0.push(
                                named_text("content"@, state.current_text),
                            ));
                            assert(top@.children =~= top0.children);
                        }
                    }
                    attach(&mut elements, &mut stack, top);
                }
            },
            MarkdownEvent::Text(text) => {
                let inside = if stack.len() > 0 {
                    assert(stack0.last() == stack@[stack@.len() - 1]@);
                    is_listing(&stack[stack.len() - 1])
                } else {
                    false
                };
                if inside {
                    current_text.append(text.as_str());
                } else {
                    let node = make_node(&v, start, end, Element::Text, Vec::new(), Vec::new());
                    assert(node@ == leaf(v@, start, end, ElementSpec::Text)) by {
                        assert(node@.positional_attributes =~= seq![]);
                        assert(node@.attributes =~= seq![]);
                    }
                    attach(&mut elements, &mut stack, node);
                }
            },
            MarkdownEvent::Code(code) => {
                let mut attributes: Vec<Attribute> = Vec::new();
                attributes.push(named_borrowed("style", "monospaced"));
                attributes.push(named_owned("content", code));
                assert(named_view(attributes@) =~= seq![
                    named_ref("style"@, "monospaced"@),
                    named_text("content"@, code@),
                ]);
                let node = make_node(&v, start, end, Element::Styled, Vec::new(), attributes);
                assert(node@.positional_attributes =~= seq![]);
                attach(&mut elements, &mut stack, node);
            },
            MarkdownEvent::Html(html) => {
                let mut attributes: Vec<Attribute> = Vec::new();
                attributes.push(named_owned("content", html));
                assert(named_view(attributes@) =~= seq![named_text("content"@, html@)]);
                let node = make_node(
                    &v,
                    start,
                    end,
                    Element::TypedBlock { kind: BlockType::Passtrough },
                    Vec::new(),
                    attributes,
                );
                assert(node@.positional_attributes =~= seq![]);
                attach(&mut elements, &mut stack, node);
            },
            MarkdownEvent::SoftBreak | MarkdownEvent::HardBreak => {
                if stack.len() > 0 {
                    let mut node = make_node(&v, start, end, Element::Text, Vec::new(), Vec::new());
                    let ghost node0 = node@;
                    proof {
                        node.lemma_children();
                    }
                    node.content = String::from_str("\n");
                    proof {
                        node.lemma_children();
                        assert(node@.positional_attributes =~= seq![]);
                        assert(node@.attributes =~= seq![]);
                        assert(node@.children =~= seq![]);
                    }
                    attach(&mut elements, &mut stack, node);
                }
            },
            MarkdownEvent::Rule => {
                let mut attributes: Vec<Attribute> = Vec::new();
                attributes.push(named_borrowed("type", "horizontal-rule"));
                assert(named_view(attributes@) =~= seq![named_ref("type"@, "horizontal-rule"@)]);
                let node = make_node(
                    &v,
                    start,
                    end,
                    Element::ExternalContent,
                    Vec::new(),
                    attributes,
                );
                assert(node@.positional_attributes =~= seq![]);
                elements.push(node);
                assert(spans_view(elements@) =~= elements0.push(node@));
            },
            MarkdownEvent::TaskListMarker(checked) => {
                let inside = if stack.len() > 0 {
                    assert(stack0.last() == stack@[stack@.len() - 1]@);
                    is_list_item(&stack[stack.len() - 1])
                } else {
                    false
                };
                if inside {
                    let mut parent = stack.pop().unwrap();
                    let ghost parent0 = parent@;
                    let ghost attrs0 = named_view(parent.attributes@);
                    proof {
                        parent.lemma_children();
                    }
                    let value = if checked {
                        String::from_str("true")
                    } else {
                        String::from_str("false")
                    };
                    let attribute = named_owned("checked", value);
                    parent.attributes.push(attribute);
                    proof {
                        parent.lemma_children();
                        assert(named_view(parent.attributes@) =~= attrs0.push(attribute@));
                        assert(parent@.children =~= parent0.children);
                    }
                    stack.push(parent);
                    assert(spans_view(stack@) =~= stack0.drop_last().push(parent@));
                }
            },
            MarkdownEvent::Other => {},
        }
        i += 1;
    }
    elements
}

/// The tag of an opened element, given its kind among the blocks, its
/// kind among the inline elements, and what else the parser says of it: a
/// block where it is one, else an inline element where it is one, else
/// `Other`. The head of a table is one of its rows. The level counts for a heading only, the language for a code
/// block, the numbering for a list, destination and title for a link or an
/// image.
pub open spec fn tag_of(
    block: TagKind,
    inline: TagKind,
    level: u32,
    language: Option<Seq<char>>,
    numbered: bool,
    dest_url: Seq<char>,
    title: Seq<char>,
) -> TagSpec {
    match block {
        TagKind::Paragraph => TagSpec::Paragraph,
        TagKind::Heading => TagSpec::Heading(level),
        TagKind::BlockQuote => TagSpec::BlockQuote,
        TagKind::CodeBlock => TagSpec::CodeBlock(language),
        TagKind::HtmlBlock => TagSpec::HtmlBlock,
        TagKind::List => TagSpec::List(numbered),
        TagKind::Item => TagSpec::Item,
        TagKind::Table => TagSpec::Table,
        TagKind::TableHead => TagSpec::TableRow,
        TagKind::TableRow => TagSpec::TableRow,
        TagKind::TableCell => TagSpec::TableCell,
        _ => match inline {
            TagKind::Emphasis => TagSpec::Emphasis,
            TagKind::Strong => TagSpec::Strong,
            TagKind::Strikethrough => TagSpec::Strikethrough,
            TagKind::Link => TagSpec::Link { dest_url, title },
            TagKind::Image => TagSpec::Image { dest_url, title },
            _ => TagSpec::Other,
        },
    }
}

/// The event in plain values, given its kind and what else the parser
/// says of it. The tag counts for a start only, the text for text, code
/// and HTML, the mark for a task; HTML in a line and HTML in a block are
/// one kind of event.
pub open spec fn event_of(
    kind: EventKind,
    tag: TagSpec,
    ends_code: bool,
    text: Seq<char>,
    checked: bool,
) -> EventSpec {
    match kind {
        EventKind::Start => EventSpec::Start(tag),
        EventKind::End => EventSpec::End(ends_code),
        EventKind::Text => EventSpec::Text(text),
        EventKind::Code => EventSpec::Code(text),
        EventKind::Html => EventSpec::Html(text),
        EventKind::InlineHtml => EventSpec::Html(text),
        EventKind::SoftBreak => EventSpec::SoftBreak,
        EventKind::HardBreak => EventSpec::HardBreak,
        EventKind::Rule => EventSpec::Rule,
        EventKind::TaskListMarker => EventSpec::TaskListMarker(checked),
        EventKind::Other => EventSpec::Other,
    }
}

/// The tag of an opened element, given what the parser says of it.
pub fn tag_from(
    block: TagKind,
    inline: TagKind,
    level: u32,
    language: Option<String>,
    numbered: bool,
    dest_url: String,
    title: String,
) -> (r: MarkdownTag)
    ensures
        r@ == tag_of(
            block,
            inline,
            level,
            match language {
                Some(language) => Some(language@),
                None => None,
            },
            numbered,
            dest_url@,
            title@,
        ),
{
    match block {
        TagKind::Paragraph => MarkdownTag::Paragraph,
        TagKind::Heading => MarkdownTag::Heading(level),
        TagKind::BlockQuote => MarkdownTag::BlockQuote,
        TagKind::CodeBlock => MarkdownTag::CodeBlock(language),
        TagKind::HtmlBlock => MarkdownTag::HtmlBlock,
        TagKind::List => MarkdownTag::List(numbered),
        TagKind::Item => MarkdownTag::Item,
        TagKind::Table => MarkdownTag::Table,
        TagKind::TableHead | TagKind::TableRow => MarkdownTag::TableRow,
        TagKind::TableCell => MarkdownTag::TableCell,
        _ => match inline {
            TagKind::Emphasis => MarkdownTag::Emphasis,
            TagKind::Strong => MarkdownTag::Strong,
            TagKind::Strikethrough => MarkdownTag::Strikethrough,
            TagKind::Link => MarkdownTag::Link { dest_url, title },
            TagKind::Image => MarkdownTag::Image { dest_url, title },
            _ => MarkdownTag::Other,
        },
    }
}

/// The event in plain values, given what the parser says of it.
pub fn event_from(
    kind: EventKind,
    tag: MarkdownTag,
    ends_code: bool,
    text: String,
    checked: bool,
) -> (r: MarkdownEvent)
    ensures
        r@ == event_of(kind, tag@, ends_code, text@, checked),
{
    match kind {
        EventKind::Start => MarkdownEvent::Start(tag),
        EventKind::End => MarkdownEvent::End(ends_code),
        EventKind::Text => MarkdownEvent::Text(text),
        EventKind::Code => MarkdownEvent::Code(text),
        EventKind::Html | EventKind::InlineHtml => MarkdownEvent::Html(text),
        EventKind::SoftBreak => MarkdownEvent::SoftBreak,
        EventKind::HardBreak => MarkdownEvent::HardBreak,
        EventKind::Rule => MarkdownEvent::Rule,
        EventKind::TaskListMarker => MarkdownEvent::TaskListMarker(checked),
        EventKind::Other => MarkdownEvent::Other,
    }
}

/// The kind of an event.
///
/// Trusted: tells the variants of `pulldown_cmark::Event` apart.
#[verifier::external_body]
fn event_kind(event: &Event<'_>) -> EventKind {
    match event {
        Event::Start(_) => EventKind::Start,
        Event::End(_) => EventKind::End,
        Event::Text(_) => EventKind::Text,
        Event::Code(_) => EventKind::Code,
        Event::Html(_) => EventKind::Html,
        Event::InlineHtml(_) => EventKind::InlineHtml,
        Event::SoftBreak => EventKind::SoftBreak,
        Event::HardBreak => EventKind::HardBreak,
        Event::Rule => EventKind::Rule,
        Event::TaskListMarker(_) => EventKind::TaskListMarker,
        _ => EventKind::Other,
    }
}

/// The text that an event of text, code or HTML carries; empty for the
/// others.
///
/// Trusted: picks the field of `pulldown_cmark::Event`.
#[verifier::external_body]
fn event_text(event: &Event<'_>) -> String {
    match event {
        Event::Text(t) | Event::Code(t) | Event::Html(t) | Event::InlineHtml(t) => t.to_string(),
        _ => String::new(),
    }
}

/// Whether an event marks a task as done.
///
/// Trusted: picks the field of `Event::TaskListMarker`.
#[verifier::external_body]
fn task_checked(event: &Event<'_>) -> bool {
    matches!(event, Event::TaskListMarker(true))
}

/// Whether an event ends a code block.
///
/// Trusted: tells `TagEnd::CodeBlock` from the other ends.
#[verifier::external_body]
fn ends_code_block(event: &Event<'_>) -> bool {
    matches!(event, Event::End(TagEnd::CodeBlock))
}

/// The kind of the block that an event opens; `Other` where it opens none
/// of them.
///
/// Trusted: tells the block variants of `pulldown_cmark::Tag` apart.
#[verifier::external_body]
fn block_tag(event: &Event<'_>) -> TagKind {
    match event {
        Event::Start(Tag::Paragraph) => TagKind::Paragraph,
        Event::Start(Tag::Heading { .. }) => TagKind::Heading,
        Event::Start(Tag::BlockQuote(_)) => TagKind::BlockQuote,
        Event::Start(Tag::CodeBlock(_)) => TagKind::CodeBlock,
        Event::Start(Tag::HtmlBlock) => TagKind::HtmlBlock,
        Event::Start(Tag::List(_)) => TagKind::List,
        Event::Start(Tag::Item) => TagKind::Item,
        Event::Start(Tag::Table(_)) => TagKind::Table,
        Event::Start(Tag::TableHead) => TagKind::TableHead,
        Event::Start(Tag::TableRow) => TagKind::TableRow,
        Event::Start(Tag::TableCell) => TagKind::TableCell,
        _ => TagKind::Other,
    }
}

/// The kind of the inline element that an event opens; `Other` where it
/// opens none of them.
///
/// Trusted: tells the inline variants of `pulldown_cmark::Tag` apart.
#[verifier::external_body]
fn inline_tag(event: &Event<'_>) -> TagKind {
    match event {
        Event::Start(Tag::Emphasis) => TagKind::Emphasis,
        Event::Start(Tag::Strong) => TagKind::Strong,
        Event::Start(Tag::Strikethrough) => TagKind::Strikethrough,
        Event::Start(Tag::Link { .. }) => TagKind::Link,
        Event::Start(Tag::Image { .. }) => TagKind::Image,
        _ => TagKind::Other,
    }
}

/// The level of the heading that an event opens, from 1 to 6; 0 where it
/// opens none.
///
/// Trusted: the number of `pulldown_cmark::HeadingLevel`.
#[verifier::external_body]
fn heading_level(event: &Event<'_>) -> u32 {
    match event {
        Event::Start(Tag::Heading { level, .. }) => *level as u32,
        _ => 0,
    }
}

/// The language of the fenced code block that an event opens.
///
/// Trusted: picks the field of `CodeBlockKind::Fenced`.
#[verifier::external_body]
fn fence_language(event: &Event<'_>) -> Option<String> {
    match event {
        Event::Start(Tag::CodeBlock(CodeBlockKind::Fenced(lang))) => Some(lang.to_string()),
        _ => None,
    }
}

/// Whether an event opens a numbered list.
///
/// Trusted: tells whether `Tag::List` carries a number.
#[verifier::external_body]
fn list_numbered(event: &Event<'_>) -> bool {
    matches!(event, Event::Start(Tag::List(Some(_))))
}

/// The destination and the title of the link or image that an event
/// opens.
///
/// Trusted: picks the fields of `Tag::Link` and `Tag::Image`.
#[verifier::external_body]
fn link_target(event: &Event<'_>) -> (String, String) {
    match event {
        Event::Start(Tag::Link { dest_url, title, .. })
        | Event::Start(Tag::Image { dest_url, title, .. }) => {
            (dest_url.to_string(), title.to_string())
        },
        _ => (String::new(), String::new()),
    }
}

/// The tag that an event opens, from what the parser says of the event.
/// The parser decides what comes back; what is made of it is
/// [`tag_from`].
fn classify_tag(event: &Event<'_>) -> MarkdownTag {
    let (dest_url, title) = link_target(event);
    tag_from(
        block_tag(event),
        inline_tag(event),
        heading_level(event),
        fence_language(event),
        list_numbered(event),
        dest_url,
        title,
    )
}

/// An event in plain values, from what the parser says of the event. The
/// parser decides what comes back; what is made of it is [`event_from`].
fn classify(event: &Event<'_>) -> MarkdownEvent {
    event_from(
        event_kind(event),
        classify_tag(event),
        ends_code_block(event),
        event_text(event),
        task_checked(event),
    )
}

/// An event in plain values, with the byte range of the text it came
/// from.
fn spanned(event: &Event<'_>, start: usize, end: usize) -> (r: Spanned)
    ensures
        r.start == start,
        r.end == end,
{
    Spanned { event: classify(event), start, end }
}

/// The events that the Markdown parser yields for a text, in plain values.
pub uninterp spec fn parsed_events(input: Seq<char>) -> Seq<SpannedSpec>;

/// The events that the Markdown parser yields for the input, each in plain
/// values and with the byte range of the text it came from.
///
/// Trusted: `Parser::new_ext` and `Parser::into_offset_iter` of
/// pulldown_cmark, with tables, footnotes, strikethrough, task lists and
/// heading attributes switched on. The parser reads nothing but the text:
/// the same text gives the same events, which is all that is claimed of
/// them. Which events they are is not stated.
#[verifier::external_body]
fn parse_events(input: &str) -> (events: Vec<Spanned>)
    ensures
        events_view(events@) == parsed_events(input@),
{
    let mut options = Options::empty();
    options.insert(Options::ENABLE_TABLES);
    options.insert(Options::ENABLE_FOOTNOTES);
    options.insert(Options::ENABLE_STRIKETHROUGH);
    options.insert(Options::ENABLE_TASKLISTS);
    options.insert(Options::ENABLE_HEADING_ATTRIBUTES);
    Parser::new_ext(input, options).into_offset_iter().map(|(e, r)| spanned(&e, r.start, r.end)).collect()
}

/// The events of the input as the Markdown parser yields them, in plain
/// values.
pub fn markdown_events(input: &str) -> (events: Vec<Spanned>)
    ensures
        events_view(events@) == parsed_events(input@),
{
    parse_events(input)
}

/// The reader of Markdown documents.
pub struct MarkdownReader {}

impl MarkdownReader {
    pub fn new() -> Self {
        MarkdownReader {  }
    }

    /// The document tree that the events build from the input.
    pub fn build(&self, input: &str, events: Vec<Spanned>, args: &Opts) -> (ast: AST)
        ensures
            ast@.content == input@,
            ast@.elements == built(input@, events_view(events@)),
            ast@.attributes == document_attributes(*args),
    {
        let mut attributes: Vec<Attribute> = Vec::new();
        match &args.input {
            Some(path) => {
                attributes.push(named_owned("source", path.clone()));
            },
            None => {},
        }
        assert(named_view(attributes@) =~= document_attributes(*args));
        let ast = AST {
            content: String::from_str(input),
            elements: convert_events(input, events),
            attributes,
        };
        proof {
            ast.lemma_elements();
        }
        ast
    }
}

impl Reader for MarkdownReader {
    fn parse<E: Environment>(&self, input: &str, args: &Opts, env: &mut E) -> (r: Result<
        AST,
        AsciidoctrineError,
    >)
        ensures
            *final(env) == *old(env),
            r matches Ok(ast) && ast@.content == input@ && ast@.attributes == document_attributes(
                *args,
            ) && ast@.elements == built(input@, parsed_events(input@)),
    {
        let events = markdown_events(input);
        Ok(self.build(input, events, args))
    }
}

} // verus!
