//! The AsciiDoc writer: the document tree as AsciiDoc text again.

use crate::ast::{
    attribute_of, named_view, spans_view, values_view, Attribute, BlockType, Element, ElementSpan,
    ElementSpec, ListType, NamedSpec, SpanSpec, ValueSpec, AST,
};
use crate::options::Opts;
use crate::snippets::same_text;
use crate::text::{
    from_chars, leading_whitespace, push_all, push_str, to_chars, trim, trim_end, trim_end_index,
    whitespace,
};
use vstd::prelude::*;

verus! {

/// The character `c`, `n` times.
pub open spec fn repeated(c: char, n: nat) -> Seq<char>
    decreases n,
{
    if n == 0 {
        seq![]
    } else {
        repeated(c, (n - 1) as nat).push(c)
    }
}

/// The text of an attribute, or nothing where there is no such
/// attribute.
pub open spec fn attribute_or_empty(attributes: Seq<NamedSpec>, name: Seq<char>) -> Seq<char> {
    match attribute_of(attributes, name) {
        Some(text) => text,
        None => seq![],
    }
}

/// A title: one `=` for each level, a space, the name, a line feed.
pub open spec fn title_text(span: SpanSpec, level: u32) -> Seq<char> {
    repeated('=', level as nat) + " "@ + attribute_or_empty(span.attributes, "name"@) + "\n"@
}

/// Styled text: the content between the marks of its style.
pub open spec fn styled_text(span: SpanSpec) -> Seq<char> {
    let content = attribute_or_empty(span.attributes, "content"@);
    match attribute_of(span.attributes, "style"@) {
        Some(style) => if style == "strong"@ || style == "bold"@ {
            "*"@ + content + "*"@
        } else if style == "em"@ || style == "emphasis"@ || style == "italic"@ {
            "_"@ + content + "_"@
        } else if style == "monospaced"@ || style == "monospace"@ || style == "code"@ {
            "`"@ + content + "`"@
        } else {
            content
        },
        None => content,
    }
}

/// A link: `link:`, the address, and the text in brackets.
pub open spec fn link_text(span: SpanSpec) -> Seq<char> {
    "link:"@ + attribute_or_empty(span.attributes, "url"@) + "["@ + (if span.positional_attributes.len()
        > 0 {
        span.positional_attributes[0].text()
    } else {
        seq![]
    }) + "]"@
}

/// An anchor: its name in double brackets on a line of its own; nothing
/// where it has no name.
pub open spec fn anchor_text(span: SpanSpec) -> Seq<char> {
    match attribute_of(span.attributes, "name"@) {
        Some(name) => "[["@ + name + "]]\n"@,
        None => seq![],
    }
}

/// A comment: `// `, the trimmed text, a line feed.
pub open spec fn comment_text(span: SpanSpec) -> Seq<char> {
    "// "@ + trim(span.content) + "\n"@
}

/// The positional attributes from the first `n`, separated by commas.
pub open spec fn positional_text(values: Seq<ValueSpec>, n: int) -> Seq<char>
    decreases n,
{
    if n <= 0 || n > values.len() {
        seq![]
    } else if n == 1 {
        values[0].text()
    } else {
        positional_text(values, n - 1) + ","@ + values[n - 1].text()
    }
}

/// The named attributes among the first `n` that are not the content,
/// each as `,key=value`.
pub open spec fn named_text(attributes: Seq<NamedSpec>, n: int) -> Seq<char>
    decreases n,
{
    if n <= 0 || n > attributes.len() {
        seq![]
    } else if attributes[n - 1].key == "content"@ {
        named_text(attributes, n - 1)
    } else {
        named_text(attributes, n - 1) + ","@ + attributes[n - 1].key + "="@ + attributes[n
            - 1].value.text()
    }
}

/// Whether one of the first `n` attributes is not the content.
pub open spec fn has_named(attributes: Seq<NamedSpec>, n: int) -> bool
    decreases n,
{
    if n <= 0 || n > attributes.len() {
        false
    } else {
        attributes[n - 1].key != "content"@ || has_named(attributes, n - 1)
    }
}

/// The fence of a block of this kind.
pub open spec fn delimiter(kind: BlockType) -> Seq<char> {
    match kind {
        BlockType::Listing => "----"@,
        BlockType::Literal => "...."@,
        BlockType::Example => "===="@,
        BlockType::Sidebar => "****"@,
        BlockType::Quote => "____"@,
        BlockType::Passtrough => "++++"@,
        BlockType::Comment => "////"@,
    }
}

/// The attributes of a block in brackets on a line of their own; nothing
/// where the block has none but its content.
pub open spec fn block_head(span: SpanSpec) -> Seq<char> {
    if span.positional_attributes.len() > 0 || has_named(
        span.attributes,
        span.attributes.len() as int,
    ) {
        "["@ + positional_text(span.positional_attributes, span.positional_attributes.len() as int)
            + named_text(span.attributes, span.attributes.len() as int) + "]\n"@
    } else {
        seq![]
    }
}

/// The trimmed content of a block between two fences.
pub open spec fn block_body(span: SpanSpec, kind: BlockType) -> Seq<char> {
    let content = match attribute_of(span.attributes, "content"@) {
        Some(content) => content,
        None => span.content,
    };
    delimiter(kind) + "\n"@ + trim(content) + "\n"@ + delimiter(kind) + "\n"@
}

/// A delimited block: its attributes in brackets where it has any, and
/// its trimmed content between two fences.
pub open spec fn block_text(span: SpanSpec, kind: BlockType) -> Seq<char> {
    block_head(span) + block_body(span, kind)
}

/// The attributes from the first `n`, as `key=value` separated by commas.
pub open spec fn table_attributes(attributes: Seq<NamedSpec>, n: int) -> Seq<char>
    decreases n,
{
    if n <= 0 || n > attributes.len() {
        seq![]
    } else if n == 1 {
        attributes[0].key + "="@ + attributes[0].value.text()
    } else {
        table_attributes(attributes, n - 1) + ","@ + attributes[n - 1].key + "="@ + attributes[n
            - 1].value.text()
    }
}

/// A node as AsciiDoc text.
pub open spec fn rendered(span: SpanSpec) -> Seq<char>
    decreases span, 2nat, 0nat,
{
    match span.element {
        ElementSpec::Title { level } => title_text(span, level),
        ElementSpec::Paragraph => rendered_all(span.children, span.children.len() as int) + "\n"@,
        ElementSpec::Text => span.content,
        ElementSpec::Styled => styled_text(span),
        ElementSpec::List(kind) => rendered_list(span, kind),
        ElementSpec::ListItem(level) => rendered_item(span, level, ListType::Bullet),
        ElementSpec::TypedBlock { kind } => block_text(span, kind),
        ElementSpec::Table => (if span.attributes.len() > 0 {
            "["@ + table_attributes(span.attributes, span.attributes.len() as int) + "]\n"@
        } else {
            seq![]
        }) + "|===\n"@ + rendered_all(span.children, span.children.len() as int) + "|===\n"@,
        ElementSpec::TableRow => rendered_all(span.children, span.children.len() as int) + "\n"@,
        ElementSpec::TableCell => "| "@ + rendered_all(span.children, span.children.len() as int),
        ElementSpec::Link => link_text(span),
        ElementSpec::XRef => "<<"@ + attribute_or_empty(span.attributes, "anchor"@) + (
        if span.children.len() > 0 {
            ","@ + rendered_all(span.children, span.children.len() as int)
        } else {
            seq![]
        }) + ">>"@,
        ElementSpec::Image => "image::"@ + attribute_or_empty(span.attributes, "path"@) + "["@ + (
        match attribute_of(span.attributes, "alt"@) {
            Some(alt) => alt,
            None => rendered_all(span.children, span.children.len() as int),
        }) + "]"@,
        ElementSpec::Anchor => anchor_text(span),
        ElementSpec::Comment => comment_text(span),
        ElementSpec::Attribute(_) => seq![],
        ElementSpec::IncludeElement(_) => "// IncludeElement\n"@,
        ElementSpec::ExternalContent => "// ExternalContent\n"@,
        ElementSpec::Error(message) => "// ERROR: "@ + message + "\n"@,
    }
}

/// The first `n` of the nodes as AsciiDoc text, one after the other.
pub open spec fn rendered_all(spans: Seq<SpanSpec>, n: int) -> Seq<char>
    decreases spans, 0nat, n,
{
    if n <= 0 || n > spans.len() {
        seq![]
    } else {
        rendered_all(spans, n - 1) + rendered(spans[n - 1])
    }
}

/// A list: its items, each with the mark of the list.
pub open spec fn rendered_list(span: SpanSpec, kind: ListType) -> Seq<char>
    decreases span, 1nat, 0nat,
{
    rendered_items(span.children, kind, span.children.len() as int)
}

/// The list items among the first `n` nodes, each with the mark of the
/// list; other nodes are left out.
pub open spec fn rendered_items(spans: Seq<SpanSpec>, kind: ListType, n: int) -> Seq<char>
    decreases spans, 0nat, n,
{
    if n <= 0 || n > spans.len() {
        seq![]
    } else {
        rendered_items(spans, kind, n - 1) + match spans[n - 1].element {
            ElementSpec::ListItem(level) => rendered_item(spans[n - 1], level, kind),
            _ => seq![],
        }
    }
}

/// A list item: the mark of the list once for each level, a space, and
/// what is in the item.
pub open spec fn rendered_item(span: SpanSpec, level: u32, kind: ListType) -> Seq<char>
    decreases span, 1nat, 0nat,
{
    repeated(
        match kind {
            ListType::Number => '.',
            ListType::Bullet => '*',
        },
        level as nat,
    ) + " "@ + rendered_parts(span.children, span.children.len() as int)
}

/// What is in a list item: a nested list on a new line, a paragraph
/// without the empty line that ends it elsewhere, anything else as it is.
pub open spec fn rendered_parts(spans: Seq<SpanSpec>, n: int) -> Seq<char>
    decreases spans, 0nat, n,
{
    if n <= 0 || n > spans.len() {
        seq![]
    } else {
        let part = spans[n - 1];
        rendered_parts(spans, n - 1) + match part.element {
            ElementSpec::List(kind) => "\n"@ + rendered_list(part, kind),
            ElementSpec::Paragraph => rendered_all(part.children, part.children.len() as int)
                + "\n"@,
            _ => rendered(part),
        }
    }
}

/// The attributes of a document, each as `:key: value` on a line of its
/// own.
pub open spec fn document_attributes(attributes: Seq<NamedSpec>, n: int) -> Seq<char>
    decreases n,
{
    if n <= 0 || n > attributes.len() {
        seq![]
    } else {
        document_attributes(attributes, n - 1) + ":"@ + attributes[n - 1].key + ": "@
            + attributes[n - 1].value.text() + "\n"@
    }
}

/// The first `n` top-level nodes, with an empty line between each two of
/// which neither is a list item.
pub open spec fn document_elements(spans: Seq<SpanSpec>, n: int) -> Seq<char>
    decreases n,
{
    if n <= 0 || n > spans.len() {
        seq![]
    } else {
        document_elements(spans, n - 1) + rendered(spans[n - 1]) + (if n < spans.len() && !(spans[n
            - 1].element is ListItem) && !(spans[n].element is ListItem) {
            "\n"@
        } else {
            seq![]
        })
    }
}

/// The text without a line feed at its end.
pub open spec fn without_last_feed(text: Seq<char>) -> Seq<char> {
    if text.len() > 0 && text.last() == '\n' {
        text.drop_last()
    } else {
        text
    }
}

/// A document as AsciiDoc text: its attributes, an empty line where it has
/// any, and its elements. The text does not end with the line feed of its
/// last element, so that a document that was read from a text without a
/// line feed at its end is written as that text.
pub open spec fn document_text(attributes: Seq<NamedSpec>, elements: Seq<SpanSpec>) -> Seq<char> {
    without_last_feed(
        document_attributes(attributes, attributes.len() as int) + (if attributes.len() > 0 {
            "\n"@
        } else {
            seq![]
        }) + document_elements(elements, elements.len() as int),
    )
}

/// The writer of AsciiDoc text.
pub struct AsciidocWriter {}

fn push_repeated(out: &mut Vec<char>, c: char, n: u32)
    ensures
        final(out)@ == old(out)@ + repeated(c, n as nat),
{
    let ghost before = out@;
    let mut i: u32 = 0;
    assert(out@ =~= before + repeated(c, 0));
    while i < n
        invariant
            i <= n,
            out@ == before + repeated(c, i as nat),
        decreases n - i,
    {
        out.push(c);
        i += 1;
        assert(out@ =~= before + repeated(c, i as nat));
    }
}

fn push_attribute_or_empty(out: &mut Vec<char>, element: &ElementSpan, name: &str)
    ensures
        final(out)@ == old(out)@ + attribute_or_empty(element@.attributes, name@),
{
    match element.get_attribute(name) {
        Some(text) => {
            push_str(out, text);
        },
        None => {
            assert(out@ =~= old(out)@ + Seq::<char>::empty());
        },
    }
}

/// Appends `s` without its leading and trailing white space.
fn push_trimmed(out: &mut Vec<char>, s: &str)
    ensures
        final(out)@ == old(out)@ + trim(s@),
{
    let v = to_chars(s);
    assert(v@.subrange(0, v@.len() as int) =~= v@);
    let e = trim_end_index(&v, 0, v.len());
    let ghost t = trim_end(v@);
    assert(t =~= v@.take(e as int));
    let mut b: usize = 0;
    while b < e && whitespace(v[b])
        invariant
            b <= e <= v.len(),
            t == v@.take(e as int),
            leading_whitespace(t, 0) == leading_whitespace(t, b as int),
        decreases e - b,
    {
        b += 1;
    }
    let ghost before = out@;
    let mut k: usize = b;
    while k < e
        invariant
            b <= k <= e <= v.len(),
            out@ == before + v@.subrange(b as int, k as int),
        decreases e - k,
    {
        out.push(v[k]);
        assert(v@.subrange(b as int, k as int + 1) =~= v@.subrange(b as int, k as int).push(
            v@[k as int],
        ));
        k += 1;
    }
    assert(t.skip(b as int) =~= v@.subrange(b as int, e as int));
}

impl AsciidocWriter {
    pub fn new() -> Self {
        AsciidocWriter {  }
    }

    /// The text of an attribute value.
    pub fn attribute_value_to_string(value: &crate::ast::AttributeValue) -> (r: String)
        ensures
            r@ == value@.text(),
    {
        String::from_str(value.as_str())
    }

    fn write_title(&self, element: &ElementSpan, level: u32, out: &mut Vec<char>)
        ensures
            final(out)@ == old(out)@ + title_text(element@, level),
    {
        push_repeated(out, '=', level);
        push_str(out, " ");
        push_attribute_or_empty(out, element, "name");
        push_str(out, "\n");
        assert(out@ =~= old(out)@ + title_text(element@, level));
    }

    fn write_text(&self, element: &ElementSpan, out: &mut Vec<char>)
        ensures
            final(out)@ == old(out)@ + element@.content,
    {
        push_str(out, element.content.as_str());
    }

    fn write_styled(&self, element: &ElementSpan, out: &mut Vec<char>)
        ensures
            final(out)@ == old(out)@ + styled_text(element@),
    {
        let mark: &str = match element.get_attribute("style") {
            Some(style) => if same_text(style, "strong") || same_text(style, "bold") {
                "*"
            } else if same_text(style, "em") || same_text(style, "emphasis") || same_text(
                style,
                "italic",
            ) {
                "_"
            } else if same_text(style, "monospaced") || same_text(style, "monospace")
                || same_text(style, "code") {
                "`"
            } else {
                ""
            },
            None => "",
        };
        proof {
            reveal_strlit("");
        }
        push_str(out, mark);
        push_attribute_or_empty(out, element, "content");
        push_str(out, mark);
        assert(out@ =~= old(out)@ + styled_text(element@));
    }

    fn write_link(&self, element: &ElementSpan, out: &mut Vec<char>)
        ensures
            final(out)@ == old(out)@ + link_text(element@),
    {
        push_str(out, "link:");
        push_attribute_or_empty(out, element, "url");
        push_str(out, "[");
        if element.positional_attributes.len() > 0 {
            assert(element@.positional_attributes[0] == element.positional_attributes@[0]@);
            push_str(out, element.positional_attributes[0].as_str());
        }
        push_str(out, "]");
        assert(out@ =~= old(out)@ + link_text(element@));
    }

    fn write_anchor(&self, element: &ElementSpan, out: &mut Vec<char>)
        ensures
            final(out)@ == old(out)@ + anchor_text(element@),
    {
        match element.get_attribute("name") {
            Some(name) => {
                push_str(out, "[[");
                push_str(out, name);
                push_str(out, "]]\n");
                assert(out@ =~= old(out)@ + anchor_text(element@));
            },
            None => {
                assert(out@ =~= old(out)@ + anchor_text(element@));
            },
        }
    }

    fn write_comment(&self, element: &ElementSpan, out: &mut Vec<char>)
        ensures
            final(out)@ == old(out)@ + comment_text(element@),
    {
        push_str(out, "// ");
        push_trimmed(out, element.content.as_str());
        push_str(out, "\n");
        assert(out@ =~= old(out)@ + comment_text(element@));
    }

    fn write_named(&self, element: &ElementSpan) -> (r: (Vec<char>, bool))
        ensures
            r.0@ == named_text(element@.attributes, element@.attributes.len() as int),
            r.1 == has_named(element@.attributes, element@.attributes.len() as int),
    {
        let ghost attributes = element@.attributes;
        let mut named: Vec<char> = Vec::new();
        let mut any = false;
        let mut i: usize = 0;
        while i < element.attributes.len()
            invariant
                i <= element.attributes.len(),
                attributes == named_view(element.attributes@),
                named@ == named_text(attributes, i as int),
                any == has_named(attributes, i as int),
            decreases element.attributes.len() - i,
        {
            assert(attributes[i as int] == element.attributes@[i as int]@);
            if !same_text(element.attributes[i].key.as_str(), "content") {
                push_str(&mut named, ",");
                push_str(&mut named, element.attributes[i].key.as_str());
                push_str(&mut named, "=");
                push_str(&mut named, element.attributes[i].value.as_str());
                any = true;
            }
            i += 1;
        }
        (named, any)
    }

    fn write_positional(&self, element: &ElementSpan, out: &mut Vec<char>)
        ensures
            final(out)@ == old(out)@ + positional_text(
                element@.positional_attributes,
                element@.positional_attributes.len() as int,
            ),
    {
        let ghost positional = element@.positional_attributes;
        let ghost open = out@;
        let mut k: usize = 0;
        assert(out@ =~= open + positional_text(positional, 0));
        while k < element.positional_attributes.len()
            invariant
                k <= element.positional_attributes.len(),
                positional == values_view(element.positional_attributes@),
                out@ == open + positional_text(positional, k as int),
            decreases element.positional_attributes.len() - k,
        {
            assert(positional[k as int] == element.positional_attributes@[k as int]@);
            if k > 0 {
                push_str(out, ",");
            }
            push_str(out, element.positional_attributes[k].as_str());
            k += 1;
            assert(out@ =~= open + positional_text(positional, k as int));
        }
    }

    fn write_block_head(&self, element: &ElementSpan, out: &mut Vec<char>)
        ensures
            final(out)@ == old(out)@ + block_head(element@),
    {
        let (named, any) = self.write_named(element);
        if element.positional_attributes.len() > 0 || any {
            push_str(out, "[");
            self.write_positional(element, out);
            push_all(out, &named);
            push_str(out, "]\n");
            assert(out@ =~= old(out)@ + block_head(element@));
        } else {
            assert(out@ =~= old(out)@ + block_head(element@));
        }
    }

    fn write_block_body(&self, element: &ElementSpan, kind: &BlockType, out: &mut Vec<char>)
        ensures
            final(out)@ == old(out)@ + block_body(element@, *kind),
    {
        let fence: &str = match kind {
            BlockType::Listing => "----",
            BlockType::Literal => "....",
            BlockType::Example => "====",
            BlockType::Sidebar => "****",
            BlockType::Quote => "____",
            BlockType::Passtrough => "++++",
            BlockType::Comment => "////",
        };
        push_str(out, fence);
        push_str(out, "\n");
        match element.get_attribute("content") {
            Some(content) => {
                push_trimmed(out, content);
            },
            None => {
                push_trimmed(out, element.content.as_str());
            },
        }
        push_str(out, "\n");
        push_str(out, fence);
        push_str(out, "\n");
        assert(out@ =~= old(out)@ + block_body(element@, *kind));
    }

    fn write_typed_block(&self, element: &ElementSpan, kind: &BlockType, out: &mut Vec<char>)
        ensures
            final(out)@ == old(out)@ + block_text(element@, *kind),
    {
        self.write_block_head(element, out);
        self.write_block_body(element, kind, out);
        assert(out@ =~= old(out)@ + block_text(element@, *kind));
    }

    fn write_children(&self, children: &Vec<ElementSpan>, out: &mut Vec<char>)
        ensures
            final(out)@ == old(out)@ + rendered_all(spans_view(children@), children@.len() as int),
        decreases children, 0nat,
    {
        let ghost start = out@;
        let ghost all = spans_view(children@);
        let mut i: usize = 0;
        assert(out@ =~= start + rendered_all(all, 0));
        while i < children.len()
            invariant
                i <= children.len(),
                all == spans_view(children@),
                out@ == start + rendered_all(all, i as int),
            decreases children.len() - i,
        {
            assert(all[i as int] == children@[i as int]@);
            self.write_element(&children[i], out);
            i += 1;
            assert(out@ =~= start + rendered_all(all, i as int));
        }
    }

    fn write_paragraph(&self, element: &ElementSpan, out: &mut Vec<char>)
        ensures
            final(out)@ == old(out)@ + rendered_all(
                element@.children,
                element@.children.len() as int,
            ) + "\n"@,
        decreases element, 1nat,
    {
        proof {
            element.lemma_children();
        }
        self.write_children(&element.children, out);
        push_str(out, "\n");
    }

    fn write_table(&self, element: &ElementSpan, out: &mut Vec<char>)
        requires
            element@.element is Table,
        ensures
            final(out)@ == old(out)@ + rendered(element@),
        decreases element, 1nat,
    {
        proof {
            element.lemma_children();
        }
        let ghost start = out@;
        let ghost attributes = element@.attributes;
        if element.attributes.len() > 0 {
            push_str(out, "[");
            let ghost open = out@;
            let mut i: usize = 0;
            assert(out@ =~= open + table_attributes(attributes, 0));
            while i < element.attributes.len()
                invariant
                    i <= element.attributes.len(),
                    attributes == named_view(element.attributes@),
                    out@ == open + table_attributes(attributes, i as int),
                decreases element.attributes.len() - i,
            {
                assert(attributes[i as int] == element.attributes@[i as int]@);
                if i > 0 {
                    push_str(out, ",");
                }
                push_str(out, element.attributes[i].key.as_str());
                push_str(out, "=");
                push_str(out, element.attributes[i].value.as_str());
                i += 1;
                assert(out@ =~= open + table_attributes(attributes, i as int));
            }
            push_str(out, "]\n");
        }
        push_str(out, "|===\n");
        self.write_children(&element.children, out);
        push_str(out, "|===\n");
        assert(out@ =~= start + rendered(element@));
    }

    fn write_table_row(&self, element: &ElementSpan, out: &mut Vec<char>)
        ensures
            final(out)@ == old(out)@ + rendered_all(
                element@.children,
                element@.children.len() as int,
            ) + "\n"@,
        decreases element, 2nat,
    {
        self.write_paragraph(element, out);
    }

    fn write_table_cell(&self, element: &ElementSpan, out: &mut Vec<char>)
        ensures
            final(out)@ == old(out)@ + "| "@ + rendered_all(
                element@.children,
                element@.children.len() as int,
            ),
        decreases element, 1nat,
    {
        proof {
            element.lemma_children();
        }
        push_str(out, "| ");
        self.write_children(&element.children, out);
    }

    fn write_xref(&self, element: &ElementSpan, out: &mut Vec<char>)
        requires
            element@.element is XRef,
        ensures
            final(out)@ == old(out)@ + rendered(element@),
        decreases element, 1nat,
    {
        proof {
            element.lemma_children();
        }
        push_str(out, "<<");
        push_attribute_or_empty(out, element, "anchor");
        if element.children.len() > 0 {
            push_str(out, ",");
            self.write_children(&element.children, out);
        }
        push_str(out, ">>");
        assert(out@ =~= old(out)@ + rendered(element@));
    }

    fn write_image(&self, element: &ElementSpan, out: &mut Vec<char>)
        requires
            element@.element is Image,
        ensures
            final(out)@ == old(out)@ + rendered(element@),
        decreases element, 1nat,
    {
        proof {
            element.lemma_children();
        }
        push_str(out, "image::");
        push_attribute_or_empty(out, element, "path");
        push_str(out, "[");
        match element.get_attribute("alt") {
            Some(alt) => {
                push_str(out, alt);
            },
            None => {
                self.write_children(&element.children, out);
            },
        }
        push_str(out, "]");
        assert(out@ =~= old(out)@ + rendered(element@));
    }

    fn write_list(&self, element: &ElementSpan, list_type: &ListType, out: &mut Vec<char>)
        ensures
            final(out)@ == old(out)@ + rendered_list(element@, *list_type),
        decreases element, 1nat,
    {
        proof {
            element.lemma_children();
        }
        let ghost start = out@;
        let ghost all = spans_view(element.children@);
        let mut i: usize = 0;
        assert(out@ =~= start + rendered_items(all, *list_type, 0));
        while i < element.children.len()
            invariant
                i <= element.children.len(),
                all == spans_view(element.children@),
                out@ == start + rendered_items(all, *list_type, i as int),
            decreases element.children.len() - i,
        {
            let child = &element.children[i];
            assert(all[i as int] == child@);
            assert(child@.element == child.element@);
            match &child.element {
                Element::ListItem(level) => {
                    self.write_list_item_with_type(child, *level, list_type, out);
                },
                _ => {},
            }
            i += 1;
            assert(out@ =~= start + rendered_items(all, *list_type, i as int));
        }
    }

    fn write_list_item(&self, element: &ElementSpan, level: u32, out: &mut Vec<char>)
        ensures
            final(out)@ == old(out)@ + rendered_item(element@, level, ListType::Bullet),
        decreases element, 2nat,
    {
        self.write_list_item_with_type(element, level, &ListType::Bullet, out)
    }

    fn write_list_item_with_type(
        &self,
        element: &ElementSpan,
        level: u32,
        list_type: &ListType,
        out: &mut Vec<char>,
    )
        ensures
            final(out)@ == old(out)@ + rendered_item(element@, level, *list_type),
        decreases element, 1nat,
    {
        proof {
            element.lemma_children();
        }
        let ghost start = out@;
        match list_type {
            ListType::Number => {
                push_repeated(out, '.', level);
            },
            ListType::Bullet => {
                push_repeated(out, '*', level);
            },
        }
        push_str(out, " ");
        let ghost marked = out@;
        let ghost all = spans_view(element.children@);
        let mut i: usize = 0;
        assert(out@ =~= marked + rendered_parts(all, 0));
        while i < element.children.len()
            invariant
                i <= element.children.len(),
                all == spans_view(element.children@),
                out@ == marked + rendered_parts(all, i as int),
            decreases element.children.len() - i,
        {
            let child = &element.children[i];
            assert(all[i as int] == child@);
            assert(child@.element == child.element@);
            match &child.element {
                Element::List(nested) => {
                    push_str(out, "\n");
                    self.write_list(child, nested, out);
                },
                Element::Paragraph => {
                    self.write_paragraph(child, out);
                },
                _ => {
                    self.write_element(child, out);
                },
            }
            i += 1;
            assert(out@ =~= marked + rendered_parts(all, i as int));
        }
        assert(out@ =~= start + rendered_item(element@, level, *list_type));
    }

    /// Appends the node as AsciiDoc text.
    pub fn write_element(&self, element: &ElementSpan, out: &mut Vec<char>)
        ensures
            final(out)@ == old(out)@ + rendered(element@),
        decreases element, 3nat,
    {
        assert(element@.element == element.element@);
        match &element.element {
            Element::Title { level } => {
                self.write_title(element, *level, out);
            },
            Element::Paragraph => {
                self.write_paragraph(element, out);
            },
            Element::Text => {
                self.write_text(element, out);
            },
            Element::Styled => {
                self.write_styled(element, out);
            },
            Element::List(list_type) => {
                self.write_list(element, list_type, out);
            },
            Element::ListItem(level) => {
                self.write_list_item(element, *level, out);
            },
            Element::TypedBlock { kind } => {
                self.write_typed_block(element, kind, out);
            },
            Element::Table => {
                self.write_table(element, out);
            },
            Element::TableRow => {
                self.write_table_row(element, out);
            },
            Element::TableCell => {
                self.write_table_cell(element, out);
            },
            Element::Link => {
                self.write_link(element, out);
            },
            Element::XRef => {
                self.write_xref(element, out);
            },
            Element::Image => {
                self.write_image(element, out);
            },
            Element::Anchor => {
                self.write_anchor(element, out);
            },
            Element::Comment => {
                self.write_comment(element, out);
            },
            Element::Attribute(_) => {
                assert(out@ =~= old(out)@ + rendered(element@));
            },
            Element::IncludeElement(_) => {
                push_str(out, "// IncludeElement\n");
            },
            Element::ExternalContent => {
                push_str(out, "// ExternalContent\n");
            },
            Element::Error(message) => {
                push_str(out, "// ERROR: ");
                push_str(out, message.as_str());
                push_str(out, "\n");
                assert(out@ =~= old(out)@ + rendered(element@));
            },
        }
    }

    /// The document as AsciiDoc text.
    pub fn document(&self, ast: &AST, _args: &Opts) -> (r: String)
        ensures
            r@ == document_text(ast@.attributes, ast@.elements),
    {
        proof {
            ast.lemma_elements();
        }
        let ghost attributes = named_view(ast.attributes@);
        let ghost elements = spans_view(ast.elements@);
        let mut out: Vec<char> = Vec::new();
        let mut i: usize = 0;
        assert(out@ =~= document_attributes(attributes, 0));
        while i < ast.attributes.len()
            invariant
                i <= ast.attributes.len(),
                attributes == named_view(ast.attributes@),
                out@ == document_attributes(attributes, i as int),
            decreases ast.attributes.len() - i,
        {
            assert(attributes[i as int] == ast.attributes@[i as int]@);
            push_str(&mut out, ":");
            push_str(&mut out, ast.attributes[i].key.as_str());
            push_str(&mut out, ": ");
            push_str(&mut out, ast.attributes[i].value.as_str());
            push_str(&mut out, "\n");
            i += 1;
            assert(out@ =~= document_attributes(attributes, i as int));
        }
        if ast.attributes.len() > 0 {
            push_str(&mut out, "\n");
        }
        let ghost head = out@;
        let mut i: usize = 0;
        assert(out@ =~= head + document_elements(elements, 0));
        while i < ast.elements.len()
            invariant
                i <= ast.elements.len(),
                elements == spans_view(ast.elements@),
                out@ == head + document_elements(elements, i as int),
            decreases ast.elements.len() - i,
        {
            assert(elements[i as int] == ast.elements@[i as int]@);
            self.write_element(&ast.elements[i], &mut out);
            if ast.elements.len() - i > 1 {
                assert(elements[i as int + 1] == ast.elements@[i as int + 1]@);
                if !is_list_item(&ast.elements[i]) && !is_list_item(&ast.elements[i + 1]) {
                    push_str(&mut out, "\n");
                }
            }
            i += 1;
            assert(out@ =~= head + document_elements(elements, i as int));
        }
        let ghost whole = out@;
        assert(whole =~= document_attributes(attributes, attributes.len() as int) + (if attributes.len()
            > 0 {
            "\n"@
        } else {
            seq![]
        }) + document_elements(elements, elements.len() as int));
        if out.len() > 0 && out[out.len() - 1] == '\n' {
            out.pop();
        }
        assert(out@ =~= without_last_feed(whole));
        from_chars(&out)
    }
}

fn is_list_item(span: &ElementSpan) -> (r: bool)
    ensures
        r == (span@.element is ListItem),
{
    assert(span@.element == span.element@);
    match &span.element {
        Element::ListItem(_) => true,
        _ => false,
    }
}

} // verus!
