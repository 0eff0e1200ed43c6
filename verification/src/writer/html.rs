//! The HTML writer: the body of a page for a document tree. The page
//! around the body is the program's to make.

use crate::ast::{
    attribute_of, spans_view, values_view, BlockType, Element, ElementSpan, ElementSpec, ListType,
    SpanSpec, ValueSpec, AST,
};
use crate::harvest::decimal;
use crate::lisi::push_decimal;
use crate::snippets::same_text;
use crate::text::{from_chars, push_all, push_char, push_str, to_chars};
use crate::util::AsciidoctrineError;
use crate::reader::asciidoc::{
    formats_from, formats_of_content, parse_columns_format, parse_columns_format_from_content,
    ColKind, ColumnFormat,
};
use crate::writer::asciidoc::{attribute_or_empty, without_last_feed};
use vstd::prelude::*;

verus! {

/// The text in lower case.
pub uninterp spec fn lowercase(s: Seq<char>) -> Seq<char>;

/// The name of a node's kind as it is printed for a reader of the program.
pub uninterp spec fn debug_name(element: ElementSpec) -> Seq<char>;

/// The text in lower case.
///
/// Trusted: `str::to_lowercase` of the standard library; its result is
/// named, not stated.
#[verifier::external_body]
pub(crate) fn to_lowercase(s: &str) -> (r: String)
    ensures
        r@ == lowercase(s@),
{
    s.to_lowercase()
}

/// The name of a node's kind as it is printed for a reader of the program.
///
/// Trusted: the `Debug` formatting that the standard library derives for
/// the kinds of nodes; its result is named, not stated.
#[verifier::external_body]
pub(crate) fn debug_element(element: &Element) -> (r: String)
    ensures
        r@ == debug_name(element@),
{
    format!("{:?}", element)
}

/// Two spaces for each level of indentation.
pub open spec fn spaces(indent: nat) -> Seq<char>
    decreases indent,
{
    if indent == 0 {
        seq![]
    } else {
        spaces((indent - 1) as nat) + "  "@
    }
}

/// The text from position `i` on with `<` and `>` written as entities.
pub open spec fn escaped(s: Seq<char>, i: int) -> Seq<char>
    decreases s.len() - i,
{
    if 0 <= i < s.len() {
        (if s[i] == '<' {
            "&lt;"@
        } else if s[i] == '>' {
            "&gt;"@
        } else {
            seq![s[i]]
        }) + escaped(s, i + 1)
    } else {
        seq![]
    }
}

/// The text from position `i` on with each space written as `_`.
pub open spec fn underscored(s: Seq<char>, i: int) -> Seq<char>
    decreases s.len() - i,
{
    if 0 <= i < s.len() {
        seq![
            if s[i] == ' ' {
                '_'
            } else {
                s[i]
            },
        ] + underscored(s, i + 1)
    } else {
        seq![]
    }
}

/// Whether `pattern` stands in `s` at or after position `i`.
pub open spec fn holds_text(s: Seq<char>, pattern: Seq<char>, i: int) -> bool
    decreases s.len() - i,
{
    if 0 <= i && i + pattern.len() <= s.len() {
        s.subrange(i, i + pattern.len()) == pattern || (i < s.len() && holds_text(
            s,
            pattern,
            i + 1,
        ))
    } else {
        false
    }
}

/// Whether one of the first `n` values holds `pattern`.
pub open spec fn any_holds(values: Seq<ValueSpec>, pattern: Seq<char>, n: int) -> bool
    decreases n,
{
    if n <= 0 || n > values.len() {
        false
    } else {
        any_holds(values, pattern, n - 1) || holds_text(values[n - 1].text(), pattern, 0)
    }
}

/// Whether `s` ends with `suffix`.
pub open spec fn ends_with(s: Seq<char>, suffix: Seq<char>) -> bool {
    s.len() >= suffix.len() && s.subrange(s.len() - suffix.len(), s.len() as int) == suffix
}

/// The indentation three levels further in, as far as numbers go.
pub open spec fn deeper(indent: usize) -> usize {
    if indent <= usize::MAX - 3 {
        (indent + 3) as usize
    } else {
        indent
    }
}

/// The identifier of a title: its anchor, or `_` and its name in lower
/// case with `_` for each space.
pub open spec fn title_id(span: SpanSpec, name: Seq<char>) -> Seq<char> {
    match attribute_of(span.attributes, "anchor"@) {
        Some(id) => id,
        None => "_"@ + lowercase(underscored(name, 0)),
    }
}

/// A link: the address and the text of the link.
pub open spec fn link_html(span: SpanSpec) -> Seq<char> {
    "<a href=\""@ + attribute_or_empty(span.attributes, "url"@) + "\">"@ + (
    if span.positional_attributes.len() > 0 {
        span.positional_attributes[0].text()
    } else {
        seq![]
    }) + "</a>"@
}

/// A reference within the document: the identifier, and the content or
/// the identifier as its text.
pub open spec fn xref_html(span: SpanSpec) -> Seq<char> {
    let id = attribute_or_empty(span.attributes, "id"@);
    "<a href=\"#"@ + id + "\">"@ + (match attribute_of(span.attributes, "content"@) {
        Some(content) => content,
        None => id,
    }) + "</a>"@
}

/// An image: the content of an inline vector graphic, a picture by its
/// path, or nothing.
pub open spec fn image_html(span: SpanSpec) -> Seq<char> {
    match attribute_of(span.attributes, "path"@) {
        Some(path) => match attribute_of(span.attributes, "opts"@) {
            Some(options) => if options == "inline"@ && ends_with(path, ".svg"@) {
                attribute_or_empty(span.attributes, "content"@)
            } else {
                seq![]
            },
            None => "<img src=\""@ + path + "\"></div>\n"@,
        },
        None => seq![],
    }
}

/// Styled text: the content in a tag named after the style.
pub open spec fn styled_html(span: SpanSpec, indent: nat) -> Seq<char> {
    let style = attribute_or_empty(span.attributes, "style"@);
    let tag = if style == "monospaced"@ {
        "code"@
    } else {
        style
    };
    spaces(indent) + "<"@ + tag + ">"@ + attribute_or_empty(span.attributes, "content"@) + "</"@
        + tag + ">"@
}

/// A title: its name in a heading of its level, with an identifier below
/// the first level. `None` where the title has no name.
pub open spec fn title_html(span: SpanSpec, level: u32, indent: nat) -> Option<Seq<char>> {
    match attribute_of(span.attributes, "name"@) {
        Some(name) => Some(
            spaces(indent) + "<h"@ + decimal(level as nat) + (if level > 1 {
                " id=\""@ + title_id(span, name) + "\""@
            } else {
                seq![]
            }) + ">"@ + name + "</h"@ + decimal(level as nat) + ">\n"@,
        ),
        None => None,
    }
}

/// The opening of a block: its identifier, its class and its title.
pub open spec fn block_open(span: SpanSpec, kind: BlockType, indent: nat) -> Seq<char> {
    (match attribute_of(span.attributes, "anchor"@) {
        Some(id) => " id=\""@ + id + "\" "@,
        None => seq![],
    }) + spaces(indent) + (if kind == BlockType::Listing {
        "<div class=\"listingblock\">"@
    } else {
        "<div class=\"unknown-block\">"@
    }) + (match attribute_of(span.attributes, "title"@) {
        Some(title) => "\n  <div class=\"title\">"@ + title + "</div>\n"@,
        None => seq![],
    })
}

/// The content of a block, with `<` and `>` written as entities; that of
/// a listing as it is laid out.
pub open spec fn block_content(span: SpanSpec, kind: BlockType) -> Seq<char> {
    let content = match attribute_of(span.attributes, "content"@) {
        Some(content) => content,
        None => span.content,
    };
    if kind == BlockType::Listing {
        "\n  <pre>"@ + escaped(content, 0) + "</pre>\n"@
    } else {
        escaped(content, 0)
    }
}

/// A block that is neither a comment nor collapsible: its identifier, its
/// title and its content.
pub open spec fn plain_block_html(span: SpanSpec, kind: BlockType, indent: nat) -> Seq<char> {
    block_open(span, kind, indent) + block_content(span, kind) + spaces(indent) + "</div>\n"@
}

/// Whether a block is an example that can be folded.
pub open spec fn collapsible(span: SpanSpec, kind: BlockType) -> bool {
    kind == BlockType::Example && any_holds(
        span.positional_attributes,
        "%collapsible"@,
        span.positional_attributes.len() as int,
    )
}

/// The tag that opens a list of the level `level`: numbered lists count
/// in numbers on the first level and in letters below it.
pub open spec fn list_open(numbered: bool, level: nat) -> Seq<char> {
    if !numbered {
        "<ul>"@
    } else if level <= 1 {
        "<ol class=\"arabic\">"@
    } else {
        "<ol class=\"loweralpha\" type=\"a\">"@
    }
}

/// The tag that closes a list.
pub open spec fn list_close(numbered: bool) -> Seq<char> {
    if numbered {
        "</ol>"@
    } else {
        "</ul>"@
    }
}

/// The indentation of a list of the level `level` in a list that stands at
/// the indentation `indent`, and `extra` levels more: two levels for each
/// list around it, as far as numbers go.
pub open spec fn unit(indent: usize, level: u32, extra: nat) -> usize {
    let steps = (if level >= 1 {
        2 * (level - 1)
    } else {
        0
    }) + extra;
    if indent + steps <= usize::MAX {
        (indent + steps) as usize
    } else {
        usize::MAX
    }
}

/// What opens the lists of the levels above `from` up to `to`, each but
/// the last with an item that holds the next.
pub open spec fn opened(numbered: bool, indent: usize, from: u32, to: u32) -> Seq<char>
    decreases to,
{
    if to <= from {
        seq![]
    } else {
        opened(numbered, indent, from, (to - 1) as u32) + (if to - 1 > from {
            spaces(unit(indent, (to - 1) as u32, 1) as nat) + "<li>\n"@
        } else {
            seq![]
        }) + spaces(unit(indent, to, 0) as nat) + list_open(numbered, to as nat) + "\n"@
    }
}

/// What closes the lists of the levels from `from` down to the one above
/// `to`, each with the item that held it.
pub open spec fn closed(numbered: bool, indent: usize, from: u32, to: u32) -> Seq<char>
    decreases from,
{
    if from <= to {
        seq![]
    } else {
        spaces(unit(indent, from, 0) as nat) + list_close(numbered) + "\n"@ + spaces(
            unit(indent, (from - 1) as u32, 1) as nat,
        ) + "</li>\n"@ + closed(numbered, indent, (from - 1) as u32, to)
    }
}

/// What stands between two items: where the level rises, the lists that
/// open inside the item before; else the end of the item before, and of
/// the lists that close.
pub open spec fn turn(numbered: bool, indent: usize, level: u32, has_item: bool, target: u32) -> Seq<
    char,
> {
    if target > level {
        (if has_item {
            seq![]
        } else {
            spaces(unit(indent, level, 1) as nat) + "<li>\n"@
        }) + opened(numbered, indent, level, target)
    } else {
        (if has_item {
            spaces(unit(indent, level, 1) as nat) + "</li>\n"@
        } else {
            seq![]
        }) + closed(numbered, indent, level, target)
    }
}

/// The level of an item: at least 1.
pub open spec fn item_level_of(level: u32) -> u32 {
    if level == 0 {
        1
    } else {
        level
    }
}

/// The formats of the columns of a table: those that its attribute `cols`
/// names, or one for each cell of the first line of its content.
pub open spec fn table_formats(span: SpanSpec) -> Seq<ColumnFormat> {
    match attribute_of(span.attributes, "cols"@) {
        Some(formats) => formats_from(formats, 0),
        None => formats_of_content(attribute_or_empty(span.attributes, "content"@)),
    }
}

/// The width of each of `n` columns in hundredths of the table.
pub open spec fn column_width(n: nat) -> nat {
    if n == 0 {
        100nat
    } else {
        100nat / n
    }
}

/// The tags of `n` columns of this width.
pub open spec fn col_tags(n: nat, width: nat, indent: usize) -> Seq<char>
    decreases n,
{
    if n == 0 {
        seq![]
    } else {
        col_tags((n - 1) as nat, width, indent) + spaces(indent as nat) + "<col style=\"width: "@
            + decimal(width) + "%;\">\n"@
    }
}

/// The kind of the cells in the column `k`: the formats are gone through
/// again and again; without formats a cell is a paragraph.
pub open spec fn column_kind(formats: Seq<ColumnFormat>, k: int) -> ColKind {
    if formats.len() > 0 && k >= 0 {
        formats[k % (formats.len() as int)].kind
    } else {
        ColKind::Default
    }
}

/// A node as HTML. `None` where a title below it has no name.
pub open spec fn html(span: SpanSpec, indent: usize) -> Option<Seq<char>>
    decreases span, 1nat, 0nat,
{
    match span.element {
        ElementSpec::Title { level } => title_html(span, level, indent as nat),
        ElementSpec::Paragraph => match html_all(span.children, 0, span.children.len() as int) {
            Some(inner) => Some(spaces(indent as nat) + "<p>"@ + inner + "</p>\n"@),
            None => None,
        },
        ElementSpec::Table => {
            let formats = table_formats(span);
            match rows_html(
                span.children,
                formats,
                unit(indent, 1, 2),
                span.children.len() as int,
            ) {
                Some(rows) => Some(
                    spaces(indent as nat)
                        + "<table class=\"tableblock frame-all grid-all stretch\">\n"@ + spaces(
                        unit(indent, 1, 1) as nat,
                    ) + "<colgroup>\n"@ + col_tags(
                        formats.len(),
                        column_width(formats.len()),
                        unit(indent, 1, 2),
                    ) + spaces(unit(indent, 1, 1) as nat) + "</colgroup>\n"@ + spaces(
                        unit(indent, 1, 1) as nat,
                    ) + "<tbody>\n"@ + rows + spaces(unit(indent, 1, 1) as nat) + "</tbody>\n"@
                        + spaces(indent as nat) + "</table>\n"@,
                ),
                None => None,
            }
        },
        ElementSpec::List(kind) => match html_items(
            span.children,
            kind == ListType::Number,
            indent,
            span.children.len() as int,
        ) {
            Some((inner, level, has_item)) => Some(
                spaces(indent as nat) + list_open(kind == ListType::Number, 1) + "\n"@ + inner
                    + turn(kind == ListType::Number, indent, level, has_item, 1) + spaces(
                    indent as nat,
                ) + list_close(kind == ListType::Number) + "\n"@,
            ),
            None => None,
        },
        ElementSpec::ListItem(_) => match html_all(
            span.children,
            indent,
            span.children.len() as int,
        ) {
            Some(inner) => Some("<li>\n"@ + inner + "</li>\n"@),
            None => None,
        },
        ElementSpec::TypedBlock { kind } => if kind == BlockType::Comment {
            Some(seq![])
        } else if collapsible(span, kind) {
            match html_all(span.children, deeper(indent), span.children.len() as int) {
                Some(inner) => Some(
                    spaces(indent as nat) + (if any_holds(
                        span.positional_attributes,
                        "%open"@,
                        span.positional_attributes.len() as int,
                    ) {
                        "<details open>"@
                    } else {
                        "<details>"@
                    }) + "\n  <summary class=\"title\">"@ + (match attribute_of(
                        span.attributes,
                        "title"@,
                    ) {
                        Some(title) => title,
                        None => "Details"@,
                    }) + "</summary>\n  <div class=\"content\">\n    <div class=\"paragraph\">\n"@
                        + inner + "    </div>\n  </div>\n"@ + spaces(indent as nat)
                        + "</details>\n"@,
                ),
                None => None,
            }
        } else {
            Some(plain_block_html(span, kind, indent as nat))
        },
        ElementSpec::Link => Some(link_html(span)),
        ElementSpec::XRef => Some(xref_html(span)),
        ElementSpec::Image => Some(image_html(span)),
        ElementSpec::Text => Some(span.content),
        ElementSpec::Styled => Some(styled_html(span, indent as nat)),
        _ => Some(
            "<NOT-YET-SUPPORTED:"@ + debug_name(span.element) + ">"@ + span.content
                + "</NOT-YET-SUPPORTED:"@ + debug_name(span.element) + ">\n"@,
        ),
    }
}

/// The first `n` of the nodes as HTML, one after the other.
pub open spec fn html_all(spans: Seq<SpanSpec>, indent: usize, n: int) -> Option<Seq<char>>
    decreases spans, 0nat, n,
{
    if n <= 0 || n > spans.len() {
        Some(seq![])
    } else {
        match html_all(spans, indent, n - 1) {
            Some(before) => match html(spans[n - 1], indent) {
                Some(last) => Some(before + last),
                None => None,
            },
            None => None,
        }
    }
}

/// What an item holds, as HTML.
pub open spec fn item_html(span: SpanSpec, indent: usize) -> Option<Seq<char>>
    decreases span, 1nat, 0nat,
{
    html_all(span.children, indent, span.children.len() as int)
}

/// A cell of a table as HTML. A cell that is a paragraph stands on one
/// line with what it holds; a cell that is a document of its own holds
/// its blocks on lines of their own, one level further in.
pub open spec fn cell_html(span: SpanSpec, kind: ColKind, indent: usize) -> Option<Seq<char>>
    decreases span, 1nat, 0nat,
{
    match kind {
        ColKind::Default => match html_all(span.children, 0, span.children.len() as int) {
            Some(inner) => Some(
                spaces(indent as nat) + "<td>"@ + without_last_feed(inner) + "</td>\n"@,
            ),
            None => None,
        },
        ColKind::Asciidoc => match html_all(
            span.children,
            unit(indent, 1, 1),
            span.children.len() as int,
        ) {
            Some(inner) => Some(
                spaces(indent as nat) + "<td>\n"@ + inner + spaces(indent as nat) + "</td>\n"@,
            ),
            None => None,
        },
    }
}

/// The cells among the first `n` nodes as HTML, each of the kind of its
/// column. Other nodes are left out.
pub open spec fn cells_html(
    spans: Seq<SpanSpec>,
    formats: Seq<ColumnFormat>,
    indent: usize,
    n: int,
) -> Option<Seq<char>>
    decreases spans, 0nat, n,
{
    if n <= 0 || n > spans.len() {
        Some(seq![])
    } else {
        match cells_html(spans, formats, indent, n - 1) {
            Some(before) => match spans[n - 1].element {
                ElementSpec::TableCell => match cell_html(
                    spans[n - 1],
                    column_kind(formats, n - 1),
                    indent,
                ) {
                    Some(cell) => Some(before + cell),
                    None => None,
                },
                _ => Some(before),
            },
            None => None,
        }
    }
}

/// A row of a table as HTML.
pub open spec fn row_html(span: SpanSpec, formats: Seq<ColumnFormat>, indent: usize) -> Option<
    Seq<char>,
>
    decreases span, 1nat, 0nat,
{
    match cells_html(span.children, formats, unit(indent, 1, 1), span.children.len() as int) {
        Some(cells) => Some(
            spaces(indent as nat) + "<tr>\n"@ + cells + spaces(indent as nat) + "</tr>\n"@,
        ),
        None => None,
    }
}

/// The rows among the first `n` nodes as HTML. Other nodes are left out.
pub open spec fn rows_html(
    spans: Seq<SpanSpec>,
    formats: Seq<ColumnFormat>,
    indent: usize,
    n: int,
) -> Option<Seq<char>>
    decreases spans, 0nat, n,
{
    if n <= 0 || n > spans.len() {
        Some(seq![])
    } else {
        match rows_html(spans, formats, indent, n - 1) {
            Some(before) => match spans[n - 1].element {
                ElementSpec::TableRow => match row_html(spans[n - 1], formats, indent) {
                    Some(row) => Some(before + row),
                    None => None,
                },
                _ => Some(before),
            },
            None => None,
        }
    }
}

/// The list items among the first `n` nodes as HTML, with the level of
/// the last of them and whether there was one. An item stands in its list
/// one level further in than the list, and what it holds one level
/// further; a list of a deeper level stands inside the item before it.
/// Other nodes are left out.
pub open spec fn html_items(spans: Seq<SpanSpec>, numbered: bool, indent: usize, n: int) -> Option<
    (Seq<char>, u32, bool),
>
    decreases spans, 0nat, n,
{
    if n <= 0 || n > spans.len() {
        Some((seq![], 1, false))
    } else {
        match html_items(spans, numbered, indent, n - 1) {
            Some((before, level, has_item)) => match spans[n - 1].element {
                ElementSpec::ListItem(item_level) => {
                    let target = item_level_of(item_level);
                    match item_html(spans[n - 1], unit(indent, target, 2)) {
                        Some(item) => Some(
                            (
                                before + turn(numbered, indent, level, has_item, target) + spaces(
                                    unit(indent, target, 1) as nat,
                                ) + "<li>\n"@ + item,
                                target,
                                true,
                            ),
                        ),
                        None => None,
                    }
                },
                _ => Some((before, level, has_item)),
            },
            None => None,
        }
    }
}

/// The body of the page for a document.
pub open spec fn body_html(elements: Seq<SpanSpec>) -> Option<Seq<char>> {
    html_all(elements, 0, elements.len() as int)
}

fn push_spaces(out: &mut Vec<char>, indent: usize)
    ensures
        final(out)@ == old(out)@ + spaces(indent as nat),
{
    let ghost before = out@;
    let mut i: usize = 0;
    assert(out@ =~= before + spaces(0));
    while i < indent
        invariant
            i <= indent,
            out@ == before + spaces(i as nat),
        decreases indent - i,
    {
        push_str(out, "  ");
        i += 1;
        assert(out@ =~= before + spaces(i as nat));
    }
}

/// The text with `<` and `>` written as entities.
pub fn escape_text(input: &str) -> (r: String)
    ensures
        r@ == escaped(input@, 0),
{
    let v = to_chars(input);
    let mut out: Vec<char> = Vec::new();
    let mut i: usize = 0;
    while i < v.len()
        invariant
            i <= v.len(),
            out@ + escaped(v@, i as int) == escaped(v@, 0),
        decreases v.len() - i,
    {
        let ghost before = out@;
        if v[i] == '<' {
            push_str(&mut out, "&lt;");
            assert(before + "&lt;"@ + escaped(v@, i as int + 1) =~= before + escaped(v@, i as int));
        } else if v[i] == '>' {
            push_str(&mut out, "&gt;");
            assert(before + "&gt;"@ + escaped(v@, i as int + 1) =~= before + escaped(v@, i as int));
        } else {
            out.push(v[i]);
            assert(before.push(v@[i as int]) + escaped(v@, i as int + 1) =~= before + escaped(
                v@,
                i as int,
            ));
        }
        i += 1;
    }
    assert(out@ + escaped(v@, i as int) =~= out@);
    from_chars(&out)
}

fn underscore(input: &str) -> (r: String)
    ensures
        r@ == underscored(input@, 0),
{
    let v = to_chars(input);
    let mut out = String::new();
    let mut i: usize = 0;
    while i < v.len()
        invariant
            i <= v.len(),
            out@ + underscored(v@, i as int) == underscored(v@, 0),
        decreases v.len() - i,
    {
        let ghost before = out@;
        let c = if v[i] == ' ' {
            '_'
        } else {
            v[i]
        };
        push_char(&mut out, c);
        assert(before.push(c) + underscored(v@, i as int + 1) =~= before + underscored(
            v@,
            i as int,
        ));
        i += 1;
    }
    assert(out@ + underscored(v@, i as int) =~= out@);
    out
}

fn matches_at(s: &Vec<char>, pattern: &Vec<char>, i: usize) -> (r: bool)
    requires
        i + pattern.len() <= s.len(),
    ensures
        r == (s@.subrange(i as int, i + pattern@.len()) == pattern@),
{
    let mut k: usize = 0;
    while k < pattern.len()
        invariant
            k <= pattern.len(),
            i + pattern.len() <= s.len(),
            forall|m: int| 0 <= m < k ==> s@[i + m] == pattern@[m],
        decreases pattern.len() - k,
    {
        if s[i + k] != pattern[k] {
            assert(s@.subrange(i as int, i + pattern@.len())[k as int] != pattern@[k as int]);
            return false;
        }
        k += 1;
    }
    assert(s@.subrange(i as int, i + pattern@.len()) =~= pattern@);
    true
}

fn holds(s: &str, pattern: &str) -> (r: bool)
    ensures
        r == holds_text(s@, pattern@, 0),
{
    let v = to_chars(s);
    let p = to_chars(pattern);
    if p.len() > v.len() {
        return false;
    }
    let last = v.len() - p.len();
    let mut i: usize = 0;
    loop
        invariant
            v@ == s@,
            p@ == pattern@,
            i <= last,
            last == v.len() - p.len(),
            holds_text(v@, p@, 0) == holds_text(v@, p@, i as int),
        decreases last - i,
    {
        if matches_at(&v, &p, i) {
            return true;
        }
        if i == last {
            assert(!holds_text(v@, p@, i as int + 1));
            return false;
        }
        i += 1;
    }
}

fn suffix(s: &str, end: &str) -> (r: bool)
    ensures
        r == ends_with(s@, end@),
{
    let v = to_chars(s);
    let p = to_chars(end);
    if v.len() >= p.len() {
        matches_at(&v, &p, v.len() - p.len())
    } else {
        false
    }
}

fn any_positional(element: &ElementSpan, pattern: &str) -> (r: bool)
    ensures
        r == any_holds(
            element@.positional_attributes,
            pattern@,
            element@.positional_attributes.len() as int,
        ),
{
    let ghost values = element@.positional_attributes;
    let mut found = false;
    let mut i: usize = 0;
    while i < element.positional_attributes.len()
        invariant
            i <= element.positional_attributes.len(),
            values == values_view(element.positional_attributes@),
            found == any_holds(values, pattern@, i as int),
        decreases element.positional_attributes.len() - i,
    {
        assert(values[i as int] == element.positional_attributes@[i as int]@);
        if holds(element.positional_attributes[i].as_str(), pattern) {
            found = true;
        }
        i += 1;
    }
    found
}

fn write_title(element: &ElementSpan, level: u32, indent: usize, out: &mut Vec<char>) -> (r: Result<
    (),
    AsciidoctrineError,
>)
    ensures
        match r {
            Ok(()) => title_html(element@, level, indent as nat) == Some(
                final(out)@.skip(old(out)@.len() as int),
            ) && final(out)@.take(old(out)@.len() as int) == old(out)@,
            Err(e) => e == AsciidoctrineError::MalformedAst && title_html(
                element@,
                level,
                indent as nat,
            ).is_none(),
        },
{
    let ghost start = out@;
    let name = match element.get_attribute("name") {
        Some(name) => name,
        None => {
            return Err(AsciidoctrineError::MalformedAst);
        },
    };
    let mut tag = String::new();
    push_decimal(&mut tag, level as usize);
    assert(tag@ =~= decimal(level as nat));
    push_spaces(out, indent);
    push_str(out, "<h");
    push_str(out, tag.as_str());
    if level > 1 {
        push_str(out, " id=\"");
        match element.get_attribute("anchor") {
            Some(id) => {
                push_str(out, id);
            },
            None => {
                push_str(out, "_");
                let lowered = to_lowercase(underscore(name).as_str());
                push_str(out, lowered.as_str());
            },
        }
        push_str(out, "\"");
    }
    push_str(out, ">");
    push_str(out, name);
    push_str(out, "</h");
    push_str(out, tag.as_str());
    push_str(out, ">\n");
    assert(out@ =~= start + title_html(element@, level, indent as nat).unwrap());
    assert(out@.skip(start.len() as int) =~= title_html(element@, level, indent as nat).unwrap());
    assert(out@.take(start.len() as int) =~= start);
    Ok(())
}

fn write_block_open(element: &ElementSpan, listing: bool, indent: usize, out: &mut Vec<char>)
    ensures
        final(out)@ == old(out)@ + block_open(
            element@,
            if listing {
                BlockType::Listing
            } else {
                BlockType::Literal
            },
            indent as nat,
        ),
{
    let ghost start = out@;
    match element.get_attribute("anchor") {
        Some(id) => {
            push_str(out, " id=\"");
            push_str(out, id);
            push_str(out, "\" ");
        },
        None => {},
    }
    push_spaces(out, indent);
    if listing {
        push_str(out, "<div class=\"listingblock\">");
    } else {
        push_str(out, "<div class=\"unknown-block\">");
    }
    let ghost opened = out@;
    match element.get_attribute("title") {
        Some(title) => {
            push_str(out, "\n  <div class=\"title\">");
            push_str(out, title);
            push_str(out, "</div>\n");
            assert(out@ =~= opened + ("\n  <div class=\"title\">"@ + title@ + "</div>\n"@));
        },
        None => {
            assert(out@ =~= opened + Seq::<char>::empty());
        },
    }
}

fn write_block_content(element: &ElementSpan, listing: bool, out: &mut Vec<char>)
    ensures
        final(out)@ == old(out)@ + block_content(
            element@,
            if listing {
                BlockType::Listing
            } else {
                BlockType::Literal
            },
        ),
{
    let content = match element.get_attribute("content") {
        Some(content) => escape_text(content),
        None => escape_text(element.content.as_str()),
    };
    if listing {
        push_str(out, "\n  <pre>");
        push_str(out, content.as_str());
        push_str(out, "</pre>\n");
        assert(out@ =~= old(out)@ + ("\n  <pre>"@ + content@ + "</pre>\n"@));
    } else {
        push_str(out, content.as_str());
    }
}

fn write_plain_block(element: &ElementSpan, kind: &BlockType, indent: usize, out: &mut Vec<char>)
    ensures
        final(out)@ == old(out)@ + plain_block_html(element@, *kind, indent as nat),
{
    let listing = match kind {
        BlockType::Listing => true,
        _ => false,
    };
    write_block_open(element, listing, indent, out);
    write_block_content(element, listing, out);
    push_spaces(out, indent);
    push_str(out, "</div>\n");
    assert(out@ =~= old(out)@ + plain_block_html(element@, *kind, indent as nat));
}

fn write_link(element: &ElementSpan, out: &mut Vec<char>)
    ensures
        final(out)@ == old(out)@ + link_html(element@),
{
    push_str(out, "<a href=\"");
    match element.get_attribute("url") {
        Some(url) => {
            push_str(out, url);
        },
        None => {},
    }
    push_str(out, "\">");
    if element.positional_attributes.len() > 0 {
        assert(element@.positional_attributes[0] == element.positional_attributes@[0]@);
        push_str(out, element.positional_attributes[0].as_str());
    }
    push_str(out, "</a>");
    assert(out@ =~= old(out)@ + link_html(element@));
}

fn write_xref(element: &ElementSpan, out: &mut Vec<char>)
    ensures
        final(out)@ == old(out)@ + xref_html(element@),
{
    let id = match element.get_attribute("id") {
        Some(id) => id,
        None => "",
    };
    proof {
        reveal_strlit("");
    }
    assert(id@ =~= attribute_or_empty(element@.attributes, "id"@));
    push_str(out, "<a href=\"#");
    push_str(out, id);
    push_str(out, "\">");
    match element.get_attribute("content") {
        Some(content) => {
            push_str(out, content);
        },
        None => {
            push_str(out, id);
        },
    }
    push_str(out, "</a>");
    assert(out@ =~= old(out)@ + xref_html(element@));
}

fn write_image(element: &ElementSpan, out: &mut Vec<char>)
    ensures
        final(out)@ == old(out)@ + image_html(element@),
{
    match element.get_attribute("path") {
        Some(path) => match element.get_attribute("opts") {
            Some(options) => {
                if same_text(options, "inline") && suffix(path, ".svg") {
                    match element.get_attribute("content") {
                        Some(content) => {
                            push_str(out, content);
                        },
                        None => {},
                    }
                }
            },
            None => {
                push_str(out, "<img src=\"");
                push_str(out, path);
                push_str(out, "\"></div>\n");
            },
        },
        None => {},
    }
    assert(out@ =~= old(out)@ + image_html(element@));
}

fn write_styled(element: &ElementSpan, indent: usize, out: &mut Vec<char>)
    ensures
        final(out)@ == old(out)@ + styled_html(element@, indent as nat),
{
    let style = match element.get_attribute("style") {
        Some(style) => style,
        None => "",
    };
    proof {
        reveal_strlit("");
    }
    assert(style@ =~= attribute_or_empty(element@.attributes, "style"@));
    let tag = if same_text(style, "monospaced") {
        "code"
    } else {
        style
    };
    push_spaces(out, indent);
    push_str(out, "<");
    push_str(out, tag);
    push_str(out, ">");
    match element.get_attribute("content") {
        Some(content) => {
            push_str(out, content);
        },
        None => {},
    }
    push_str(out, "</");
    push_str(out, tag);
    push_str(out, ">");
    assert(out@ =~= old(out)@ + styled_html(element@, indent as nat));
}

fn write_children(children: &Vec<ElementSpan>, indent: usize) -> (r: Result<Vec<char>, AsciidoctrineError>)
    ensures
        match r {
            Ok(text) => html_all(spans_view(children@), indent, children@.len() as int) == Some(
                text@,
            ),
            Err(e) => e == AsciidoctrineError::MalformedAst && html_all(
                spans_view(children@),
                indent,
                children@.len() as int,
            ).is_none(),
        },
    decreases children, 0nat,
{
    let ghost all = spans_view(children@);
    let mut out: Vec<char> = Vec::new();
    let mut i: usize = 0;
    while i < children.len()
        invariant
            i <= children.len(),
            all == spans_view(children@),
            html_all(all, indent, i as int) == Some(out@),
        decreases children.len() - i,
    {
        assert(all[i as int] == children@[i as int]@);
        match write_html(&children[i], indent) {
            Ok(text) => {
                push_all(&mut out, &text);
            },
            Err(e) => {
                proof {
                    lemma_html_all_fails(all, indent, i as int + 1, children@.len() as int);
                }
                return Err(e);
            },
        }
        i += 1;
    }
    Ok(out)
}

/// Once some node cannot be written, neither can the nodes up to a later
/// one.
pub proof fn lemma_html_all_fails(spans: Seq<SpanSpec>, indent: usize, n: int, m: int)
    requires
        0 <= n <= m <= spans.len(),
        html_all(spans, indent, n).is_none(),
    ensures
        html_all(spans, indent, m).is_none(),
    decreases m - n,
{
    if n < m {
        lemma_html_all_fails(spans, indent, n, m - 1);
    }
}

/// Once some item cannot be written, neither can the items up to a later
/// node.
pub proof fn lemma_html_items_fail(spans: Seq<SpanSpec>, numbered: bool, indent: usize, n: int, m: int)
    requires
        0 <= n <= m <= spans.len(),
        html_items(spans, numbered, indent, n).is_none(),
    ensures
        html_items(spans, numbered, indent, m).is_none(),
    decreases m - n,
{
    if n < m {
        lemma_html_items_fail(spans, numbered, indent, n, m - 1);
    }
}

fn unit_of(indent: usize, level: u32, extra: u8) -> (r: usize)
    ensures
        r == unit(indent, level, extra as nat),
{
    let above: u64 = if level >= 1 {
        (level - 1) as u64
    } else {
        0
    };
    let steps: u64 = 2 * above + extra as u64;
    let room: usize = usize::MAX - indent;
    if steps <= room as u64 {
        indent + steps as usize
    } else {
        usize::MAX
    }
}

fn push_list_open(out: &mut Vec<char>, numbered: bool, level: u32)
    ensures
        final(out)@ == old(out)@ + list_open(numbered, level as nat),
{
    if !numbered {
        push_str(out, "<ul>");
    } else if level <= 1 {
        push_str(out, "<ol class=\"arabic\">");
    } else {
        push_str(out, "<ol class=\"loweralpha\" type=\"a\">");
    }
}

fn push_list_close(out: &mut Vec<char>, numbered: bool)
    ensures
        final(out)@ == old(out)@ + list_close(numbered),
{
    if numbered {
        push_str(out, "</ol>");
    } else {
        push_str(out, "</ul>");
    }
}

fn push_opened(out: &mut Vec<char>, numbered: bool, indent: usize, from: u32, to: u32)
    ensures
        final(out)@ == old(out)@ + opened(numbered, indent, from, to),
{
    let ghost before = out@;
    let mut j: u32 = from;
    assert(out@ =~= before + opened(numbered, indent, from, from));
    while j < to
        invariant
            from <= j,
            j <= to || to <= from,
            to <= from ==> j == from,
            out@ == before + opened(numbered, indent, from, j),
        decreases to - j,
    {
        let ghost done = out@;
        if j > from {
            push_spaces(out, unit_of(indent, j, 1));
            push_str(out, "<li>\n");
        }
        j += 1;
        push_spaces(out, unit_of(indent, j, 0));
        push_list_open(out, numbered, j);
        push_str(out, "\n");
        assert(out@ =~= before + opened(numbered, indent, from, j));
    }
    if to <= from {
        assert(j == from);
        assert(opened(numbered, indent, from, from) =~= Seq::<char>::empty());
        assert(opened(numbered, indent, from, to) =~= Seq::<char>::empty());
    } else {
        assert(j == to);
    }
    assert(out@ =~= before + opened(numbered, indent, from, to));
}

fn push_closed(out: &mut Vec<char>, numbered: bool, indent: usize, from: u32, to: u32)
    ensures
        final(out)@ == old(out)@ + closed(numbered, indent, from, to),
{
    let ghost before = out@;
    let mut j: u32 = from;
    assert(out@ + closed(numbered, indent, j, to) =~= before + closed(numbered, indent, from, to));
    while j > to
        invariant
            j <= from,
            out@ + closed(numbered, indent, j, to) == before + closed(numbered, indent, from, to),
        decreases j,
    {
        let ghost done = out@;
        push_spaces(out, unit_of(indent, j, 0));
        push_list_close(out, numbered);
        push_str(out, "\n");
        push_spaces(out, unit_of(indent, j - 1, 1));
        push_str(out, "</li>\n");
        assert(out@ + closed(numbered, indent, (j - 1) as u32, to) =~= done + closed(
            numbered,
            indent,
            j,
            to,
        ));
        j -= 1;
    }
    assert(closed(numbered, indent, j, to) =~= Seq::<char>::empty());
    assert(out@ =~= before + closed(numbered, indent, from, to));
}

fn push_turn(
    out: &mut Vec<char>,
    numbered: bool,
    indent: usize,
    level: u32,
    has_item: bool,
    target: u32,
)
    ensures
        final(out)@ == old(out)@ + turn(numbered, indent, level, has_item, target),
{
    let ghost before = out@;
    if target > level {
        if !has_item {
            push_spaces(out, unit_of(indent, level, 1));
            push_str(out, "<li>\n");
        }
        push_opened(out, numbered, indent, level, target);
    } else {
        if has_item {
            push_spaces(out, unit_of(indent, level, 1));
            push_str(out, "</li>\n");
        }
        push_closed(out, numbered, indent, level, target);
    }
    assert(out@ =~= before + turn(numbered, indent, level, has_item, target));
}

fn write_item(input: &ElementSpan, indent: usize) -> (r: Result<Vec<char>, AsciidoctrineError>)
    ensures
        match r {
            Ok(text) => item_html(input@, indent) == Some(text@),
            Err(e) => e == AsciidoctrineError::MalformedAst && item_html(input@, indent).is_none(),
        },
    decreases input, 1nat,
{
    proof {
        input.lemma_children();
    }
    write_children(&input.children, indent)
}

fn write_items(children: &Vec<ElementSpan>, numbered: bool, indent: usize) -> (r: Result<
    (Vec<char>, u32, bool),
    AsciidoctrineError,
>)
    ensures
        match r {
            Ok(found) => html_items(
                spans_view(children@),
                numbered,
                indent,
                children@.len() as int,
            ) == Some((found.0@, found.1, found.2)),
            Err(e) => e == AsciidoctrineError::MalformedAst && html_items(
                spans_view(children@),
                numbered,
                indent,
                children@.len() as int,
            ).is_none(),
        },
    decreases children, 0nat,
{
    let ghost all = spans_view(children@);
    let mut out: Vec<char> = Vec::new();
    let mut level: u32 = 1;
    let mut has_item = false;
    let mut i: usize = 0;
    while i < children.len()
        invariant
            i <= children.len(),
            all == spans_view(children@),
            html_items(all, numbered, indent, i as int) == Some((out@, level, has_item)),
        decreases children.len() - i,
    {
        let child = &children[i];
        let ghost before = out@;
        assert(all[i as int] == child@);
        assert(child@.element == child.element@);
        match &child.element {
            Element::ListItem(item_level) => {
                let target: u32 = if *item_level == 0 {
                    1
                } else {
                    *item_level
                };
                match write_item(child, unit_of(indent, target, 2)) {
                    Ok(text) => {
                        push_turn(&mut out, numbered, indent, level, has_item, target);
                        push_spaces(&mut out, unit_of(indent, target, 1));
                        push_str(&mut out, "<li>\n");
                        push_all(&mut out, &text);
                        assert(out@ =~= before + turn(numbered, indent, level, has_item, target)
                            + spaces(unit(indent, target, 1) as nat) + "<li>\n"@ + text@);
                        level = target;
                        has_item = true;
                    },
                    Err(e) => {
                        proof {
                            lemma_html_items_fail(
                                all,
                                numbered,
                                indent,
                                i as int + 1,
                                children@.len() as int,
                            );
                        }
                        return Err(e);
                    },
                }
            },
            _ => {},
        }
        i += 1;
        assert(html_items(all, numbered, indent, i as int) == Some((out@, level, has_item)));
    }
    Ok((out, level, has_item))
}

/// Once some cell cannot be written, neither can the cells up to a later
/// node.
pub proof fn lemma_cells_fail(
    spans: Seq<SpanSpec>,
    formats: Seq<ColumnFormat>,
    indent: usize,
    n: int,
    m: int,
)
    requires
        0 <= n <= m <= spans.len(),
        cells_html(spans, formats, indent, n).is_none(),
    ensures
        cells_html(spans, formats, indent, m).is_none(),
    decreases m - n,
{
    if n < m {
        lemma_cells_fail(spans, formats, indent, n, m - 1);
    }
}

/// Once some row cannot be written, neither can the rows up to a later
/// node.
pub proof fn lemma_rows_fail(
    spans: Seq<SpanSpec>,
    formats: Seq<ColumnFormat>,
    indent: usize,
    n: int,
    m: int,
)
    requires
        0 <= n <= m <= spans.len(),
        rows_html(spans, formats, indent, n).is_none(),
    ensures
        rows_html(spans, formats, indent, m).is_none(),
    decreases m - n,
{
    if n < m {
        lemma_rows_fail(spans, formats, indent, n, m - 1);
    }
}

fn kind_of_column(formats: &Vec<ColumnFormat>, k: usize) -> (r: ColKind)
    ensures
        r == column_kind(formats@, k as int),
{
    if formats.len() > 0 {
        formats[k % formats.len()].kind
    } else {
        ColKind::Default
    }
}

fn write_cell(input: &ElementSpan, kind: ColKind, indent: usize) -> (r: Result<
    Vec<char>,
    AsciidoctrineError,
>)
    ensures
        match r {
            Ok(text) => cell_html(input@, kind, indent) == Some(text@),
            Err(e) => e == AsciidoctrineError::MalformedAst && cell_html(
                input@,
                kind,
                indent,
            ).is_none(),
        },
    decreases input, 1nat,
{
    proof {
        input.lemma_children();
    }
    let mut out: Vec<char> = Vec::new();
    match kind {
        ColKind::Default => {
            match write_children(&input.children, 0) {
                Ok(inner) => {
                    let mut inner = inner;
                    let ghost whole = inner@;
                    if inner.len() > 0 && inner[inner.len() - 1] == '\n' {
                        inner.pop();
                    }
                    assert(inner@ =~= without_last_feed(whole));
                    push_spaces(&mut out, indent);
                    push_str(&mut out, "<td>");
                    push_all(&mut out, &inner);
                    push_str(&mut out, "</td>\n");
                    assert(out@ =~= spaces(indent as nat) + "<td>"@ + without_last_feed(whole)
                        + "</td>\n"@);
                    Ok(out)
                },
                Err(e) => Err(e),
            }
        },
        ColKind::Asciidoc => {
            match write_children(&input.children, unit_of(indent, 1, 1)) {
                Ok(inner) => {
                    push_spaces(&mut out, indent);
                    push_str(&mut out, "<td>\n");
                    push_all(&mut out, &inner);
                    push_spaces(&mut out, indent);
                    push_str(&mut out, "</td>\n");
                    assert(out@ =~= spaces(indent as nat) + "<td>\n"@ + inner@ + spaces(
                        indent as nat,
                    ) + "</td>\n"@);
                    Ok(out)
                },
                Err(e) => Err(e),
            }
        },
    }
}

fn write_cells(children: &Vec<ElementSpan>, formats: &Vec<ColumnFormat>, indent: usize) -> (r:
    Result<Vec<char>, AsciidoctrineError>)
    ensures
        match r {
            Ok(text) => cells_html(
                spans_view(children@),
                formats@,
                indent,
                children@.len() as int,
            ) == Some(text@),
            Err(e) => e == AsciidoctrineError::MalformedAst && cells_html(
                spans_view(children@),
                formats@,
                indent,
                children@.len() as int,
            ).is_none(),
        },
    decreases children, 0nat,
{
    let ghost all = spans_view(children@);
    let mut out: Vec<char> = Vec::new();
    let mut i: usize = 0;
    while i < children.len()
        invariant
            i <= children.len(),
            all == spans_view(children@),
            cells_html(all, formats@, indent, i as int) == Some(out@),
        decreases children.len() - i,
    {
        let child = &children[i];
        assert(all[i as int] == child@);
        assert(child@.element == child.element@);
        match &child.element {
            Element::TableCell => {
                match write_cell(child, kind_of_column(formats, i), indent) {
                    Ok(text) => {
                        push_all(&mut out, &text);
                    },
                    Err(e) => {
                        proof {
                            lemma_cells_fail(
                                all,
                                formats@,
                                indent,
                                i as int + 1,
                                children@.len() as int,
                            );
                        }
                        return Err(e);
                    },
                }
            },
            _ => {},
        }
        i += 1;
    }
    Ok(out)
}

fn write_row(input: &ElementSpan, formats: &Vec<ColumnFormat>, indent: usize) -> (r: Result<
    Vec<char>,
    AsciidoctrineError,
>)
    ensures
        match r {
            Ok(text) => row_html(input@, formats@, indent) == Some(text@),
            Err(e) => e == AsciidoctrineError::MalformedAst && row_html(
                input@,
                formats@,
                indent,
            ).is_none(),
        },
    decreases input, 1nat,
{
    proof {
        input.lemma_children();
    }
    match write_cells(&input.children, formats, unit_of(indent, 1, 1)) {
        Ok(cells) => {
            let mut out: Vec<char> = Vec::new();
            push_spaces(&mut out, indent);
            push_str(&mut out, "<tr>\n");
            push_all(&mut out, &cells);
            push_spaces(&mut out, indent);
            push_str(&mut out, "</tr>\n");
            assert(out@ =~= spaces(indent as nat) + "<tr>\n"@ + cells@ + spaces(indent as nat)
                + "</tr>\n"@);
            Ok(out)
        },
        Err(e) => Err(e),
    }
}

fn write_rows(children: &Vec<ElementSpan>, formats: &Vec<ColumnFormat>, indent: usize) -> (r:
    Result<Vec<char>, AsciidoctrineError>)
    ensures
        match r {
            Ok(text) => rows_html(
                spans_view(children@),
                formats@,
                indent,
                children@.len() as int,
            ) == Some(text@),
            Err(e) => e == AsciidoctrineError::MalformedAst && rows_html(
                spans_view(children@),
                formats@,
                indent,
                children@.len() as int,
            ).is_none(),
        },
    decreases children, 0nat,
{
    let ghost all = spans_view(children@);
    let mut out: Vec<char> = Vec::new();
    let mut i: usize = 0;
    while i < children.len()
        invariant
            i <= children.len(),
            all == spans_view(children@),
            rows_html(all, formats@, indent, i as int) == Some(out@),
        decreases children.len() - i,
    {
        let child = &children[i];
        assert(all[i as int] == child@);
        assert(child@.element == child.element@);
        match &child.element {
            Element::TableRow => {
                match write_row(child, formats, indent) {
                    Ok(text) => {
                        push_all(&mut out, &text);
                    },
                    Err(e) => {
                        proof {
                            lemma_rows_fail(
                                all,
                                formats@,
                                indent,
                                i as int + 1,
                                children@.len() as int,
                            );
                        }
                        return Err(e);
                    },
                }
            },
            _ => {},
        }
        i += 1;
    }
    Ok(out)
}

fn push_col_tags(out: &mut Vec<char>, n: usize, indent: usize)
    ensures
        final(out)@ == old(out)@ + col_tags(n as nat, column_width(n as nat), indent),
{
    let ghost before = out@;
    let width: usize = if n == 0 {
        100
    } else {
        100 / n
    };
    let mut k: usize = 0;
    assert(out@ =~= before + col_tags(0, width as nat, indent));
    while k < n
        invariant
            k <= n,
            width == column_width(n as nat),
            out@ == before + col_tags(k as nat, width as nat, indent),
        decreases n - k,
    {
        push_spaces(out, indent);
        push_str(out, "<col style=\"width: ");
        let mut number = String::new();
        push_decimal(&mut number, width);
        push_str(out, number.as_str());
        push_str(out, "%;\">\n");
        k += 1;
        assert(out@ =~= before + col_tags(k as nat, width as nat, indent));
    }
}

fn formats_of(input: &ElementSpan) -> (r: Vec<ColumnFormat>)
    ensures
        r@ == table_formats(input@),
{
    match input.get_attribute("cols") {
        Some(formats) => parse_columns_format(formats),
        None => {
            let content = match input.get_attribute("content") {
                Some(content) => content,
                None => "",
            };
            proof {
                reveal_strlit("");
            }
            assert(content@ =~= attribute_or_empty(input@.attributes, "content"@));
            parse_columns_format_from_content(content)
        },
    }
}

/// A node as HTML; `MalformedAst` where a title below it has no name.
pub fn write_html(input: &ElementSpan, indent: usize) -> (r: Result<Vec<char>, AsciidoctrineError>)
    ensures
        match r {
            Ok(text) => html(input@, indent) == Some(text@),
            Err(e) => e == AsciidoctrineError::MalformedAst && html(input@, indent).is_none(),
        },
    decreases input, 1nat,
{
    proof {
        input.lemma_children();
    }
    assert(input@.element == input.element@);
    let mut out: Vec<char> = Vec::new();
    match &input.element {
        Element::Title { level } => {
            match write_title(input, *level, indent, &mut out) {
                Ok(()) => {
                    assert(out@.skip(0) =~= out@);
                    Ok(out)
                },
                Err(e) => Err(e),
            }
        },
        Element::Table => {
            let formats = formats_of(input);
            match write_rows(&input.children, &formats, unit_of(indent, 1, 2)) {
                Ok(rows) => {
                    push_spaces(&mut out, indent);
                    push_str(&mut out, "<table class=\"tableblock frame-all grid-all stretch\">\n");
                    push_spaces(&mut out, unit_of(indent, 1, 1));
                    push_str(&mut out, "<colgroup>\n");
                    push_col_tags(&mut out, formats.len(), unit_of(indent, 1, 2));
                    push_spaces(&mut out, unit_of(indent, 1, 1));
                    push_str(&mut out, "</colgroup>\n");
                    push_spaces(&mut out, unit_of(indent, 1, 1));
                    push_str(&mut out, "<tbody>\n");
                    push_all(&mut out, &rows);
                    push_spaces(&mut out, unit_of(indent, 1, 1));
                    push_str(&mut out, "</tbody>\n");
                    push_spaces(&mut out, indent);
                    push_str(&mut out, "</table>\n");
                    assert(out@ =~= html(input@, indent).unwrap());
                    Ok(out)
                },
                Err(e) => Err(e),
            }
        },
        Element::Paragraph => {
            match write_children(&input.children, 0) {
                Ok(inner) => {
                    push_spaces(&mut out, indent);
                    push_str(&mut out, "<p>");
                    push_all(&mut out, &inner);
                    push_str(&mut out, "</p>\n");
                    assert(out@ =~= spaces(indent as nat) + "<p>"@ + inner@ + "</p>\n"@);
                    Ok(out)
                },
                Err(e) => Err(e),
            }
        },
        Element::List(kind) => {
            let numbered = match kind {
                ListType::Number => true,
                ListType::Bullet => false,
            };
            match write_items(&input.children, numbered, indent) {
                Ok((inner, level, has_item)) => {
                    push_spaces(&mut out, indent);
                    push_list_open(&mut out, numbered, 1);
                    push_str(&mut out, "\n");
                    push_all(&mut out, &inner);
                    push_turn(&mut out, numbered, indent, level, has_item, 1);
                    push_spaces(&mut out, indent);
                    push_list_close(&mut out, numbered);
                    push_str(&mut out, "\n");
                    assert(out@ =~= spaces(indent as nat) + list_open(numbered, 1) + "\n"@ + inner@
                        + turn(numbered, indent, level, has_item, 1) + spaces(indent as nat)
                        + list_close(numbered) + "\n"@);
                    Ok(out)
                },
                Err(e) => Err(e),
            }
        },
        Element::ListItem(_) => {
            match write_children(&input.children, indent) {
                Ok(inner) => {
                    push_str(&mut out, "<li>\n");
                    push_all(&mut out, &inner);
                    push_str(&mut out, "</li>\n");
                    assert(out@ =~= "<li>\n"@ + inner@ + "</li>\n"@);
                    Ok(out)
                },
                Err(e) => Err(e),
            }
        },
        Element::TypedBlock { kind } => {
            let example = match kind {
                BlockType::Example => true,
                _ => false,
            };
            let comment = match kind {
                BlockType::Comment => true,
                _ => false,
            };
            if comment {
                assert(out@ =~= Seq::<char>::empty());
                Ok(out)
            } else if example && any_positional(input, "%collapsible") {
                let inside = if indent <= usize::MAX - 3 {
                    indent + 3
                } else {
                    indent
                };
                match write_children(&input.children, inside) {
                    Ok(inner) => {
                        push_spaces(&mut out, indent);
                        if any_positional(input, "%open") {
                            push_str(&mut out, "<details open>");
                        } else {
                            push_str(&mut out, "<details>");
                        }
                        push_str(&mut out, "\n  <summary class=\"title\">");
                        match input.get_attribute("title") {
                            Some(title) => {
                                push_str(&mut out, title);
                            },
                            None => {
                                push_str(&mut out, "Details");
                            },
                        }
                        push_str(
                            &mut out,
                            "</summary>\n  <div class=\"content\">\n    <div class=\"paragraph\">\n",
                        );
                        push_all(&mut out, &inner);
                        push_str(&mut out, "    </div>\n  </div>\n");
                        push_spaces(&mut out, indent);
                        push_str(&mut out, "</details>\n");
                        assert(out@ =~= html(input@, indent).unwrap());
                        Ok(out)
                    },
                    Err(e) => Err(e),
                }
            } else {
                write_plain_block(input, kind, indent, &mut out);
                assert(out@ =~= plain_block_html(input@, *kind, indent as nat));
                Ok(out)
            }
        },
        Element::Link => {
            write_link(input, &mut out);
            assert(out@ =~= link_html(input@));
            Ok(out)
        },
        Element::XRef => {
            write_xref(input, &mut out);
            assert(out@ =~= xref_html(input@));
            Ok(out)
        },
        Element::Image => {
            write_image(input, &mut out);
            assert(out@ =~= image_html(input@));
            Ok(out)
        },
        Element::Text => {
            push_str(&mut out, input.content.as_str());
            assert(out@ =~= input@.content);
            Ok(out)
        },
        Element::Styled => {
            write_styled(input, indent, &mut out);
            assert(out@ =~= styled_html(input@, indent as nat));
            Ok(out)
        },
        _ => {
            let name = debug_element(&input.element);
            push_str(&mut out, "<NOT-YET-SUPPORTED:");
            push_str(&mut out, name.as_str());
            push_str(&mut out, ">");
            push_str(&mut out, input.content.as_str());
            push_str(&mut out, "</NOT-YET-SUPPORTED:");
            push_str(&mut out, name.as_str());
            push_str(&mut out, ">\n");
            assert(out@ =~= html(input@, indent).unwrap());
            Ok(out)
        },
    }
}

/// The writer of HTML pages.
pub struct HtmlWriter {}

impl HtmlWriter {
    /// The body of the page for the document; `MalformedAst` where a
    /// title has no name.
    pub fn body(ast: &AST) -> (r: Result<String, AsciidoctrineError>)
        ensures
            match r {
                Ok(text) => body_html(ast@.elements) == Some(text@),
                Err(e) => e == AsciidoctrineError::MalformedAst && body_html(ast@.elements).is_none(),
            },
    {
        proof {
            ast.lemma_elements();
        }
        match write_children(&ast.elements, 0) {
            Ok(text) => Ok(from_chars(&text)),
            Err(e) => Err(e),
        }
    }
}

} // verus!
