//! The document tree that readers produce and that the weaver and the
//! writers consume.

use crate::snippets::same_text;
use vstd::prelude::*;

verus! {

/// A parsed document.
#[derive(Debug, PartialEq)]
pub struct AST {
    pub content: String,
    pub elements: Vec<ElementSpan>,
    pub attributes: Vec<Attribute>,
}

/// One node of the document tree, with the place it came from, its
/// subelements and the attributes defined on it.
#[derive(Debug, PartialEq)]
pub struct ElementSpan {
    /// The source document, where it differs from that of the parent.
    pub source: Option<String>,
    /// The text of the node.
    pub content: String,
    pub start: usize,
    pub end: usize,
    pub start_line: usize,
    pub start_col: usize,
    pub end_line: usize,
    pub end_col: usize,
    pub element: Element,
    pub children: Vec<ElementSpan>,
    pub positional_attributes: Vec<AttributeValue>,
    pub attributes: Vec<Attribute>,
}

/// The kinds of nodes.
#[derive(Debug, PartialEq)]
pub enum Element {
    Attribute(Attribute),
    /// A section of ignored text.
    Comment,
    Paragraph,
    /// A header.
    Title { level: u32 },
    Table,
    List(ListType),
    Image,
    Anchor,
    /// A delimited block of the given kind.
    TypedBlock { kind: BlockType },
    /// Content that is passed on as it stands.
    ExternalContent,
    /// An include statement with the document it names.
    IncludeElement(IncludeElement),
    /// Inline text with a style; the attributes name the style.
    Styled,
    /// A chunk of text.
    Text,
    /// An internal reference.
    XRef,
    /// An external link.
    Link,
    ListItem(u32),
    TableRow,
    TableCell,
    /// Wrongly formatted text.
    Error(String),
}

#[derive(Debug, PartialEq, Eq, Clone, Copy)]
pub enum ListType {
    Bullet,
    Number,
}

#[derive(Debug, PartialEq, Eq, Clone, Copy)]
pub enum BlockType {
    Comment,
    Passtrough,
    Listing,
    Literal,
    Sidebar,
    Quote,
    Example,
}

/// The value of an attribute: text that the tree owns, or text taken from
/// the source as it stands.
#[derive(Debug, PartialEq)]
pub enum AttributeValue {
    String(String),
    Ref(String),
}

/// A named attribute.
#[derive(Debug, PartialEq)]
pub struct Attribute {
    pub key: String,
    pub value: AttributeValue,
}

/// An included document.
#[derive(Debug, PartialEq)]
pub struct IncludeElement {
    pub inner: AST,
}

/// The mathematical value of an [`AttributeValue`].
pub enum ValueSpec {
    String(Seq<char>),
    Ref(Seq<char>),
}

impl ValueSpec {
    /// The text of the value.
    pub open spec fn text(self) -> Seq<char> {
        match self {
            ValueSpec::String(text) => text,
            ValueSpec::Ref(text) => text,
        }
    }
}

/// The mathematical value of an [`Attribute`].
pub struct NamedSpec {
    pub key: Seq<char>,
    pub value: ValueSpec,
}

/// The mathematical value of an [`Element`].
pub enum ElementSpec {
    Attribute(NamedSpec),
    Comment,
    Paragraph,
    Title { level: u32 },
    Table,
    List(ListType),
    Image,
    Anchor,
    TypedBlock { kind: BlockType },
    ExternalContent,
    IncludeElement(DocumentSpec),
    Styled,
    Text,
    XRef,
    Link,
    ListItem(u32),
    TableRow,
    TableCell,
    Error(Seq<char>),
}

/// The mathematical value of an [`ElementSpan`].
pub struct SpanSpec {
    pub source: Option<Seq<char>>,
    pub content: Seq<char>,
    pub start: usize,
    pub end: usize,
    pub start_line: usize,
    pub start_col: usize,
    pub end_line: usize,
    pub end_col: usize,
    pub element: ElementSpec,
    pub children: Seq<SpanSpec>,
    pub positional_attributes: Seq<ValueSpec>,
    pub attributes: Seq<NamedSpec>,
}

/// The mathematical value of an [`AST`].
pub struct DocumentSpec {
    pub content: Seq<char>,
    pub elements: Seq<SpanSpec>,
    pub attributes: Seq<NamedSpec>,
}

impl View for AttributeValue {
    type V = ValueSpec;

    open spec fn view(&self) -> ValueSpec {
        match self {
            AttributeValue::String(text) => ValueSpec::String(text@),
            AttributeValue::Ref(text) => ValueSpec::Ref(text@),
        }
    }
}

impl View for Attribute {
    type V = NamedSpec;

    open spec fn view(&self) -> NamedSpec {
        NamedSpec { key: self.key@, value: self.value@ }
    }
}

/// The mathematical values of a sequence of attribute values.
pub open spec fn values_view(s: Seq<AttributeValue>) -> Seq<ValueSpec> {
    Seq::new(s.len(), |i: int| s[i]@)
}

/// The mathematical values of a sequence of named attributes.
pub open spec fn named_view(s: Seq<Attribute>) -> Seq<NamedSpec> {
    Seq::new(s.len(), |i: int| s[i]@)
}

/// The mathematical values of a sequence of nodes.
pub open spec fn spans_view(s: Seq<ElementSpan>) -> Seq<SpanSpec> {
    Seq::new(s.len(), |i: int| span_view(s[i]))
}

/// The mathematical value of a document.
pub open spec fn document_view(ast: AST) -> DocumentSpec
    decreases ast,
{
    DocumentSpec {
        content: ast.content@,
        elements: Seq::new(
            ast.elements@.len(),
            |i: int|
                if 0 <= i < ast.elements@.len() {
                    span_view(ast.elements@[i])
                } else {
                    arbitrary()
                },
        ),
        attributes: named_view(ast.attributes@),
    }
}

/// The mathematical value of a node.
pub open spec fn span_view(span: ElementSpan) -> SpanSpec
    decreases span,
{
    SpanSpec {
        source: match span.source {
            Some(source) => Some(source@),
            None => None,
        },
        content: span.content@,
        start: span.start,
        end: span.end,
        start_line: span.start_line,
        start_col: span.start_col,
        end_line: span.end_line,
        end_col: span.end_col,
        element: element_view(span.element),
        children: Seq::new(
            span.children@.len(),
            |i: int|
                if 0 <= i < span.children@.len() {
                    span_view(span.children@[i])
                } else {
                    arbitrary()
                },
        ),
        positional_attributes: values_view(span.positional_attributes@),
        attributes: named_view(span.attributes@),
    }
}

/// The mathematical value of a node's kind.
pub open spec fn element_view(element: Element) -> ElementSpec
    decreases element,
{
    match element {
        Element::Attribute(attribute) => ElementSpec::Attribute(attribute@),
        Element::Comment => ElementSpec::Comment,
        Element::Paragraph => ElementSpec::Paragraph,
        Element::Title { level } => ElementSpec::Title { level },
        Element::Table => ElementSpec::Table,
        Element::List(kind) => ElementSpec::List(kind),
        Element::Image => ElementSpec::Image,
        Element::Anchor => ElementSpec::Anchor,
        Element::TypedBlock { kind } => ElementSpec::TypedBlock { kind },
        Element::ExternalContent => ElementSpec::ExternalContent,
        Element::IncludeElement(included) => ElementSpec::IncludeElement(
            document_view(included.inner),
        ),
        Element::Styled => ElementSpec::Styled,
        Element::Text => ElementSpec::Text,
        Element::XRef => ElementSpec::XRef,
        Element::Link => ElementSpec::Link,
        Element::ListItem(level) => ElementSpec::ListItem(level),
        Element::TableRow => ElementSpec::TableRow,
        Element::TableCell => ElementSpec::TableCell,
        Element::Error(message) => ElementSpec::Error(message@),
    }
}

impl View for AST {
    type V = DocumentSpec;

    open spec fn view(&self) -> DocumentSpec {
        document_view(*self)
    }
}

impl View for ElementSpan {
    type V = SpanSpec;

    open spec fn view(&self) -> SpanSpec {
        span_view(*self)
    }
}

impl View for Element {
    type V = ElementSpec;

    open spec fn view(&self) -> ElementSpec {
        element_view(*self)
    }
}

/// The text of the first attribute named `name`.
pub open spec fn attribute_of(attributes: Seq<NamedSpec>, name: Seq<char>) -> Option<Seq<char>>
    decreases attributes.len(),
{
    if attributes.len() == 0 {
        None
    } else if attributes[0].key == name {
        Some(attributes[0].value.text())
    } else {
        attribute_of(attributes.drop_first(), name)
    }
}

impl AttributeValue {
    /// The text of the value.
    pub fn as_str(&self) -> (r: &str)
        ensures
            r@ == self@.text(),
    {
        match self {
            AttributeValue::Ref(value) => value.as_str(),
            AttributeValue::String(value) => value.as_str(),
        }
    }
}

impl Clone for AttributeValue {
    fn clone(&self) -> (r: Self)
        ensures
            r@ == self@,
    {
        match self {
            AttributeValue::Ref(value) => AttributeValue::Ref(value.clone()),
            AttributeValue::String(value) => AttributeValue::String(value.clone()),
        }
    }
}

impl Clone for Attribute {
    fn clone(&self) -> (r: Self)
        ensures
            r@ == self@,
    {
        Attribute { key: self.key.clone(), value: self.value.clone() }
    }
}

/// The text of the first of the attributes that is named `name`.
pub fn find_attribute<'a>(attributes: &'a Vec<Attribute>, name: &str) -> (r: Option<&'a str>)
    ensures
        match r {
            Some(text) => attribute_of(named_view(attributes@), name@) == Some(text@),
            None => attribute_of(named_view(attributes@), name@).is_none(),
        },
{
    let ghost all = named_view(attributes@);
    let mut i: usize = 0;
    assert(all.skip(0) =~= all);
    while i < attributes.len()
        invariant
            i <= attributes.len(),
            all == named_view(attributes@),
            attribute_of(all, name@) == attribute_of(all.skip(i as int), name@),
        decreases attributes.len() - i,
    {
        assert(all.skip(i as int)[0] == attributes@[i as int]@);
        assert(all.skip(i as int).drop_first() =~= all.skip(i as int + 1));
        if same_text(attributes[i].key.as_str(), name) {
            return Some(attributes[i].value.as_str());
        }
        i += 1;
    }
    None
}

/// A copy of the given attribute values.
pub fn clone_values(v: &Vec<AttributeValue>) -> (r: Vec<AttributeValue>)
    ensures
        values_view(r@) == values_view(v@),
{
    let mut r: Vec<AttributeValue> = Vec::new();
    let mut i: usize = 0;
    while i < v.len()
        invariant
            i <= v.len(),
            r@.len() == i,
            forall|k: int| 0 <= k < i ==> r@[k]@ == v@[k]@,
        decreases v.len() - i,
    {
        r.push(v[i].clone());
        i += 1;
    }
    assert(values_view(r@) =~= values_view(v@));
    r
}

/// A copy of the given named attributes.
pub fn clone_attributes(v: &Vec<Attribute>) -> (r: Vec<Attribute>)
    ensures
        named_view(r@) == named_view(v@),
{
    let mut r: Vec<Attribute> = Vec::new();
    let mut i: usize = 0;
    while i < v.len()
        invariant
            i <= v.len(),
            r@.len() == i,
            forall|k: int| 0 <= k < i ==> r@[k]@ == v@[k]@,
        decreases v.len() - i,
    {
        r.push(v[i].clone());
        i += 1;
    }
    assert(named_view(r@) =~= named_view(v@));
    r
}

/// A copy of the given nodes.
pub fn clone_spans(v: &Vec<ElementSpan>) -> (r: Vec<ElementSpan>)
    ensures
        spans_view(r@) == spans_view(v@),
    decreases v,
{
    let mut r: Vec<ElementSpan> = Vec::new();
    let mut i: usize = 0;
    while i < v.len()
        invariant
            i <= v.len(),
            r@.len() == i,
            forall|k: int| 0 <= k < i ==> span_view(r@[k]) == span_view(v@[k]),
        decreases v.len() - i,
    {
        r.push(v[i].clone());
        i += 1;
    }
    assert(spans_view(r@) =~= spans_view(v@));
    r
}

impl Clone for AST {
    fn clone(&self) -> (r: Self)
        ensures
            r@ == self@,
        decreases self,
    {
        let elements = clone_spans(&self.elements);
        let r = AST {
            content: self.content.clone(),
            elements,
            attributes: clone_attributes(&self.attributes),
        };
        assert(r@.elements =~= spans_view(elements@));
        assert(self@.elements =~= spans_view(self.elements@));
        r
    }
}

impl Clone for Element {
    fn clone(&self) -> (r: Self)
        ensures
            r@ == self@,
        decreases self,
    {
        match self {
            Element::Attribute(attribute) => Element::Attribute(attribute.clone()),
            Element::Comment => Element::Comment,
            Element::Paragraph => Element::Paragraph,
            Element::Title { level } => Element::Title { level: *level },
            Element::Table => Element::Table,
            Element::List(kind) => Element::List(*kind),
            Element::Image => Element::Image,
            Element::Anchor => Element::Anchor,
            Element::TypedBlock { kind } => Element::TypedBlock { kind: *kind },
            Element::ExternalContent => Element::ExternalContent,
            Element::IncludeElement(included) => Element::IncludeElement(
                IncludeElement { inner: included.inner.clone() },
            ),
            Element::Styled => Element::Styled,
            Element::Text => Element::Text,
            Element::XRef => Element::XRef,
            Element::Link => Element::Link,
            Element::ListItem(level) => Element::ListItem(*level),
            Element::TableRow => Element::TableRow,
            Element::TableCell => Element::TableCell,
            Element::Error(message) => Element::Error(message.clone()),
        }
    }
}

impl Clone for ElementSpan {
    fn clone(&self) -> (r: Self)
        ensures
            r@ == self@,
        decreases self,
    {
        let children = clone_spans(&self.children);
        let r = ElementSpan {
            source: match &self.source {
                Some(source) => Some(source.clone()),
                None => None,
            },
            content: self.content.clone(),
            start: self.start,
            end: self.end,
            start_line: self.start_line,
            start_col: self.start_col,
            end_line: self.end_line,
            end_col: self.end_col,
            element: self.element.clone(),
            children,
            positional_attributes: clone_values(&self.positional_attributes),
            attributes: clone_attributes(&self.attributes),
        };
        assert(r@.children =~= spans_view(children@));
        assert(self@.children =~= spans_view(self.children@));
        r
    }
}

impl Clone for IncludeElement {
    fn clone(&self) -> (r: Self)
        ensures
            r.inner@ == self.inner@,
        decreases self,
    {
        IncludeElement { inner: self.inner.clone() }
    }
}

impl AST {
    /// The text of the first attribute of the document that is named `name`.
    pub fn get_attribute(&self, name: &str) -> (r: Option<&str>)
        ensures
            match r {
                Some(text) => attribute_of(self@.attributes, name@) == Some(text@),
                None => attribute_of(self@.attributes, name@).is_none(),
            },
    {
        find_attribute(&self.attributes, name)
    }

    /// The elements of the document, read off the executable value.
    pub proof fn lemma_elements(&self)
        ensures
            self@.elements == spans_view(self.elements@),
    {
        assert(self@.elements =~= spans_view(self.elements@));
    }
}

impl ElementSpan {
    /// The text of the first attribute of the node that is named `name`.
    pub fn get_attribute(&self, name: &str) -> (r: Option<&str>)
        ensures
            match r {
                Some(text) => attribute_of(self@.attributes, name@) == Some(text@),
                None => attribute_of(self@.attributes, name@).is_none(),
            },
    {
        find_attribute(&self.attributes, name)
    }

    /// The children of the node, read off the executable value.
    pub proof fn lemma_children(&self)
        ensures
            self@.children == spans_view(self.children@),
    {
        assert(self@.children =~= spans_view(self.children@));
    }
}

} // verus!
