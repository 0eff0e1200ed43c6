//! What harvesting means: the contributions that a document tree makes to
//! the snippet store.

use crate::ast::{attribute_of, BlockType, DocumentSpec, ElementSpec, NamedSpec, SpanSpec};
use crate::grammar::{dependencies_of, parse_spec};
use crate::snippets::{KindSpec, SnippetSpec};
use vstd::prelude::*;

verus! {

/// Why a tree cannot be harvested.
#[derive(Debug, PartialEq, Eq)]
pub enum HarvestError {
    /// A block is to be saved and names no path, or is to be run and names
    /// no interpreter.
    Missing,
}

/// The decimal digits of `n`.
pub open spec fn decimal(n: nat) -> Seq<char>
    decreases n,
{
    if n < 10 {
        seq![digit(n)]
    } else {
        decimal(n / 10).push(digit(n % 10))
    }
}

/// The digit for a number below ten.
pub open spec fn digit(n: nat) -> char {
    if n == 0 {
        '0'
    } else if n == 1 {
        '1'
    } else if n == 2 {
        '2'
    } else if n == 3 {
        '3'
    } else if n == 4 {
        '4'
    } else if n == 5 {
        '5'
    } else if n == 6 {
        '6'
    } else if n == 7 {
        '7'
    } else if n == 8 {
        '8'
    } else {
        '9'
    }
}

/// The identifier of a block without an anchor: `_id_`, where the block
/// starts, `_`, where it ends.
pub open spec fn synthesized_id(start: nat, end: nat) -> Seq<char> {
    seq!['_', 'i', 'd', '_'] + decimal(start) + seq!['_'] + decimal(end)
}

pub open spec fn word_source() -> Seq<char> {
    seq!['s', 'o', 'u', 'r', 'c', 'e']
}

pub open spec fn word_save() -> Seq<char> {
    seq!['s', 'a', 'v', 'e']
}

pub open spec fn word_eval() -> Seq<char> {
    seq!['e', 'v', 'a', 'l']
}

pub open spec fn word_pipe() -> Seq<char> {
    seq!['p', 'i', 'p', 'e']
}

pub open spec fn word_raw() -> Seq<char> {
    seq!['l', 'i', 's', 'i', '-', 'r', 'a', 'w']
}

pub open spec fn word_title() -> Seq<char> {
    seq!['t', 'i', 't', 'l', 'e']
}

pub open spec fn word_path() -> Seq<char> {
    seq!['p', 'a', 't', 'h']
}

pub open spec fn word_anchor() -> Seq<char> {
    seq!['a', 'n', 'c', 'h', 'o', 'r']
}

pub open spec fn word_interpreter() -> Seq<char> {
    seq!['i', 'n', 't', 'e', 'r', 'p', 'r', 'e', 't', 'e', 'r']
}

pub open spec fn word_content() -> Seq<char> {
    seq!['c', 'o', 'n', 't', 'e', 'n', 't']
}

/// The first of two optional values that is there.
pub open spec fn or_else(a: Option<Seq<char>>, b: Option<Seq<char>>) -> Option<Seq<char>> {
    match a {
        Some(_) => a,
        None => b,
    }
}

/// The identifier under which a node contributes: its anchor, or the
/// synthesized identifier.
pub open spec fn id_of(span: SpanSpec) -> Seq<char> {
    match attribute_of(span.attributes, word_anchor()) {
        Some(anchor) => anchor,
        None => synthesized_id(span.start as nat, span.end as nat),
    }
}

/// The text that a node contributes: its `content` attribute, or its own
/// text.
pub open spec fn content_of(span: SpanSpec) -> Seq<char> {
    match attribute_of(span.attributes, word_content()) {
        Some(content) => content,
        None => span.content,
    }
}

/// The path a block is saved to: its `path` attribute, or its title.
pub open spec fn path_of(span: SpanSpec) -> Option<Seq<char>> {
    or_else(
        attribute_of(span.attributes, word_path()),
        attribute_of(span.attributes, word_title()),
    )
}

/// The interpreter a block is run with: its `interpreter` attribute, or the
/// language named behind `source`.
pub open spec fn interpreter_of(span: SpanSpec) -> Option<Seq<char>> {
    or_else(
        attribute_of(span.attributes, word_interpreter()),
        if span.positional_attributes.len() > 1 {
            Some(span.positional_attributes[1].text())
        } else {
            None
        },
    )
}

/// The sink and the rawness that the positional attributes from index `i`
/// on ask for, starting from `kind` and `raw`. A later `save`, `eval` or
/// `pipe` replaces an earlier one.
pub open spec fn kind_from(
    span: SpanSpec,
    i: int,
    kind: KindSpec,
    raw: bool,
) -> Result<(KindSpec, bool), HarvestError>
    decreases span.positional_attributes.len() - i,
{
    if 0 <= i < span.positional_attributes.len() {
        let word = span.positional_attributes[i].text();
        if word == word_save() {
            match path_of(span) {
                Some(path) => kind_from(span, i + 1, KindSpec::Save(path), raw),
                None => Err(HarvestError::Missing),
            }
        } else if word == word_eval() {
            match interpreter_of(span) {
                Some(interpreter) => kind_from(span, i + 1, KindSpec::Eval(interpreter), raw),
                None => Err(HarvestError::Missing),
            }
        } else if word == word_pipe() {
            kind_from(span, i + 1, KindSpec::Pipe, raw)
        } else if word == word_raw() {
            kind_from(span, i + 1, kind, true)
        } else {
            kind_from(span, i + 1, kind, raw)
        }
    } else {
        Ok((kind, raw))
    }
}

/// The named attributes of a node as a snippet keeps them: each key once,
/// in the order of its first occurrence, with the value of that
/// occurrence.
pub open spec fn kept_attributes(attributes: Seq<NamedSpec>) -> Seq<(Seq<char>, Seq<char>)>
    decreases attributes.len(),
{
    if attributes.len() == 0 {
        seq![]
    } else {
        let rest = kept_attributes(attributes.drop_last());
        if attribute_of(attributes.drop_last(), attributes.last().key).is_some() {
            rest
        } else {
            rest.push((attributes.last().key, attributes.last().value.text()))
        }
    }
}

/// Whether a node is a listing block marked `source`.
pub open spec fn is_source_block(span: SpanSpec) -> bool {
    span.element == (ElementSpec::TypedBlock { kind: BlockType::Listing })
        && span.positional_attributes.len() > 0 && span.positional_attributes[0].text()
        == word_source()
}

/// The contribution that a listing block marked `source` makes.
pub open spec fn block_snippet(span: SpanSpec) -> Result<SnippetSpec, HarvestError> {
    match kind_from(span, 2, KindSpec::Plain, false) {
        Ok((kind, raw)) => Ok(
            SnippetSpec {
                kind,
                content: content_of(span),
                raw_content: content_of(span),
                children: seq![],
                depends_on: dependencies_of(parse_spec(content_of(span))),
                attributes: kept_attributes(span.attributes),
                raw,
            },
        ),
        Err(e) => Err(e),
    }
}

/// The contribution that a styled inline span with an anchor makes.
pub open spec fn inline_snippet(span: SpanSpec) -> SnippetSpec {
    SnippetSpec {
        kind: KindSpec::Plain,
        content: content_of(span),
        raw_content: content_of(span),
        children: seq![],
        depends_on: seq![],
        attributes: kept_attributes(span.attributes),
        raw: false,
    }
}

/// The store after one more contribution under `name`.
pub open spec fn stored(
    store: Map<Seq<char>, SnippetSpec>,
    name: Seq<char>,
    snippet: SnippetSpec,
) -> Map<Seq<char>, SnippetSpec> {
    store.insert(
        name,
        if store.contains_key(name) {
            store[name].appended(snippet)
        } else {
            snippet
        },
    )
}

/// The store after the node and what is below it have contributed.
pub open spec fn harvest(span: SpanSpec, store: Map<Seq<char>, SnippetSpec>) -> Result<
    Map<Seq<char>, SnippetSpec>,
    HarvestError,
>
    decreases span, 0nat,
{
    match span.element {
        ElementSpec::TypedBlock { kind: BlockType::Listing } => if is_source_block(span) {
            match block_snippet(span) {
                Ok(snippet) => Ok(stored(store, id_of(span), snippet)),
                Err(e) => Err(e),
            }
        } else {
            Ok(store)
        },
        ElementSpec::Styled => match attribute_of(span.attributes, word_anchor()) {
            Some(anchor) => Ok(stored(store, anchor, inline_snippet(span))),
            None => Ok(store),
        },
        ElementSpec::IncludeElement(document) => harvest_all(document.elements, 0, store),
        _ => harvest_all(span.children, 0, store),
    }
}

/// The store after the nodes from index `i` on have contributed, in their
/// order. The first node that cannot be harvested ends it.
pub open spec fn harvest_all(
    spans: Seq<SpanSpec>,
    i: int,
    store: Map<Seq<char>, SnippetSpec>,
) -> Result<Map<Seq<char>, SnippetSpec>, HarvestError>
    decreases spans, spans.len() - i,
{
    if 0 <= i < spans.len() {
        match harvest(spans[i], store) {
            Ok(next) => harvest_all(spans, i + 1, next),
            Err(e) => Err(e),
        }
    } else {
        Ok(store)
    }
}

/// The store that a document fills.
pub open spec fn harvest_document(document: DocumentSpec) -> Result<
    Map<Seq<char>, SnippetSpec>,
    HarvestError,
> {
    harvest_all(document.elements, 0, Map::empty())
}

} // verus!
