//! The table of contents of a document.

use crate::ast::{named_view, spans_view, ElementSpec, Element, SpanSpec, AST};
use vstd::prelude::*;

verus! {

/// Whether a node is a title of at most the given level.
pub open spec fn is_heading(span: SpanSpec, level: u32) -> bool {
    match span.element {
        ElementSpec::Title { level: l } => l <= level,
        _ => false,
    }
}

/// The titles of at most the given level among the first `n` nodes, in
/// their order.
pub open spec fn headings(spans: Seq<SpanSpec>, level: u32, n: int) -> Seq<SpanSpec>
    decreases n,
{
    if n <= 0 || n > spans.len() {
        seq![]
    } else if is_heading(spans[n - 1], level) {
        headings(spans, level, n - 1).push(spans[n - 1])
    } else {
        headings(spans, level, n - 1)
    }
}

/// A document that holds the top-level titles of `input` down to the
/// given level, and nothing else.
pub fn extract_table_of_contents(input: &AST, level: u32) -> (toc: AST)
    ensures
        toc@.content == Seq::<char>::empty(),
        toc@.attributes == Seq::<crate::ast::NamedSpec>::empty(),
        toc@.elements == headings(input@.elements, level, input@.elements.len() as int),
{
    proof {
        input.lemma_elements();
    }
    let ghost all = spans_view(input.elements@);
    let mut elements: Vec<crate::ast::ElementSpan> = Vec::new();
    let mut i: usize = 0;
    assert(spans_view(elements@) =~= headings(all, level, 0));
    while i < input.elements.len()
        invariant
            i <= input.elements.len(),
            all == spans_view(input.elements@),
            spans_view(elements@) == headings(all, level, i as int),
        decreases input.elements.len() - i,
    {
        let ghost before = spans_view(elements@);
        let element = &input.elements[i];
        assert(all[i as int] == element@);
        assert(element@.element == element.element@);
        let keep = match &element.element {
            Element::Title { level: l } => *l <= level,
            _ => false,
        };
        if keep {
            elements.push(element.clone());
            assert(spans_view(elements@) =~= before.push(element@));
        }
        i += 1;
    }
    let toc = AST { content: String::new(), elements, attributes: Vec::new() };
    proof {
        toc.lemma_elements();
        assert(named_view(toc.attributes@) =~= Seq::<crate::ast::NamedSpec>::empty());
    }
    toc
}

} // verus!
