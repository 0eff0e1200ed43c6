//! Writers: from a document tree to text.

pub mod asciidoc;
pub mod html;

use crate::ast::AST;
use crate::options::Opts;
use crate::util::AsciidoctrineError;
use vstd::prelude::*;

verus! {

/// Writers turn a document tree into the text of a document.
pub trait Writer {
    fn write(&mut self, ast: &AST, args: &Opts) -> (r: Result<String, AsciidoctrineError>);
}

impl Writer for asciidoc::AsciidocWriter {
    fn write(&mut self, ast: &AST, args: &Opts) -> (r: Result<String, AsciidoctrineError>)
        ensures
            r matches Ok(text) && text@ == asciidoc::document_text(ast@.attributes, ast@.elements),
    {
        Ok(self.document(ast, args))
    }
}

impl Writer for html::HtmlWriter {
    fn write(&mut self, ast: &AST, _args: &Opts) -> (r: Result<String, AsciidoctrineError>)
        ensures
            match r {
                Ok(text) => html::body_html(ast@.elements) == Some(text@),
                Err(e) => e == AsciidoctrineError::MalformedAst && html::body_html(
                    ast@.elements,
                ).is_none(),
            },
    {
        html::HtmlWriter::body(ast)
    }
}

} // verus!
