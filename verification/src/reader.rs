//! Readers: from text to a document tree.

pub mod ascii_art;
pub mod asciidoc;
pub mod markdown;

use crate::ast::{NamedSpec, ValueSpec, AST};
use crate::options::Opts;
use crate::util::{AsciidoctrineError, Environment};
use vstd::prelude::*;

verus! {

/// Readers turn a text into a document tree. What a reader makes of a
/// text, and of the environment, is for each reader to say.
pub trait Reader {
    fn parse<E: Environment>(&self, input: &str, args: &Opts, env: &mut E) -> (r: Result<
        AST,
        AsciidoctrineError,
    >);
}

/// The attributes of a document read with these options: its source,
/// where the options name one.
pub open spec fn document_attributes(args: Opts) -> Seq<NamedSpec> {
    match args.input {
        Some(path) => seq![NamedSpec { key: "source"@, value: ValueSpec::String(path@) }],
        None => seq![],
    }
}

} // verus!
