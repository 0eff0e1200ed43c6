//! A literate-programming snippet weaver.
//!
//! Named code fragments are harvested from a document tree ([`harvest`],
//! [`lisi`]) into a snippet store ([`snippets`]). A fragment refers to
//! others by `<<name>>` ([`grammar`], [`codeblock_parser`]); weaving
//! replaces each reference by what it resolves to under the parameters of
//! the referring site ([`weave`], [`substitution`]). The weaver handles the
//! fragments in an order in which nothing comes before what it refers to
//! ([`planner`]) and hands each woven fragment to its sinks ([`dispatch`]):
//! a file, an interpreter ([`util`]) or a script on the store ([`script`]).
//! What holds of all this whatever the document is stated in [`laws`].
//!
//! Around the weaver stand the document tree itself ([`ast`]), readers
//! ([`reader`]) and writers ([`writer`]) for it, and the options of a run
//! ([`options`]). Beside them stands a reader of diagrams that are drawn
//! with characters ([`reader::ascii_art`]), with the tree of a diagram
//! ([`diagram`]).

pub mod ast;
pub mod codeblock_parser;
pub mod diagram;
pub mod dispatch;
pub mod extract_toc;
pub mod grammar;
pub mod harvest;
pub mod laws;
pub mod lisi;
pub mod options;
pub mod planner;
pub mod reader;
pub mod script;
pub mod snippets;
pub mod substitution;
pub mod text;
pub mod util;
pub mod weave;
pub mod writer;
