//! The options of a run, as the program hands them to readers and writers.

use vstd::prelude::*;

verus! {

/// The formats that can be read.
#[derive(Copy, Clone, PartialEq, Eq, PartialOrd, Ord, Debug)]
pub enum Reader {
    Asciidoc,
    Markdown,
    Json,
}

/// The formats that can be written.
#[derive(Copy, Clone, PartialEq, Eq, PartialOrd, Ord, Debug)]
pub enum Writer {
    Html5,
    Docbook,
    Pdf,
    Json,
    /// The document as text again, for tools further down the line.
    Asciidoc,
}

/// What the command line asked for.
#[derive(Debug)]
pub struct Opts {
    pub readerfmt: Reader,
    pub writerfmt: Writer,
    pub extensions: Vec<String>,
    pub template: Option<String>,
    pub stylesheet: Option<String>,
    pub defines: Vec<(String, String)>,
    /// The path of the document; `None` where it comes from the standard
    /// input.
    pub input: Option<String>,
    pub output: Option<String>,
}

impl Opts {
    /// The options of a command line without arguments.
    pub fn new() -> (opts: Opts)
        ensures
            opts.readerfmt == Reader::Asciidoc,
            opts.writerfmt == Writer::Html5,
            opts.extensions@.len() == 0,
            opts.template.is_none(),
            opts.stylesheet.is_none(),
            opts.defines@.len() == 0,
            opts.input.is_none(),
            opts.output.is_none(),
    {
        Opts {
            readerfmt: Reader::Asciidoc,
            writerfmt: Writer::Html5,
            extensions: Vec::new(),
            template: None,
            stylesheet: None,
            defines: Vec::new(),
            input: None,
            output: None,
        }
    }
}

/// A `KEY=value` pair split at its first `=`; `None` where there is no
/// `=`.
pub open spec fn key_val(s: Seq<char>) -> Option<(Seq<char>, Seq<char>)> {
    let pos = crate::grammar::find_char(s, 0, '=');
    if 0 <= pos < s.len() {
        Some((s.subrange(0, pos), s.subrange(pos + 1, s.len() as int)))
    } else {
        None
    }
}

/// Splits a `KEY=value` pair at its first `=`.
pub fn parse_key_val(s: &str) -> (r: Option<(String, String)>)
    ensures
        match r {
            Some((key, value)) => key_val(s@) == Some((key@, value@)),
            None => key_val(s@).is_none(),
        },
{
    let v = crate::text::to_chars(s);
    let mut pos: usize = 0;
    while pos < v.len() && v[pos] != '='
        invariant
            pos <= v.len(),
            crate::grammar::find_char(v@, 0, '=') == crate::grammar::find_char(v@, pos as int, '='),
        decreases v.len() - pos,
    {
        pos += 1;
    }
    if pos < v.len() {
        Some(
            (
                crate::codeblock_parser::slice_string(&v, 0, pos),
                crate::codeblock_parser::slice_string(&v, pos + 1, v.len()),
            ),
        )
    } else {
        None
    }
}

} // verus!
