//! From a woven fragment to its sinks: how a snippet is woven in the store,
//! and what is then to be done with it.

use crate::snippets::{KindSpec, Snippet, SnippetDB, SnippetSpec, SnippetType};
use crate::substitution::{warnings_view, weave_body, Warning};
use crate::text::{from_chars, join, lines, rows, split_lines, to_chars, trim_end, trim_end_index};
use crate::weave::{weave, WarningSpec};
use vstd::prelude::*;

verus! {

/// What is to be done with a woven fragment.
#[derive(Debug, PartialEq, Eq)]
pub enum Action {
    /// Write `content` to the file at `path`.
    Save { path: String, content: String },
    /// Send `content` to `interpreter`.
    Eval { interpreter: String, content: String },
    /// Run `content` as a script on the snippet store.
    Pipe { content: String },
}

/// The mathematical value of an [`Action`].
pub enum ActionSpec {
    Save { path: Seq<char>, content: Seq<char> },
    Eval { interpreter: Seq<char>, content: Seq<char> },
    Pipe { content: Seq<char> },
}

impl View for Action {
    type V = ActionSpec;

    open spec fn view(&self) -> ActionSpec {
        match self {
            Action::Save { path, content } => ActionSpec::Save { path: path@, content: content@ },
            Action::Eval { interpreter, content } => ActionSpec::Eval {
                interpreter: interpreter@,
                content: content@,
            },
            Action::Pipe { content } => ActionSpec::Pipe { content: content@ },
        }
    }
}

/// The mathematical values of a sequence of actions.
pub open spec fn actions_view(s: Seq<Action>) -> Seq<ActionSpec> {
    Seq::new(s.len(), |i: int| s[i]@)
}

/// Each of the lines without its trailing white space and with a line feed
/// behind it.
pub open spec fn save_lines(rows: Seq<Seq<char>>) -> Seq<char>
    decreases rows.len(),
{
    if rows.len() == 0 {
        seq![]
    } else {
        save_lines(rows.drop_last()) + trim_end(rows.last()) + seq!['\n']
    }
}

/// The text as it is written to a file: every line without its trailing
/// white space, every line ended by a line feed.
pub open spec fn save_text(content: Seq<char>) -> Seq<char> {
    save_lines(lines(content))
}

/// The text as it is written to a file.
pub fn normalize(content: &str) -> (r: String)
    ensures
        r@ == save_text(content@),
{
    let v = to_chars(content);
    let all = split_lines(&v);
    let mut out: Vec<char> = Vec::new();
    let mut i: usize = 0;
    assert(rows(all@).take(0) =~= seq![]);
    while i < all.len()
        invariant
            i <= all.len(),
            out@ == save_lines(rows(all@).take(i as int)),
        decreases all.len() - i,
    {
        assert(rows(all@).take(i as int + 1).drop_last() =~= rows(all@).take(i as int));
        assert(rows(all@).take(i as int + 1).last() == all@[i as int]@);
        let line = &all[i];
        let e = trim_end_index(line, 0, line.len());
        assert(line@.subrange(0, line.len() as int) =~= line@);
        let mut k: usize = 0;
        let ghost before = out@;
        while k < e
            invariant
                k <= e <= line.len(),
                out@ == before + line@.take(k as int),
            decreases e - k,
        {
            out.push(line[k]);
            assert(line@.take(k as int + 1) =~= line@.take(k as int).push(line@[k as int]));
            k += 1;
        }
        out.push('\n');
        assert(out@ =~= before + trim_end(line@) + seq!['\n']);
        i += 1;
    }
    assert(rows(all@).take(i as int) =~= rows(all@));
    from_chars(&out)
}

/// A line feed: what stands between the contributions of a fragment that
/// is handed to its sink.
pub open spec fn line_feed() -> Seq<char> {
    seq!['\n']
}

/// What a sink of this kind is to do with the text; nothing for an inert
/// fragment.
pub open spec fn action_for(kind: KindSpec, text: Seq<char>) -> Option<ActionSpec> {
    match kind {
        KindSpec::Save(path) => Some(ActionSpec::Save { path, content: save_text(text) }),
        KindSpec::Eval(interpreter) => Some(ActionSpec::Eval { interpreter, content: text }),
        KindSpec::Pipe => Some(ActionSpec::Pipe { content: text }),
        KindSpec::Plain => None,
    }
}

/// What the contributions from index `i` on ask for, each for its own
/// text.
pub open spec fn later_actions(children: Seq<SnippetSpec>, i: int) -> Seq<ActionSpec>
    decreases children.len() - i,
{
    if 0 <= i < children.len() {
        let rest = later_actions(children, i + 1);
        match action_for(children[i].kind, children[i].content) {
            Some(action) => seq![action] + rest,
            None => rest,
        }
    } else {
        seq![]
    }
}

/// What is to be done with a woven snippet. The sink of the first
/// contribution gets the texts of all contributions, joined by line feeds;
/// a sink named on a later contribution gets the text of that
/// contribution.
pub open spec fn actions_of(snippet: SnippetSpec) -> Seq<ActionSpec> {
    let first = match action_for(snippet.kind, join(snippet.parts(), line_feed())) {
        Some(action) => seq![action],
        None => seq![],
    };
    first + later_actions(snippet.children, 1)
}

fn act(kind: &SnippetType, text: &str) -> (r: Option<Action>)
    ensures
        match r {
            Some(action) => action_for(kind@, text@) == Some(action@),
            None => action_for(kind@, text@).is_none(),
        },
{
    match kind {
        SnippetType::Save(path) => Some(
            Action::Save { path: path.clone(), content: normalize(text) },
        ),
        SnippetType::Eval(interpreter) => Some(
            Action::Eval { interpreter: interpreter.clone(), content: String::from_str(text) },
        ),
        SnippetType::Pipe => Some(Action::Pipe { content: String::from_str(text) }),
        SnippetType::Plain => None,
    }
}

/// What is to be done with a woven snippet.
pub fn actions(snippet: &Snippet) -> (r: Vec<Action>)
    ensures
        actions_view(r@) == actions_of(snippet@),
{
    proof {
        snippet.lemma_parts();
        reveal_strlit("\n");
        assert("\n"@ =~= line_feed());
    }
    let mut later: Vec<Action> = Vec::new();
    let mut i: usize = snippet.children.len();
    assert(actions_view(later@) =~= later_actions(snippet@.children, i as int));
    while i > 1
        invariant
            i <= snippet.children.len(),
            i >= 1 || snippet.children@.len() == 0,
            snippet@.children.len() == snippet.children@.len(),
            forall|k: int|
                0 <= k < snippet.children@.len() ==> snippet@.children[k]
                    == snippet.children@[k]@,
            actions_view(later@) == later_actions(snippet@.children, i as int),
        decreases i,
    {
        i -= 1;
        let ghost rest = actions_view(later@);
        match act(&snippet.children[i].kind, snippet.children[i].content.as_str()) {
            Some(action) => {
                later.insert(0, action);
                assert(actions_view(later@) =~= seq![action@] + rest);
            },
            None => {},
        }
    }
    let text = snippet.get_content("\n");
    let mut all: Vec<Action> = Vec::new();
    match act(&snippet.kind, text.as_str()) {
        Some(action) => {
            all.push(action);
        },
        None => {},
    }
    let ghost first = actions_view(all@);
    let ghost rest = actions_view(later@);
    all.append(&mut later);
    assert(actions_view(all@) =~= first + rest);
    proof {
        if i != 1 {
            assert(snippet@.children.len() == 0);
            assert(later_actions(snippet@.children, 1) =~= seq![]);
            assert(later_actions(snippet@.children, 0) =~= seq![]);
        }
    }
    assert(later_actions(snippet@.children, 1) == rest);
    assert(first =~= match action_for(snippet@.kind, join(snippet@.parts(), line_feed())) {
        Some(action) => seq![action],
        None => seq![],
    });
    all
}

/// The contributions from index `i` on with their texts woven in the
/// store.
pub open spec fn woven_children(
    children: Seq<SnippetSpec>,
    store: Map<Seq<char>, SnippetSpec>,
) -> Seq<SnippetSpec> {
    Seq::new(
        children.len(),
        |i: int|
            SnippetSpec { content: weave(children[i].content, store).text, ..children[i] },
    )
}

/// The snippet with its text woven in the store: each contribution where
/// there are several, the snippet's own text where there is one. A raw
/// snippet stays as it is.
pub open spec fn woven_snippet(snippet: SnippetSpec, store: Map<Seq<char>, SnippetSpec>) -> SnippetSpec {
    if snippet.raw {
        snippet
    } else if snippet.children.len() > 0 {
        SnippetSpec { children: woven_children(snippet.children, store), ..snippet }
    } else {
        SnippetSpec { content: weave(snippet.content, store).text, ..snippet }
    }
}

/// The warnings of weaving the contributions up to index `n`, in their
/// order.
pub open spec fn children_warnings(
    children: Seq<SnippetSpec>,
    store: Map<Seq<char>, SnippetSpec>,
    n: int,
) -> Seq<WarningSpec>
    decreases n,
{
    if n <= 0 || n > children.len() {
        seq![]
    } else {
        children_warnings(children, store, n - 1) + weave(children[n - 1].content, store).warnings
    }
}

/// The warnings of weaving a snippet.
pub open spec fn snippet_warnings(snippet: SnippetSpec, store: Map<Seq<char>, SnippetSpec>) -> Seq<
    WarningSpec,
> {
    if snippet.raw {
        seq![]
    } else if snippet.children.len() > 0 {
        children_warnings(snippet.children, store, snippet.children.len() as int)
    } else {
        weave(snippet.content, store).warnings
    }
}

/// Weaves the text of a snippet in the store.
pub fn weave_snippet(snippet: Snippet, snippets: &SnippetDB) -> (r: (Snippet, Vec<Warning>))
    requires
        snippets.wf(),
    ensures
        r.0@ == woven_snippet(snippet@, snippets@),
        warnings_view(r.1@) == snippet_warnings(snippet@, snippets@),
{
    proof {
        snippet.lemma_parts();
    }
    let ghost spec_snippet = snippet@;
    let mut snippet = snippet;
    let mut warnings: Vec<Warning> = Vec::new();
    assert(warnings_view(warnings@) =~= Seq::<WarningSpec>::empty());
    if snippet.raw {
        return (snippet, warnings);
    }
    if snippet.children.len() > 0 {
        let ghost old_children = spec_snippet.children;
        let mut children: Vec<Snippet> = Vec::new();
        let mut rest: Vec<Snippet> = Vec::new();
        core::mem::swap(&mut rest, &mut snippet.children);
        let n = rest.len();
        let mut i: usize = 0;
        while i < n
            invariant
                i <= n,
                n == old_children.len(),
                rest@.len() == n - i,
                snippets.wf(),
                forall|k: int| 0 <= k < rest@.len() ==> rest@[k]@ == old_children[i + k],
                children@.len() == i,
                forall|k: int|
                    0 <= k < i ==> children@[k]@ == woven_children(
                        old_children,
                        snippets@,
                    )[k],
                warnings_view(warnings@) == children_warnings(old_children, snippets@, i as int),
            decreases n - i,
        {
            let mut child = rest.remove(0);
            let ghost before = warnings_view(warnings@);
            let (text, mut more) = weave_body(child.content.as_str(), snippets);
            let ghost added = warnings_view(more@);
            child.content = text;
            children.push(child);
            warnings.append(&mut more);
            assert(warnings_view(warnings@) =~= before + added);
            i += 1;
        }
        snippet.children = children;
        assert(snippet@.children =~= woven_children(old_children, snippets@));
        (snippet, warnings)
    } else {
        let (text, more) = weave_body(snippet.content.as_str(), snippets);
        snippet.content = text;
        assert(snippet@.children =~= spec_snippet.children);
        (snippet, more)
    }
}

} // verus!
