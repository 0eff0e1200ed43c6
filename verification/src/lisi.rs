//! The weaver: it harvests the fragments of a document, plans the order in
//! which they are woven, weaves them and hands each to its sink.

use crate::ast::{
    attribute_of, named_view, spans_view, Attribute, BlockType, Element, ElementSpan, AST,
};
use crate::codeblock_parser::get_dependencies;
use crate::harvest::{
    block_snippet, content_of, decimal, digit, harvest, harvest_all, harvest_document, id_of,
    inline_snippet, interpreter_of, is_source_block, kept_attributes, kind_from, path_of,
    synthesized_id, word_anchor, word_content, word_eval, word_interpreter, word_path, word_pipe,
    word_raw, word_save, word_source, word_title, HarvestError,
};
use crate::dispatch::{
    actions, actions_of, actions_view, normalize, save_text, snippet_warnings, weave_snippet, woven_snippet,
    Action, ActionSpec,
};
use crate::planner::{
    all_blocked, blocked, count, empty_plan, planner_add_dependency, planner_insert, planner_is_empty,
    planner_new, planner_pop, waiting, with_dependency, with_element,
};
use crate::script::{run_script, script_engine, scripted, LisiWrapper, MAX_OPERATIONS};
use crate::snippets::{
    pairs_view, same_text, KindSpec, Snippet, SnippetDB, SnippetSpec, SnippetType,
};
use crate::substitution::{warnings_view, Warning};
use crate::text::{push_char, views};
use crate::util::{AsciidoctrineError, Cache, Environment, Files};
use topological_sort::TopologicalSort;
use vstd::prelude::*;

verus! {

/// Why the weaver gives up.
#[derive(Debug, PartialEq, Eq)]
pub enum Error {
    /// A necessary attribute is missing: a block is to be saved and names
    /// no path, or is to be run and names no interpreter.
    Missing,
    /// The environment failed.
    Asciidoctrine(AsciidoctrineError),
}

fn digit_char(n: usize) -> (c: char)
    requires
        n < 10,
    ensures
        c == digit(n as nat),
{
    if n == 0 {
        '0'
    } else if n == 1 {
        '1'
    } else if n == 2 {
        '2'
    } else if n == 3 {
        '3'
    } else if n == 4 {
        '4'
    } else if n == 5 {
        '5'
    } else if n == 6 {
        '6'
    } else if n == 7 {
        '7'
    } else if n == 8 {
        '8'
    } else {
        '9'
    }
}

/// Appends the decimal digits of `n` to `out`.
pub fn push_decimal(out: &mut String, n: usize)
    ensures
        final(out)@ == old(out)@ + decimal(n as nat),
    decreases n,
{
    if n < 10 {
        push_char(out, digit_char(n));
        assert(out@ =~= old(out)@ + decimal(n as nat));
    } else {
        push_decimal(out, n / 10);
        push_char(out, digit_char(n % 10));
        assert(out@ =~= old(out)@ + decimal(n as nat));
    }
}

/// The identifier of a block that starts at `start` and ends at `end` and
/// has no anchor.
pub fn synthesize_id(start: usize, end: usize) -> (id: String)
    ensures
        id@ == synthesized_id(start as nat, end as nat),
{
    let mut id = String::new();
    push_char(&mut id, '_');
    push_char(&mut id, 'i');
    push_char(&mut id, 'd');
    push_char(&mut id, '_');
    push_decimal(&mut id, start);
    push_char(&mut id, '_');
    push_decimal(&mut id, end);
    assert(id@ =~= synthesized_id(start as nat, end as nat));
    id
}

fn attribute(span: &ElementSpan, name: &str) -> (r: Option<String>)
    ensures
        match r {
            Some(text) => attribute_of(span@.attributes, name@) == Some(text@),
            None => attribute_of(span@.attributes, name@).is_none(),
        },
{
    match span.get_attribute(name) {
        Some(text) => Some(String::from_str(text)),
        None => None,
    }
}

fn node_id(span: &ElementSpan) -> (id: String)
    ensures
        id@ == id_of(span@),
{
    proof {
        reveal_strlit("anchor");
        assert("anchor"@ =~= word_anchor());
    }
    match attribute(span, "anchor") {
        Some(anchor) => anchor,
        None => synthesize_id(span.start, span.end),
    }
}

fn node_content(span: &ElementSpan) -> (content: String)
    ensures
        content@ == content_of(span@),
{
    proof {
        reveal_strlit("content");
        assert("content"@ =~= word_content());
    }
    match attribute(span, "content") {
        Some(content) => content,
        None => span.content.clone(),
    }
}

fn node_path(span: &ElementSpan) -> (path: Option<String>)
    ensures
        match path {
            Some(text) => path_of(span@) == Some(text@),
            None => path_of(span@).is_none(),
        },
{
    proof {
        reveal_strlit("path");
        assert("path"@ =~= word_path());
        reveal_strlit("title");
        assert("title"@ =~= word_title());
    }
    match attribute(span, "path") {
        Some(path) => Some(path),
        None => attribute(span, "title"),
    }
}

fn node_interpreter(span: &ElementSpan) -> (interpreter: Option<String>)
    ensures
        match interpreter {
            Some(text) => interpreter_of(span@) == Some(text@),
            None => interpreter_of(span@).is_none(),
        },
{
    proof {
        reveal_strlit("interpreter");
        assert("interpreter"@ =~= word_interpreter());
    }
    match attribute(span, "interpreter") {
        Some(interpreter) => Some(interpreter),
        None => if span.positional_attributes.len() > 1 {
            Some(String::from_str(span.positional_attributes[1].as_str()))
        } else {
            None
        },
    }
}

fn node_kind(span: &ElementSpan) -> (r: Result<(SnippetType, bool), Error>)
    ensures
        match r {
            Ok((kind, raw)) => kind_from(span@, 2, crate::snippets::KindSpec::Plain, false) == Ok::<
                (crate::snippets::KindSpec, bool),
                HarvestError,
            >((kind@, raw)),
            Err(e) => e == Error::Missing && kind_from(
                span@,
                2,
                crate::snippets::KindSpec::Plain,
                false,
            ) == Err::<(crate::snippets::KindSpec, bool), HarvestError>(HarvestError::Missing),
        },
{
    proof {
        reveal_strlit("save");
        assert("save"@ =~= word_save());
        reveal_strlit("eval");
        assert("eval"@ =~= word_eval());
        reveal_strlit("pipe");
        assert("pipe"@ =~= word_pipe());
        reveal_strlit("lisi-raw");
        assert("lisi-raw"@ =~= word_raw());
    }
    let mut kind = SnippetType::Plain;
    let mut raw = false;
    let mut i: usize = 2;
    while i < span.positional_attributes.len()
        invariant
            2 <= i,
            "save"@ == word_save(),
            "eval"@ == word_eval(),
            "pipe"@ == word_pipe(),
            "lisi-raw"@ == word_raw(),
            kind_from(span@, 2, crate::snippets::KindSpec::Plain, false) == kind_from(
                span@,
                i as int,
                kind@,
                raw,
            ),
        decreases span.positional_attributes.len() - i,
    {
        assert(span@.positional_attributes[i as int] == span.positional_attributes@[i as int]@);
        let word = span.positional_attributes[i].as_str();
        if same_text(word, "save") {
            match node_path(span) {
                Some(path) => {
                    kind = SnippetType::Save(path);
                },
                None => {
                    return Err(Error::Missing);
                },
            }
        } else if same_text(word, "eval") {
            match node_interpreter(span) {
                Some(interpreter) => {
                    kind = SnippetType::Eval(interpreter);
                },
                None => {
                    return Err(Error::Missing);
                },
            }
        } else if same_text(word, "pipe") {
            kind = SnippetType::Pipe;
        } else if same_text(word, "lisi-raw") {
            raw = true;
        }
        i += 1;
    }
    Ok((kind, raw))
}

fn seen_before(attributes: &Vec<Attribute>, upto: usize, key: &str) -> (r: bool)
    requires
        upto <= attributes.len(),
    ensures
        r == attribute_of(named_view(attributes@).take(upto as int), key@).is_some(),
{
    let ghost all = named_view(attributes@).take(upto as int);
    let mut i: usize = 0;
    assert(all.skip(0) =~= all);
    while i < upto
        invariant
            i <= upto <= attributes.len(),
            all == named_view(attributes@).take(upto as int),
            attribute_of(all, key@) == attribute_of(all.skip(i as int), key@),
        decreases upto - i,
    {
        assert(all.skip(i as int)[0] == attributes@[i as int]@);
        assert(all.skip(i as int).drop_first() =~= all.skip(i as int + 1));
        if same_text(attributes[i].key.as_str(), key) {
            return true;
        }
        i += 1;
    }
    false
}

fn node_attributes(span: &ElementSpan) -> (r: Vec<(String, String)>)
    ensures
        pairs_view(r@) == kept_attributes(span@.attributes),
{
    let ghost all = named_view(span.attributes@);
    let mut r: Vec<(String, String)> = Vec::new();
    let mut i: usize = 0;
    assert(pairs_view(r@) =~= kept_attributes(all.take(0)));
    while i < span.attributes.len()
        invariant
            i <= span.attributes.len(),
            all == named_view(span.attributes@),
            pairs_view(r@) == kept_attributes(all.take(i as int)),
        decreases span.attributes.len() - i,
    {
        let ghost before = pairs_view(r@);
        assert(all.take(i as int + 1).drop_last() =~= all.take(i as int));
        assert(all.take(i as int + 1).last() == span.attributes@[i as int]@);
        if !seen_before(&span.attributes, i, span.attributes[i].key.as_str()) {
            let key = span.attributes[i].key.clone();
            let value = String::from_str(span.attributes[i].value.as_str());
            r.push((key, value));
            assert(pairs_view(r@) =~= before.push(
                (span.attributes@[i as int].key@, span.attributes@[i as int].value@.text()),
            ));
        }
        i += 1;
    }
    assert(all.take(i as int) =~= all);
    r
}

fn is_source(span: &ElementSpan) -> (r: bool)
    ensures
        r == is_source_block(span@),
{
    proof {
        reveal_strlit("source");
        assert("source"@ =~= word_source());
    }
    assert(span@.element == span.element@);
    assert(span@.positional_attributes.len() == span.positional_attributes@.len());
    match &span.element {
        Element::TypedBlock { kind: BlockType::Listing } => {
            if span.positional_attributes.len() > 0 {
                assert(span@.positional_attributes[0] == span.positional_attributes@[0]@);
                same_text(span.positional_attributes[0].as_str(), "source")
            } else {
                false
            }
        },
        _ => false,
    }
}

/// Harvests the node and what is below it into the store.
pub fn extract_element(snippets: SnippetDB, input: &ElementSpan) -> (r: Result<SnippetDB, Error>)
    requires
        snippets.wf(),
    ensures
        match r {
            Ok(db) => db.wf() && harvest(input@, snippets@) == Ok::<
                Map<Seq<char>, crate::snippets::SnippetSpec>,
                HarvestError,
            >(db@),
            Err(e) => e == Error::Missing && harvest(input@, snippets@) == Err::<
                Map<Seq<char>, crate::snippets::SnippetSpec>,
                HarvestError,
            >(HarvestError::Missing),
        },
    decreases input, 0nat,
{
    let mut snippets = snippets;
    assert(input@.element == input.element@);
    match &input.element {
        Element::TypedBlock { kind: BlockType::Listing } => {
            if !is_source(input) {
                return Ok(snippets);
            }
            let (kind, raw) = match node_kind(input) {
                Ok(pair) => pair,
                Err(e) => {
                    return Err(e);
                },
            };
            let content = node_content(input);
            let depends_on = get_dependencies(content.as_str());
            let snippet = Snippet {
                kind,
                content: content.clone(),
                raw_content: content,
                children: Vec::new(),
                depends_on,
                attributes: node_attributes(input),
                raw,
            };
            assert(snippet@.children =~= seq![]);
            assert(snippet@ == block_snippet(input@).unwrap());
            snippets.store(node_id(input), snippet);
            Ok(snippets)
        },
        Element::Styled => {
            proof {
                reveal_strlit("anchor");
                assert("anchor"@ =~= word_anchor());
            }
            match attribute(input, "anchor") {
                Some(anchor) => {
                    let content = node_content(input);
                    let snippet = Snippet {
                        kind: SnippetType::Plain,
                        content: content.clone(),
                        raw_content: content,
                        children: Vec::new(),
                        depends_on: Vec::new(),
                        attributes: node_attributes(input),
                        raw: false,
                    };
                    assert(snippet@.children =~= seq![]);
                    assert(snippet@.depends_on =~= seq![]);
                    assert(snippet@ == inline_snippet(input@));
                    snippets.store(anchor, snippet);
                    Ok(snippets)
                },
                None => Ok(snippets),
            }
        },
        Element::IncludeElement(included) => {
            proof {
                included.inner.lemma_elements();
            }
            extract_all(snippets, &included.inner.elements)
        },
        _ => {
            proof {
                input.lemma_children();
            }
            extract_all(snippets, &input.children)
        },
    }
}

/// Harvests the nodes, in their order, into the store.
pub fn extract_all(snippets: SnippetDB, spans: &Vec<ElementSpan>) -> (r: Result<SnippetDB, Error>)
    requires
        snippets.wf(),
    ensures
        match r {
            Ok(db) => db.wf() && harvest_all(spans_view(spans@), 0, snippets@) == Ok::<
                Map<Seq<char>, crate::snippets::SnippetSpec>,
                HarvestError,
            >(db@),
            Err(e) => e == Error::Missing && harvest_all(spans_view(spans@), 0, snippets@) == Err::<
                Map<Seq<char>, crate::snippets::SnippetSpec>,
                HarvestError,
            >(HarvestError::Missing),
        },
    decreases spans, 1nat,
{
    let mut db = snippets;
    let mut i: usize = 0;
    while i < spans.len()
        invariant
            i <= spans.len(),
            db.wf(),
            harvest_all(spans_view(spans@), 0, snippets@) == harvest_all(
                spans_view(spans@),
                i as int,
                db@,
            ),
        decreases spans.len() - i,
    {
        assert(spans_view(spans@)[i as int] == spans@[i as int]@);
        let ghost current = db@;
        assert(harvest_all(spans_view(spans@), i as int, current) == match harvest(
            spans@[i as int]@,
            current,
        ) {
            Ok(next) => harvest_all(spans_view(spans@), i as int + 1, next),
            Err(e) => Err(e),
        });
        match extract_element(db, &spans[i]) {
            Ok(next) => {
                db = next;
            },
            Err(e) => {
                return Err(e);
            },
        }
        i += 1;
    }
    Ok(db)
}

/// What the weaver has to say of a run without giving up.
#[derive(Debug)]
pub enum Notice {
    /// A reference in the fragment `key` expanded to nothing.
    Weave { key: String, warning: Warning },
    /// A fragment refers to `key`, and the store does not know it.
    MissingSnippet { key: String },
    /// Some fragments depend on each other in a ring; they were left out.
    Cycle,
    /// The interpreter that the fragment `key` was sent to failed; `error`
    /// is what it wrote to its error stream.
    EvalFailed { key: String, error: String },
    /// The script of the fragment `key` ended with an error.
    PipeFailed { key: String },
}

/// What a run of the weaver did.
#[derive(Debug)]
pub struct Report {
    /// The names that were handed out by the planner, in that order.
    pub order: Vec<String>,
    /// What was done with the fragments, in the order in which it was
    /// done.
    pub done: Vec<Action>,
    pub notices: Vec<Notice>,
}

/// Extensions take a document tree and hand one back.
pub trait Extension {
    /// Whether the extension is in a state in which it can be run. An
    /// extension that says nothing else always is.
    open spec fn ready(&self) -> bool {
        true
    }

    /// Runs the extension on the document and hands back the document as
    /// the extension leaves it.
    fn transform(&mut self, input: AST) -> (r: Result<AST, Error>)
        requires
            old(self).ready(),
        ensures
            final(self).ready(),
    ;
}

/// The plan after each of the identifiers from index `i` on was registered
/// as coming before `key`.
pub open spec fn with_dependencies(
    plan: Map<Seq<char>, Set<Seq<char>>>,
    deps: Seq<Seq<char>>,
    key: Seq<char>,
    n: int,
) -> Map<Seq<char>, Set<Seq<char>>>
    decreases n,
{
    if n <= 0 || n > deps.len() {
        plan
    } else {
        with_dependency(with_dependencies(plan, deps, key, n - 1), deps[n - 1], key)
    }
}

/// The plan after the dependencies of the first `n` children were
/// registered.
pub open spec fn with_children(
    plan: Map<Seq<char>, Set<Seq<char>>>,
    children: Seq<SnippetSpec>,
    key: Seq<char>,
    n: int,
) -> Map<Seq<char>, Set<Seq<char>>>
    decreases n,
{
    if n <= 0 || n > children.len() {
        plan
    } else {
        with_dependencies(
            with_children(plan, children, key, n - 1),
            children[n - 1].depends_on,
            key,
            children[n - 1].depends_on.len() as int,
        )
    }
}

/// The plan after a snippet was entered: its name waits, and behind each
/// identifier that it or one of its contributions depends on.
pub open spec fn with_snippet(
    plan: Map<Seq<char>, Set<Seq<char>>>,
    key: Seq<char>,
    snippet: SnippetSpec,
) -> Map<Seq<char>, Set<Seq<char>>> {
    with_dependencies(
        with_children(
            with_element(plan, key),
            snippet.children,
            key,
            snippet.children.len() as int,
        ),
        snippet.depends_on,
        key,
        snippet.depends_on.len() as int,
    )
}

/// The plan after the first `n` of the names were entered with their
/// snippets.
pub open spec fn planned(
    plan: Map<Seq<char>, Set<Seq<char>>>,
    names: Seq<Seq<char>>,
    store: Map<Seq<char>, SnippetSpec>,
    n: int,
) -> Map<Seq<char>, Set<Seq<char>>>
    decreases n,
{
    if n <= 0 || n > names.len() {
        plan
    } else {
        with_snippet(planned(plan, names, store, n - 1), names[n - 1], store[names[n - 1]])
    }
}

/// Whether `succ` is registered as coming after `prec`.
pub open spec fn comes_after(
    plan: Map<Seq<char>, Set<Seq<char>>>,
    prec: Seq<char>,
    succ: Seq<char>,
) -> bool {
    plan.contains_key(prec) && plan[prec].contains(succ)
}

/// Whether the order hands out each name only after every name that the
/// plan has before it.
pub open spec fn respects(plan: Map<Seq<char>, Set<Seq<char>>>, order: Seq<Seq<char>>) -> bool {
    forall|i: int, before: Seq<char>|
        0 <= i < order.len() && #[trigger] comes_after(plan, before, order[i]) ==> exists|j: int|
            0 <= j < i && order[j] == before
}

/// Whether no fragment of the store has a sink: every snippet and every
/// contribution is inert.
pub open spec fn inert(store: Map<Seq<char>, SnippetSpec>) -> bool {
    forall|k: Seq<char>| #[trigger]
        store.contains_key(k) ==> store[k].kind == KindSpec::Plain && forall|i: int|
            0 <= i < store[k].children.len() ==> (#[trigger] store[k].children[i]).kind
                == KindSpec::Plain
}

/// Whether the environment, asked to run the interpreter on the content,
/// may have come to be `after` and have answered with this success and
/// this error stream, whatever it wrote to its output.
pub open spec fn answered<E: Environment>(
    before: E,
    interpreter: Seq<char>,
    content: Seq<char>,
    after: E,
    success: bool,
    error: String,
) -> bool {
    exists|output: String| #[trigger]
        before.evaluated(interpreter, content, &after, Ok((success, output, error)))
}

/// The store after the name `key` was handled: its snippet woven in the
/// store, if the store knows the name.
pub open spec fn handled(store: Map<Seq<char>, SnippetSpec>, key: Seq<char>) -> Map<
    Seq<char>,
    SnippetSpec,
> {
    if store.contains_key(key) {
        store.insert(key, woven_snippet(store[key], store.remove(key)))
    } else {
        store
    }
}

/// What is to be done when the name `key` is handled: what its woven
/// snippet asks for, if the store knows the name.
pub open spec fn asked(store: Map<Seq<char>, SnippetSpec>, key: Seq<char>) -> Seq<ActionSpec> {
    if store.contains_key(key) {
        actions_of(woven_snippet(store[key], store.remove(key)))
    } else {
        seq![]
    }
}

/// The store after the names were handled in this order, where no script
/// changes it on the way.
pub open spec fn store_along(store: Map<Seq<char>, SnippetSpec>, order: Seq<Seq<char>>) -> Map<
    Seq<char>,
    SnippetSpec,
>
    decreases order.len(),
{
    if order.len() == 0 {
        store
    } else {
        handled(store_along(store, order.drop_last()), order.last())
    }
}

/// What is done as the names are handled in this order, where no script
/// changes the store on the way: for each name in turn what its snippet,
/// woven in the store as the names before it left it, asks for.
pub open spec fn done_along(store: Map<Seq<char>, SnippetSpec>, order: Seq<Seq<char>>) -> Seq<
    ActionSpec,
>
    decreases order.len(),
{
    if order.len() == 0 {
        seq![]
    } else {
        done_along(store, order.drop_last()) + asked(
            store_along(store, order.drop_last()),
            order.last(),
        )
    }
}

/// Whether no fragment of the store is a script: no snippet and no
/// contribution is of the kind `Pipe`.
pub open spec fn no_pipe(store: Map<Seq<char>, SnippetSpec>) -> bool {
    forall|k: Seq<char>| #[trigger]
        store.contains_key(k) ==> store[k].kind != KindSpec::Pipe && forall|i: int|
            0 <= i < store[k].children.len() ==> (#[trigger] store[k].children[i]).kind
                != KindSpec::Pipe
}

/// Whether none of the actions runs a script.
pub open spec fn no_script(actions: Seq<ActionSpec>) -> bool {
    forall|i: int| 0 <= i < actions.len() ==> !(#[trigger] actions[i] is Pipe)
}

/// Whether `a` is how `b` begins.
pub open spec fn is_prefix(a: Seq<ActionSpec>, b: Seq<ActionSpec>) -> bool {
    a.len() <= b.len() && a == b.take(a.len() as int)
}

/// Whether no name occurs twice.
pub open spec fn distinct(order: Seq<Seq<char>>) -> bool {
    forall|i: int, j: int| 0 <= i < j < order.len() ==> order[i] != order[j]
}

/// Whether the environment `before`, asked to write the file, may have
/// come to be `after` and have answered with success.
pub open spec fn saved<E: Environment>(
    before: E,
    path: Seq<char>,
    content: Seq<char>,
    after: E,
) -> bool {
    exists|done: ()| #[trigger] before.wrote(path, content, &after, Ok(done))
}

/// Whether the environment `before`, asked to run the interpreter, may
/// have come to be `after` and have answered with the end of a run.
pub open spec fn evaluated<E: Environment>(
    before: E,
    interpreter: Seq<char>,
    content: Seq<char>,
    after: E,
) -> bool {
    exists|answer: (bool, String, String)| #[trigger]
        before.evaluated(interpreter, content, &after, Ok(answer))
}

/// Whether the environment `before`, asked to take the action, may have
/// come to be `after` and have answered with success. A script does not
/// reach the environment.
pub open spec fn taken<E: Environment>(before: E, action: ActionSpec, after: E) -> bool {
    match action {
        ActionSpec::Save { path, content } => saved(before, path, content, after),
        ActionSpec::Eval { interpreter, content } => evaluated(
            before,
            interpreter,
            content,
            after,
        ),
        ActionSpec::Pipe { .. } => after == before,
    }
}

/// Whether the environment `before`, asked to take the action, may have
/// come to be `after` and have failed with `e`.
pub open spec fn refused<E: Environment>(
    before: E,
    action: ActionSpec,
    after: E,
    e: AsciidoctrineError,
) -> bool {
    match action {
        ActionSpec::Save { path, content } => before.wrote(path, content, &after, Err(e)),
        ActionSpec::Eval { interpreter, content } => before.evaluated(
            interpreter,
            content,
            &after,
            Err(e),
        ),
        ActionSpec::Pipe { .. } => false,
    }
}

/// Whether the environment was in these states as it took the actions one
/// after the other, each with success.
pub open spec fn passed<E: Environment>(states: Seq<E>, actions: Seq<ActionSpec>) -> bool {
    &&& states.len() == actions.len() + 1
    &&& forall|i: int|
        0 <= i < actions.len() ==> taken(states[i], #[trigger] actions[i], states[i + 1])
}

/// Whether the environment `before` may have come to be `after` by taking
/// the actions one after the other, each with success.
pub open spec fn performed<E: Environment>(before: E, actions: Seq<ActionSpec>, after: E) -> bool {
    exists|states: Seq<E>| #[trigger]
        passed(states, actions) && states.first() == before && states.last() == after
}

/// Whether the environment `before` took the actions `actions` with
/// success, was then `mid`, and failed with `e` on the action `action`,
/// which left it as `after`.
pub open spec fn stopped<E: Environment>(
    before: E,
    actions: Seq<ActionSpec>,
    mid: E,
    action: ActionSpec,
    after: E,
    e: AsciidoctrineError,
) -> bool {
    performed(before, actions, mid) && refused(mid, action, after, e)
}

/// Whether the actions are how a run begins that hands the names out in
/// some order that the plan allows.
pub open spec fn within(
    plan: Map<Seq<char>, Set<Seq<char>>>,
    store: Map<Seq<char>, SnippetSpec>,
    actions: Seq<ActionSpec>,
) -> bool {
    exists|order: Seq<Seq<char>>|
        respects(plan, order) && is_prefix(actions, #[trigger] done_along(store, order))
}

/// Whether the environment `before` took some of the actions with
/// success, the first of them first, and failed with `e` on the next, which
/// left it as `after`.
pub open spec fn stopped_among<E: Environment>(
    before: E,
    actions: Seq<ActionSpec>,
    after: E,
    e: AsciidoctrineError,
) -> bool {
    exists|j: int, mid: E|
        0 <= j < actions.len() && #[trigger] stopped(
            before,
            actions.take(j),
            mid,
            actions[j],
            after,
            e,
        )
}

/// Whether the store `stores[i + 1]` is how handling the name `order[i]`
/// can leave the store `stores[i]`: the snippet of the name is woven and
/// put back, and the scripts among what it asks for have had their way
/// with the store. Where it asks for no script, the store is as the
/// weaving left it.
pub open spec fn stepped(
    stores: Seq<Map<Seq<char>, SnippetSpec>>,
    order: Seq<Seq<char>>,
    i: int,
) -> bool {
    &&& scripted(handled(stores[i], order[i]), stores[i + 1])
    &&& no_script(asked(stores[i], order[i])) ==> stores[i + 1] == handled(stores[i], order[i])
}

/// Whether these are the stores of a run that starts with `store` and
/// handles the names in this order: the store before each name, and the
/// store at the end.
pub open spec fn followed(
    store: Map<Seq<char>, SnippetSpec>,
    order: Seq<Seq<char>>,
    stores: Seq<Map<Seq<char>, SnippetSpec>>,
) -> bool {
    &&& stores.len() == order.len() + 1
    &&& stores[0] == store
    &&& forall|i: int| 0 <= i < order.len() ==> #[trigger] stepped(stores, order, i)
}

/// What is done as the first `n` names are handled, each in the store that
/// the names and scripts before it left: for each name in turn what its
/// snippet, woven in that store, asks for.
pub open spec fn done_through(
    stores: Seq<Map<Seq<char>, SnippetSpec>>,
    order: Seq<Seq<char>>,
    n: int,
) -> Seq<ActionSpec>
    decreases n,
{
    if n <= 0 || n > order.len() || n > stores.len() {
        seq![]
    } else {
        done_through(stores, order, n - 1) + asked(stores[n - 1], order[n - 1])
    }
}

/// Whether a run from `store` that handles the names in this order can
/// come to the store `last` and have done `done`, whatever its scripts
/// do.
pub open spec fn run_along(
    store: Map<Seq<char>, SnippetSpec>,
    order: Seq<Seq<char>>,
    last: Map<Seq<char>, SnippetSpec>,
    done: Seq<ActionSpec>,
) -> bool {
    exists|stores: Seq<Map<Seq<char>, SnippetSpec>>| #[trigger]
        followed(store, order, stores) && stores.last() == last && done == done_through(
            stores,
            order,
            order.len() as int,
        )
}

/// Whether the actions are how a run begins that hands the names out in
/// some order that the plan allows, whatever its scripts do.
pub open spec fn begun(
    plan: Map<Seq<char>, Set<Seq<char>>>,
    store: Map<Seq<char>, SnippetSpec>,
    actions: Seq<ActionSpec>,
) -> bool {
    exists|order: Seq<Seq<char>>, last: Map<Seq<char>, SnippetSpec>, done: Seq<ActionSpec>|
        respects(plan, order) && #[trigger] run_along(store, order, last, done) && is_prefix(
            actions,
            done,
        )
}

/// A script may leave the store as it is.
pub proof fn lemma_scripted_same(store: Map<Seq<char>, SnippetSpec>)
    ensures
        scripted(store, store),
{
}

/// What a script leaves of what a script left is what a script can leave.
pub proof fn lemma_scripted_twice(
    first: Map<Seq<char>, SnippetSpec>,
    second: Map<Seq<char>, SnippetSpec>,
    third: Map<Seq<char>, SnippetSpec>,
)
    requires
        scripted(first, second),
        scripted(second, third),
    ensures
        scripted(first, third),
{
    assert forall|k: Seq<char>| first.contains_key(k) implies #[trigger] third.contains_key(k) by {
        assert(second.contains_key(k));
    }
    assert forall|k: Seq<char>| #[trigger] third.contains_key(k) implies (first.contains_key(k)
        && third[k] == first[k]) || crate::script::script_made(third[k]) by {
        if !crate::script::script_made(third[k]) {
            assert(second.contains_key(k));
        }
    }
}

/// What was done for the first names does not change as the run goes on.
pub proof fn lemma_done_through_kept(
    stores: Seq<Map<Seq<char>, SnippetSpec>>,
    order: Seq<Seq<char>>,
    next: Map<Seq<char>, SnippetSpec>,
    key: Seq<char>,
    n: int,
)
    requires
        stores.len() == order.len() + 1,
        0 <= n <= order.len(),
    ensures
        done_through(stores.push(next), order.push(key), n) == done_through(stores, order, n),
    decreases n,
{
    if n > 0 {
        lemma_done_through_kept(stores, order, next, key, n - 1);
        assert(stores.push(next)[n - 1] == stores[n - 1]);
        assert(order.push(key)[n - 1] == order[n - 1]);
    }
}

/// A run goes on by one name: the store that handling the name leaves
/// comes behind the stores so far, and what its snippet asks for behind
/// what was done.
pub proof fn lemma_run_goes_on(
    store: Map<Seq<char>, SnippetSpec>,
    order: Seq<Seq<char>>,
    last: Map<Seq<char>, SnippetSpec>,
    done: Seq<ActionSpec>,
    key: Seq<char>,
    next: Map<Seq<char>, SnippetSpec>,
)
    requires
        run_along(store, order, last, done),
        scripted(handled(last, key), next),
        no_script(asked(last, key)) ==> next == handled(last, key),
    ensures
        run_along(store, order.push(key), next, done + asked(last, key)),
{
    let stores = choose|stores: Seq<Map<Seq<char>, SnippetSpec>>| #[trigger]
        followed(store, order, stores) && stores.last() == last && done == done_through(
            stores,
            order,
            order.len() as int,
        );
    let more = stores.push(next);
    let longer = order.push(key);
    let n = order.len() as int;
    assert forall|i: int| 0 <= i < longer.len() implies #[trigger] stepped(more, longer, i) by {
        if i < n {
            assert(stepped(stores, order, i));
            assert(more[i] == stores[i] && more[i + 1] == stores[i + 1] && longer[i] == order[i]);
        } else {
            assert(more[i] == last && more[i + 1] == next && longer[i] == key);
        }
    }
    assert(more[0] == stores[0]);
    assert(followed(store, longer, more));
    lemma_done_through_kept(stores, order, next, key, n);
    assert(more[n] == last && longer[n] == key);
    assert(done_through(more, longer, n + 1) == done + asked(last, key));
    assert(more.last() == next);
}

/// A run that has handled no name has done nothing.
pub proof fn lemma_run_starts(store: Map<Seq<char>, SnippetSpec>)
    ensures
        run_along(store, Seq::<Seq<char>>::empty(), store, Seq::<ActionSpec>::empty()),
{
    let stores = seq![store];
    assert(followed(store, Seq::<Seq<char>>::empty(), stores));
    assert(stores.last() == store);
}

/// Whether a run that starts with the plan `plan`, the store `store` and
/// the environment `before` can end with the failure `e` and the
/// environment `after`: the environment took some actions with success and
/// failed on the next, and these are how a run begins that the plan
/// allows.
pub open spec fn gave_up<E: Environment>(
    plan: Map<Seq<char>, Set<Seq<char>>>,
    store: Map<Seq<char>, SnippetSpec>,
    before: E,
    after: E,
    e: AsciidoctrineError,
) -> bool {
    exists|actions: Seq<ActionSpec>, mid: E, action: ActionSpec| #[trigger]
        stopped(before, actions, mid, action, after, e) && begun(
            plan,
            store,
            actions.push(action),
        ) && (no_pipe(store) ==> within(plan, store, actions.push(action)))
}

/// The fragment that a notice speaks of, if it speaks of one.
pub open spec fn subject(notice: Notice) -> Option<Seq<char>> {
    match notice {
        Notice::Weave { key, .. } => Some(key@),
        Notice::MissingSnippet { key } => Some(key@),
        Notice::Cycle => None,
        Notice::EvalFailed { key, .. } => Some(key@),
        Notice::PipeFailed { key } => Some(key@),
    }
}

/// Whether each of the notices speaks of one of the names.
pub open spec fn about(notices: Seq<Notice>, order: Seq<Seq<char>>) -> bool {
    forall|i: int|
        0 <= i < notices.len() ==> subject(#[trigger] notices[i]) is Some && order.contains(
            subject(notices[i])->Some_0,
        )
}

/// Whether `after` holds the notices `before` and, behind them, only what
/// the sinks of the fragment `key` gave to tell: that an interpreter or a
/// script failed.
pub open spec fn told_by_sinks(before: Seq<Notice>, after: Seq<Notice>, key: Seq<char>) -> bool {
    &&& before.len() <= after.len()
    &&& after.take(before.len() as int) == before
    &&& forall|i: int|
        before.len() <= i < after.len() ==> ((#[trigger] after[i]) is EvalFailed
            || after[i] is PipeFailed) && subject(after[i]) == Some(key)
}

/// Notices that speak of some names speak of them among more names.
pub proof fn lemma_about_more(notices: Seq<Notice>, order: Seq<Seq<char>>, key: Seq<char>)
    requires
        about(notices, order),
    ensures
        about(notices, order.push(key)),
        order.push(key).contains(key),
{
    let more = order.push(key);
    assert(more[order.len() as int] == key);
    assert forall|i: int| 0 <= i < notices.len() implies subject(#[trigger] notices[i]) is Some
        && more.contains(subject(notices[i])->Some_0) by {
        let k = subject(notices[i])->Some_0;
        assert(order.contains(k));
        let j = choose|j: int| 0 <= j < order.len() && order[j] == k;
        assert(more[j] == k);
    }
}

/// What the sinks of a name of the order give to tell speaks of a name of
/// the order.
pub proof fn lemma_about_sinks(
    before: Seq<Notice>,
    after: Seq<Notice>,
    order: Seq<Seq<char>>,
    key: Seq<char>,
)
    requires
        about(before, order),
        told_by_sinks(before, after, key),
        order.contains(key),
    ensures
        about(after, order),
{
    assert forall|i: int| 0 <= i < after.len() implies subject(#[trigger] after[i]) is Some
        && order.contains(subject(after[i])->Some_0) by {
        if i < before.len() {
            assert(after[i] == after.take(before.len() as int)[i]);
            assert(subject(before[i]) is Some);
        }
    }
}

/// Whether `r` is how a run can end that starts with the plan `plan`, the
/// store `store` and the environment `before`, and leaves the plan `left`
/// and the environment `after`.
///
/// A run that succeeds has handed each name out once, and only after
/// every name that the plan has before it; it went on until every name
/// that is left has a name before it that is left too. Its last notice
/// tells of a ring if and only if a name is left; every other notice
/// speaks of a name that was handed out. The environment took what was done
/// in the order of the record, each action with success. What was done is
/// what the snippets ask for, name by name, each woven in the store as the
/// names and the scripts before it left it; a script can leave the store
/// only as [`scripted`] says, and where no fragment is a script the store
/// is the one that the weaving alone leaves.
///
/// A run fails only where the environment fails: it took some actions
/// with success and failed on the next, and these are how such a run
/// begins.
pub open spec fn outcome<E: Environment>(
    plan: Map<Seq<char>, Set<Seq<char>>>,
    store: Map<Seq<char>, SnippetSpec>,
    before: E,
    after: E,
    left: Map<Seq<char>, Set<Seq<char>>>,
    r: Result<Report, Error>,
) -> bool {
    match r {
        Ok(report) => {
            let order = views(report.order@);
            let done = actions_view(report.done@);
            &&& respects(plan, order)
            &&& distinct(order)
            &&& forall|i: int| 0 <= i < order.len() ==> plan.contains_key(#[trigger] order[i])
            &&& forall|k: Seq<char>|
                #![trigger left.contains_key(k)]
                #![trigger plan.contains_key(k)]
                left.contains_key(k) <==> plan.contains_key(k) && !order.contains(k)
            &&& forall|k: Seq<char>| #[trigger] left.contains_key(k) ==> left[k] == plan[k]
            &&& all_blocked(left)
            &&& left == empty_plan() ==> about(report.notices@, order)
            &&& left != empty_plan() ==> report.notices@.len() > 0 && report.notices@.last() is Cycle
                && about(report.notices@.drop_last(), order)
            &&& performed(before, done, after)
            &&& exists|last: Map<Seq<char>, SnippetSpec>| #[trigger]
                run_along(store, order, last, done)
            &&& no_pipe(store) ==> done == done_along(store, order)
        },
        Err(Error::Asciidoctrine(e)) => gave_up(plan, store, before, after, e),
        Err(Error::Missing) => false,
    }
}

/// Whether the names are those of the store, each once.
pub open spec fn names_of(store: Map<Seq<char>, SnippetSpec>, names: Seq<Seq<char>>) -> bool {
    &&& forall|k: Seq<char>| store.contains_key(k) <==> names.contains(k)
    &&& distinct(names)
}

/// Whether `r` is how the weaving of a document with the fragments
/// `store` can end: the names of the store are entered into the plan in
/// some order, each behind the identifiers that its snippet depends on,
/// and the run ends as [`outcome`] says.
pub open spec fn woven<E: Environment>(
    plan: Map<Seq<char>, Set<Seq<char>>>,
    store: Map<Seq<char>, SnippetSpec>,
    before: E,
    after: E,
    left: Map<Seq<char>, Set<Seq<char>>>,
    r: Result<Report, Error>,
) -> bool {
    exists|names: Seq<Seq<char>>| #[trigger]
        names_of(store, names) && outcome(
            planned(plan, names, store, names.len() as int),
            store,
            before,
            after,
            left,
            r,
        )
}

/// The end of a run without the document.
pub open spec fn report_of(r: Result<(AST, Report), Error>) -> Result<Report, Error> {
    match r {
        Ok(pair) => Ok(pair.1),
        Err(e) => Err(e),
    }
}

/// Whether `r` is how the transformation of a document with the fragments
/// `store` can end: as the weaving of the document ends, without its
/// report.
pub open spec fn transformed<E: Environment>(
    plan: Map<Seq<char>, Set<Seq<char>>>,
    store: Map<Seq<char>, SnippetSpec>,
    before: E,
    after: E,
    left: Map<Seq<char>, Set<Seq<char>>>,
    r: Result<AST, Error>,
) -> bool {
    exists|run: Result<Report, Error>| #[trigger]
        woven(plan, store, before, after, left, run) && (r is Ok <==> run is Ok) && (r is Err
            ==> r->Err_0 == run->Err_0)
}

/// Taking no action leaves the environment as it is.
pub proof fn lemma_performed_nothing<E: Environment>(before: E, after: E)
    ensures
        performed(before, Seq::<ActionSpec>::empty(), after) <==> after == before,
{
    if after == before {
        assert(passed(seq![before], Seq::<ActionSpec>::empty()));
        assert(seq![before].first() == before);
    }
}

/// Taking one more action with success goes on from where the actions
/// before it led.
pub proof fn lemma_performed_push<E: Environment>(
    before: E,
    actions: Seq<ActionSpec>,
    mid: E,
    action: ActionSpec,
    after: E,
)
    requires
        performed(before, actions, mid),
        taken(mid, action, after),
    ensures
        performed(before, actions.push(action), after),
{
    let states = choose|states: Seq<E>| #[trigger]
        passed(states, actions) && states.first() == before && states.last() == mid;
    let all = actions.push(action);
    let longer = states.push(after);
    assert forall|i: int| 0 <= i < all.len() implies taken(
        longer[i],
        #[trigger] all[i],
        longer[i + 1],
    ) by {
        if i < actions.len() {
            assert(taken(states[i], actions[i], states[i + 1]));
        }
    }
    assert(passed(longer, all));
    assert(longer.first() == before && longer.last() == after);
}

/// Two runs of actions, the second from where the first led, are one run.
pub proof fn lemma_performed_concat<E: Environment>(
    before: E,
    first: Seq<ActionSpec>,
    mid: E,
    second: Seq<ActionSpec>,
    after: E,
)
    requires
        performed(before, first, mid),
        performed(mid, second, after),
    ensures
        performed(before, first + second, after),
{
    let head = choose|states: Seq<E>| #[trigger]
        passed(states, first) && states.first() == before && states.last() == mid;
    let tail = choose|states: Seq<E>| #[trigger]
        passed(states, second) && states.first() == mid && states.last() == after;
    let all = first + second;
    let states = head + tail.skip(1);
    assert forall|i: int| 0 <= i < all.len() implies taken(
        states[i],
        #[trigger] all[i],
        states[i + 1],
    ) by {
        if i < first.len() {
            assert(taken(head[i], first[i], head[i + 1]));
            if i + 1 == first.len() {
                assert(head[i + 1] == tail[0]);
            }
        } else {
            let k = i - first.len();
            assert(taken(tail[k], second[k], tail[k + 1]));
            assert(all[i] == second[k]);
            assert(states[i + 1] == tail[k + 1]);
            if k == 0 {
                assert(states[i] == head.last());
            } else {
                assert(states[i] == tail[k]);
            }
        }
    }
    assert(passed(states, all));
    assert(states.first() == before);
    assert(states.last() == after);
}

/// What inert contributions and contributions with a file or an
/// interpreter ask for runs no script.
pub proof fn lemma_later_no_script(children: Seq<SnippetSpec>, i: int)
    requires
        forall|k: int| 0 <= k < children.len() ==> (#[trigger] children[k]).kind != KindSpec::Pipe,
    ensures
        no_script(crate::dispatch::later_actions(children, i)),
    decreases children.len() - i,
{
    if 0 <= i < children.len() {
        lemma_later_no_script(children, i + 1);
        let rest = crate::dispatch::later_actions(children, i + 1);
        let all = crate::dispatch::later_actions(children, i);
        assert forall|k: int| 0 <= k < all.len() implies !(#[trigger] all[k] is Pipe) by {
            if all.len() > rest.len() {
                if k > 0 {
                    assert(all[k] == rest[k - 1]);
                }
            } else {
                assert(all[k] == rest[k]);
            }
        }
    }
}

/// Handling a name in a store without scripts leaves a store without
/// scripts, and runs no script.
pub proof fn lemma_no_pipe_handled(store: Map<Seq<char>, SnippetSpec>, key: Seq<char>)
    requires
        no_pipe(store),
    ensures
        no_pipe(handled(store, key)),
        no_script(asked(store, key)),
{
    if store.contains_key(key) {
        let snippet = store[key];
        let woven = woven_snippet(snippet, store.remove(key));
        assert(woven.kind == snippet.kind);
        assert(woven.children.len() == snippet.children.len());
        assert forall|i: int| 0 <= i < woven.children.len() implies (
        #[trigger] woven.children[i]).kind != KindSpec::Pipe by {
            assert(snippet.children[i].kind != KindSpec::Pipe);
        }
        lemma_later_no_script(woven.children, 1);
        let later = crate::dispatch::later_actions(woven.children, 1);
        let all = actions_of(woven);
        assert forall|i: int| 0 <= i < all.len() implies !(#[trigger] all[i] is Pipe) by {
            if all.len() > later.len() {
                if i > 0 {
                    assert(all[i] == later[i - 1]);
                }
            } else {
                assert(all[i] == later[i]);
            }
        }
        let after = handled(store, key);
        assert forall|k: Seq<char>| #[trigger] after.contains_key(k) implies after[k].kind
            != KindSpec::Pipe && forall|i: int|
            0 <= i < after[k].children.len() ==> (#[trigger] after[k].children[i]).kind
                != KindSpec::Pipe by {
            if k != key {
                assert(store.contains_key(k));
            }
        }
    }
}

/// Handing out a name that waits and that nothing waits before keeps the
/// order as the plan allows it.
pub proof fn lemma_next_name(
    plan: Map<Seq<char>, Set<Seq<char>>>,
    waits: Map<Seq<char>, Set<Seq<char>>>,
    seen: Seq<Seq<char>>,
    key: Seq<char>,
)
    requires
        forall|k: Seq<char>|
            #![trigger waits.contains_key(k)]
            #![trigger plan.contains_key(k)]
            waits.contains_key(k) <==> plan.contains_key(k) && !seen.contains(k),
        forall|k: Seq<char>| #[trigger] waits.contains_key(k) ==> waits[k] == plan[k],
        respects(plan, seen),
        distinct(seen),
        forall|i: int| 0 <= i < seen.len() ==> plan.contains_key(#[trigger] seen[i]),
        waits.contains_key(key),
        !blocked(waits, key),
    ensures
        forall|k: Seq<char>|
            #![trigger waits.remove(key).contains_key(k)]
            #![trigger plan.contains_key(k)]
            waits.remove(key).contains_key(k) <==> plan.contains_key(k) && !seen.push(
                key,
            ).contains(k),
        forall|k: Seq<char>| #[trigger]
            waits.remove(key).contains_key(k) ==> waits.remove(key)[k] == plan[k],
        respects(plan, seen.push(key)),
        distinct(seen.push(key)),
        forall|i: int|
            0 <= i < seen.push(key).len() ==> plan.contains_key(#[trigger] seen.push(key)[i]),
{
    let now = seen.push(key);
    assert(plan.contains_key(key));
    assert forall|k: Seq<char>|
        #![trigger waits.remove(key).contains_key(k)]
        #![trigger plan.contains_key(k)]
        waits.remove(key).contains_key(k) <==> plan.contains_key(k) && !now.contains(k) by {
        assert(waits.contains_key(k) <==> plan.contains_key(k) && !seen.contains(k));
        if now.contains(k) {
            let j = choose|j: int| 0 <= j < now.len() && now[j] == k;
            if j < seen.len() {
                assert(seen[j] == k);
                assert(seen.contains(k));
            }
        }
        if seen.contains(k) {
            let j = choose|j: int| 0 <= j < seen.len() && seen[j] == k;
            assert(now[j] == k);
        }
        if k == key {
            assert(now[seen.len() as int] == k);
        }
    }
    assert forall|i: int, before: Seq<char>|
        0 <= i < now.len() && #[trigger] comes_after(plan, before, now[i]) implies exists|j: int|
        0 <= j < i && now[j] == before by {
        if i < seen.len() {
            assert(now[i] == seen[i]);
            assert(comes_after(plan, before, seen[i]));
            let j = choose|j: int| 0 <= j < i && seen[j] == before;
            assert(now[j] == before);
        } else {
            if !seen.contains(before) {
                assert(waits.contains_key(before));
                assert(waits[before].contains(key));
                assert(blocked(waits, key));
            }
            let j = choose|j: int| 0 <= j < seen.len() && seen[j] == before;
            assert(now[j] == before);
        }
    }
    assert forall|i: int, j: int| 0 <= i < j < now.len() implies now[i] != now[j] by {
        if j == seen.len() {
            assert(now[i] == seen[i]);
            if seen[i] == key {
                assert(seen.contains(key));
            }
        } else {
            assert(now[i] == seen[i] && now[j] == seen[j]);
        }
    }
    assert forall|i: int| 0 <= i < now.len() implies plan.contains_key(#[trigger] now[i]) by {
        if i < seen.len() {
            assert(now[i] == seen[i]);
        }
    }
}

/// What follows from the answer of the environment to a run of an
/// interpreter for the fragment `key`: nothing to tell where the run
/// succeeded, a notice with the error stream where it failed, and the end
/// of the weaver's run where the environment failed.
pub fn eval_notice(key: &String, answer: Result<(bool, String, String), AsciidoctrineError>) -> (r:
    Result<Option<Notice>, Error>)
    ensures
        match answer {
            Ok((success, _, error)) => if success {
                r matches Ok(None)
            } else {
                (r matches Ok(Some(Notice::EvalFailed { key: k, error: e })) && k@ == key@ && e@
                    == error@)
            },
            Err(e) => r == Err::<Option<Notice>, Error>(Error::Asciidoctrine(e)),
        },
{
    match answer {
        Ok((success, _, error)) => if success {
            Ok(None)
        } else {
            Ok(Some(Notice::EvalFailed { key: key.clone(), error }))
        },
        Err(e) => Err(Error::Asciidoctrine(e)),
    }
}

/// What follows from the end of the script of the fragment `key`: a
/// notice where it ended with an error.
pub fn pipe_notice(key: &String, ok: bool) -> (r: Option<Notice>)
    ensures
        ok ==> r.is_none(),
        !ok ==> (r matches Some(Notice::PipeFailed { key: k }) && k@ == key@),
{
    if ok {
        None
    } else {
        Some(Notice::PipeFailed { key: key.clone() })
    }
}

/// Weaves the snippet `key` in the store and says what is to be done with
/// it; `None` if the store does not know the name.
pub fn process(key: &str, snippets: &mut SnippetDB) -> (r: Option<(Vec<Action>, Vec<Warning>)>)
    requires
        old(snippets).wf(),
    ensures
        final(snippets).wf(),
        final(snippets)@ == handled(old(snippets)@, key@),
        match r {
            Some((acts, _)) => actions_view(acts@) == asked(old(snippets)@, key@),
            None => asked(old(snippets)@, key@) == Seq::<ActionSpec>::empty(),
        },
        match r {
            Some((acts, warnings)) => {
                let woven = woven_snippet(old(snippets)@[key@], old(snippets)@.remove(key@));
                &&& old(snippets)@.contains_key(key@)
                &&& final(snippets)@ == old(snippets)@.insert(key@, woven)
                &&& actions_view(acts@) == actions_of(woven)
                &&& warnings_view(warnings@) == snippet_warnings(
                    old(snippets)@[key@],
                    old(snippets)@.remove(key@),
                )
            },
            None => !old(snippets)@.contains_key(key@) && final(snippets)@ == old(snippets)@,
        },
{
    match snippets.pop(key) {
        Some(snippet) => {
            let (woven, warnings) = weave_snippet(snippet, snippets);
            let acts = actions(&woven);
            let ghost added = woven@;
            snippets.store(String::from_str(key), woven);
            assert(snippets@ =~= old(snippets)@.insert(key@, added));
            Some((acts, warnings))
        },
        None => {
            assert(snippets@ =~= old(snippets)@);
            None
        },
    }
}

/// The weaver, with the plan of what is still to be woven and the
/// environment that its fragments are handed to.
pub struct Lisi<E: Environment> {
    dependencies: TopologicalSort<String>,
    env: E,
}

impl<E: Environment> Lisi<E> {
    /// What still waits to be woven, each name with the names registered
    /// as coming after it.
    pub closed spec fn plan(&self) -> Map<Seq<char>, Set<Seq<char>>> {
        waiting(self.dependencies)
    }

    /// The environment of the weaver.
    pub closed spec fn env(&self) -> E {
        self.env
    }

    /// The planner of the weaver.
    pub closed spec fn planner(&self) -> TopologicalSort<String> {
        self.dependencies
    }

    /// A weaver in this environment, with nothing planned.
    pub fn from_env(env: E) -> (lisi: Self)
        ensures
            lisi.plan() == empty_plan(),
            lisi.env() == env,
    {
        Lisi { dependencies: planner_new(), env }
    }

    /// The environment as the weaver leaves it.
    pub fn into_env(self) -> (env: E)
        ensures
            env == self.env(),
    {
        self.env
    }

    /// Harvests the node and what is below it into the store.
    pub fn extract(&mut self, snippets: SnippetDB, input: &ElementSpan) -> (r: Result<
        SnippetDB,
        Error,
    >)
        requires
            snippets.wf(),
        ensures
            *final(self) == *old(self),
            match r {
                Ok(db) => db.wf() && harvest(input@, snippets@) == Ok::<
                    Map<Seq<char>, SnippetSpec>,
                    HarvestError,
                >(db@),
                Err(e) => e == Error::Missing && harvest(input@, snippets@) == Err::<
                    Map<Seq<char>, SnippetSpec>,
                    HarvestError,
                >(HarvestError::Missing),
            },
    {
        extract_element(snippets, input)
    }

    /// Harvests a document into a new store.
    pub fn extract_ast(&mut self, input: &AST) -> (r: Result<SnippetDB, Error>)
        ensures
            *final(self) == *old(self),
            match r {
                Ok(db) => db.wf() && harvest_document(input@) == Ok::<
                    Map<Seq<char>, SnippetSpec>,
                    HarvestError,
                >(db@),
                Err(e) => e == Error::Missing && harvest_document(input@) == Err::<
                    Map<Seq<char>, SnippetSpec>,
                    HarvestError,
                >(HarvestError::Missing),
            },
    {
        proof {
            input.lemma_elements();
        }
        extract_all(SnippetDB::new(), &input.elements)
    }

    fn add_dependencies(&mut self, deps: &Vec<String>, key: &String)
        ensures
            final(self).env() == old(self).env(),
            final(self).plan() == with_dependencies(
                old(self).plan(),
                views(deps@),
                key@,
                deps@.len() as int,
            ),
    {
        let mut i: usize = 0;
        while i < deps.len()
            invariant
                i <= deps.len(),
                self.env == old(self).env,
                self.plan() == with_dependencies(old(self).plan(), views(deps@), key@, i as int),
            decreases deps.len() - i,
        {
            planner_add_dependency(&mut self.dependencies, &deps[i], key);
            i += 1;
        }
    }

    /// Enters every snippet of the store into the plan: its name, behind
    /// each identifier that it depends on.
    pub fn calculate_snippet_ordering(&mut self, snippets: &SnippetDB)
        requires
            snippets.wf(),
        ensures
            final(self).env() == old(self).env(),
            final(self).plan() == planned(
                old(self).plan(),
                snippets.names(),
                snippets@,
                snippets.names().len() as int,
            ),
    {
        let entries = snippets.iter();
        let mut i: usize = 0;
        while i < entries.len()
            invariant
                i <= entries.len(),
                entries@.len() == snippets.names().len(),
                forall|k: int|
                    0 <= k < entries@.len() ==> #[trigger] entries@[k].0@ == snippets.names()[k]
                        && snippets@.contains_key(entries@[k].0@) && snippets@[entries@[k].0@]
                        == entries@[k].1@,
                self.env == old(self).env,
                self.plan() == planned(old(self).plan(), snippets.names(), snippets@, i as int),
            decreases entries.len() - i,
        {
            let key = &entries[i].0;
            let snippet = &entries[i].1;
            proof {
                snippet.lemma_parts();
            }
            assert(entries@[i as int].0@ == snippets.names()[i as int]);
            planner_insert(&mut self.dependencies, key);
            let ghost start = self.plan();
            let mut c: usize = 0;
            while c < snippet.children.len()
                invariant
                    c <= snippet.children.len(),
                    snippet@.children.len() == snippet.children@.len(),
                    forall|k: int|
                        0 <= k < snippet.children@.len() ==> snippet@.children[k]
                            == snippet.children@[k]@,
                    self.env == old(self).env,
                    self.plan() == with_children(start, snippet@.children, key@, c as int),
                decreases snippet.children.len() - c,
            {
                self.add_dependencies(&snippet.children[c].depends_on, key);
                c += 1;
            }
            self.add_dependencies(&snippet.depends_on, key);
            i += 1;
        }
    }

    /// Asks the environment to write the content to the file at `path`:
    /// every line without its trailing white space, every line ended by a
    /// line feed, as [`normalize`] makes it. What the environment answers
    /// is handed back: its failure as `Error::Asciidoctrine`.
    pub fn save(&mut self, path: &str, content: &str) -> (r: Result<(), Error>)
        requires
            old(self).env().valid(),
        ensures
            final(self).env().valid(),
            final(self).planner() == old(self).planner(),
            match r {
                Ok(done) => old(self).env().wrote(
                    path@,
                    save_text(content@),
                    &final(self).env(),
                    Ok(done),
                ),
                Err(Error::Asciidoctrine(e)) => old(self).env().wrote(
                    path@,
                    save_text(content@),
                    &final(self).env(),
                    Err(e),
                ),
                Err(Error::Missing) => false,
            },
    {
        let text = normalize(content);
        match self.env.write(path, text.as_str()) {
            Ok(done) => Ok(done),
            Err(e) => Err(Error::Asciidoctrine(e)),
        }
    }

    /// Asks the environment to run the interpreter on the content, and
    /// hands back whether the run succeeded and what it wrote to its error
    /// stream; a failure of the environment as `Error::Asciidoctrine`.
    pub fn eval(&mut self, interpreter: String, content: String) -> (r: Result<
        (bool, String),
        Error,
    >)
        requires
            old(self).env().valid(),
        ensures
            final(self).env().valid(),
            final(self).planner() == old(self).planner(),
            match r {
                Ok((success, error)) => answered(
                    old(self).env(),
                    interpreter@,
                    content@,
                    final(self).env(),
                    success,
                    error,
                ),
                Err(Error::Asciidoctrine(e)) => old(self).env().evaluated(
                    interpreter@,
                    content@,
                    &final(self).env(),
                    Err(e),
                ),
                Err(Error::Missing) => false,
            },
    {
        match self.env.eval(interpreter.as_str(), content.as_str()) {
            Ok((success, output, error)) => {
                assert(old(self).env().evaluated(
                    interpreter@,
                    content@,
                    &self.env(),
                    Ok((success, output, error)),
                ));
                Ok((success, error))
            },
            Err(e) => Err(Error::Asciidoctrine(e)),
        }
    }

    /// Runs the content as a script on the store and returns the store as
    /// the script left it, and whether the script ended without an error.
    /// Whatever the script does, the store keeps every name, and holds
    /// under each name what it held or a single raw, inert contribution.
    pub fn pipe(&mut self, content: &str, db: SnippetDB) -> (r: (SnippetDB, bool))
        requires
            db.wf(),
        ensures
            *final(self) == *old(self),
            r.0.wf(),
            scripted(db@, r.0@),
    {
        let engine = script_engine(MAX_OPERATIONS);
        let spare = LisiWrapper { snippets: SnippetDB::new() };
        let (host, ok) = run_script(engine, content, LisiWrapper { snippets: db }, spare);
        (host.snippets, ok)
    }

    /// Hands the actions of the fragment `key` to the environment, one
    /// after the other; a script is run on the store. What is done is put
    /// on record in `done`, what there is to tell in `notices`. The first
    /// failure of the environment ends it.
    pub fn perform(
        &mut self,
        key: &String,
        acts: Vec<Action>,
        db: SnippetDB,
        done: &mut Vec<Action>,
        notices: &mut Vec<Notice>,
    ) -> (r: Result<SnippetDB, Error>)
        requires
            db.wf(),
            old(self).env().valid(),
        ensures
            final(self).env().valid(),
            final(self).planner() == old(self).planner(),
            match r {
                Ok(next) => {
                    &&& next.wf()
                    &&& actions_view(final(done)@) == actions_view(old(done)@) + actions_view(acts@)
                    &&& performed(old(self).env(), actions_view(acts@), final(self).env())
                    &&& scripted(db@, next@)
                    &&& no_script(actions_view(acts@)) ==> next@ == db@
                    &&& told_by_sinks(old(notices)@, final(notices)@, key@)
                },
                Err(Error::Asciidoctrine(e)) => stopped_among(
                    old(self).env(),
                    actions_view(acts@),
                    final(self).env(),
                    e,
                ),
                Err(Error::Missing) => false,
            },
            acts@.len() == 0 ==> r.is_ok() && final(self).env() == old(self).env(),
    {
        let ghost all = actions_view(acts@);
        let ghost done0 = actions_view(done@);
        let ghost env0 = self.env;
        let ghost db0 = db@;
        let ghost told0 = notices@;
        assert(notices@.take(told0.len() as int) =~= told0);
        let n = acts.len();
        let mut rest = acts;
        let mut db = db;
        let mut j: usize = 0;
        assert(all.take(0) =~= Seq::<ActionSpec>::empty());
        assert(actions_view(done@) =~= done0 + all.take(0));
        proof {
            lemma_performed_nothing(env0, self.env);
            lemma_scripted_same(db0);
        }
        while j < n
            invariant
                j <= n,
                n == all.len(),
                n == acts@.len(),
                all == actions_view(acts@),
                rest@.len() == n - j,
                forall|k: int| 0 <= k < rest@.len() ==> (#[trigger] rest@[k])@ == all[j + k],
                env0 == old(self).env(),
                db.wf(),
                self.env.valid(),
                self.dependencies == old(self).dependencies,
                actions_view(done@) == done0 + all.take(j as int),
                performed(env0, all.take(j as int), self.env),
                no_script(all) ==> db@ == db0,
                scripted(db0, db@),
                j == 0 ==> self.env == env0,
                told_by_sinks(told0, notices@, key@),
            decreases n - j,
        {
            let ghost mid = self.env;
            let ghost recorded = actions_view(done@);
            let ghost told = notices@;
            let action = rest.remove(0);
            let ghost asked_now = action@;
            assert(asked_now == all[j as int]);
            assert(all.take(j as int + 1) =~= all.take(j as int).push(asked_now));
            let notice = match action {
                Action::Save { path, content } => {
                    match self.env.write(path.as_str(), content.as_str()) {
                        Ok(written) => {
                            assert(mid.wrote(path@, content@, &self.env, Ok(written)));
                            assert(asked_now == (ActionSpec::Save { path: path@, content: content@ }));
                            assert(taken(mid, asked_now, self.env));
                        },
                        Err(e) => {
                            assert(stopped(env0, all.take(j as int), mid, all[j as int], self.env, e));
                            return Err(Error::Asciidoctrine(e));
                        },
                    }
                    done.push(Action::Save { path, content });
                    None
                },
                Action::Eval { interpreter, content } => {
                    let answer = self.env.eval(interpreter.as_str(), content.as_str());
                    let ghost given = answer;
                    let notice = match eval_notice(key, answer) {
                        Ok(notice) => {
                            assert(given is Ok);
                            assert(mid.evaluated(
                                interpreter@,
                                content@,
                                &self.env,
                                Ok(given->Ok_0),
                            ));
                            assert(taken(mid, asked_now, self.env));
                            notice
                        },
                        Err(e) => {
                            assert(given is Err);
                            assert(stopped(
                                env0,
                                all.take(j as int),
                                mid,
                                all[j as int],
                                self.env,
                                given->Err_0,
                            ));
                            return Err(e);
                        },
                    };
                    done.push(Action::Eval { interpreter, content });
                    notice
                },
                Action::Pipe { content } => {
                    let ghost held = db@;
                    let (next, ok) = self.pipe(content.as_str(), db);
                    db = next;
                    proof {
                        lemma_scripted_twice(db0, held, db@);
                    }
                    assert(taken(mid, asked_now, self.env));
                    done.push(Action::Pipe { content });
                    pipe_notice(key, ok)
                },
            };
            assert(actions_view(done@) =~= recorded.push(asked_now));
            proof {
                assert(taken(mid, asked_now, self.env));
                lemma_performed_push(env0, all.take(j as int), mid, asked_now, self.env);
            }
            match notice {
                Some(notice) => {
                    assert((notice is EvalFailed || notice is PipeFailed) && subject(notice) == Some(
                        key@,
                    ));
                    notices.push(notice);
                    assert(notices@.take(told0.len() as int) =~= told.take(told0.len() as int));
                },
                None => {},
            }
            j += 1;
        }
        assert(all.take(n as int) =~= all);
        Ok(db)
    }

    /// Weaves every snippet in the order of the plan and hands each to its
    /// sinks.
    ///
    /// Whatever order the planner chooses, the run ends as [`outcome`]
    /// says. Where no fragment of the store has a sink, the environment
    /// is left as it is and the run succeeds.
    pub fn generate_outputs(&mut self, snippets: SnippetDB) -> (r: Result<Report, Error>)
        requires
            snippets.wf(),
            old(self).env().valid(),
        ensures
            final(self).env().valid(),
            outcome(
                old(self).plan(),
                snippets@,
                old(self).env(),
                final(self).env(),
                final(self).plan(),
                r,
            ),
            inert(snippets@) ==> r.is_ok() && final(self).env() == old(self).env(),
    {
        let ghost plan0 = self.plan();
        let ghost env0 = self.env;
        let ghost store0 = snippets@;
        let ghost quiet = inert(snippets@);
        let ghost pure = no_pipe(snippets@);
        let mut db = snippets;
        let mut order: Vec<String> = Vec::new();
        let mut done: Vec<Action> = Vec::new();
        let mut notices: Vec<Notice> = Vec::new();
        assert(views(order@) =~= Seq::<Seq<char>>::empty());
        assert(actions_view(done@) =~= Seq::<ActionSpec>::empty());
        proof {
            lemma_performed_nothing(env0, self.env);
            lemma_run_starts(store0);
        }
        loop
            invariant_except_break
                about(notices@, views(order@)),
            invariant
                db.wf(),
                self.env.valid(),
                plan0 == old(self).plan(),
                env0 == old(self).env(),
                store0 == snippets@,
                forall|k: Seq<char>|
                    #![trigger self.plan().contains_key(k)]
                    #![trigger plan0.contains_key(k)]
                    self.plan().contains_key(k) <==> plan0.contains_key(k) && !views(
                        order@,
                    ).contains(k),
                forall|k: Seq<char>| #[trigger]
                    self.plan().contains_key(k) ==> self.plan()[k] == plan0[k],
                respects(plan0, views(order@)),
                distinct(views(order@)),
                forall|i: int|
                    0 <= i < order@.len() ==> plan0.contains_key(#[trigger] views(order@)[i]),
                performed(env0, actions_view(done@), self.env),
                run_along(store0, views(order@), db@, actions_view(done@)),
                pure == no_pipe(store0),
                pure ==> db@ == store_along(store0, views(order@)) && no_pipe(db@)
                    && actions_view(done@) == done_along(store0, views(order@)),
                quiet == inert(store0),
                quiet ==> inert(db@) && self.env == env0,
            ensures
                all_blocked(self.plan()),
                self.plan() == empty_plan() ==> about(notices@, views(order@)),
                self.plan() != empty_plan() ==> notices@.len() > 0 && notices@.last() is Cycle
                    && about(notices@.drop_last(), views(order@)),
            decreases count(self.dependencies),
        {
            let ghost plan1 = self.plan();
            let ghost seen = views(order@);
            let ghost store1 = db@;
            let ghost recorded = actions_view(done@);
            let ghost mid = self.env;
            let key = match planner_pop(&mut self.dependencies) {
                Some(key) => key,
                None => {
                    if !planner_is_empty(&self.dependencies) {
                        let ghost told = notices@;
                        notices.push(Notice::Cycle);
                        assert(notices@.drop_last() =~= told);
                    }
                    break ;
                },
            };
            let ghost waiting1 = self.dependencies;
            let step = process(key.as_str(), &mut db);
            order.push(key.clone());
            proof {
                assert(views(order@) =~= seen.push(key@));
                lemma_about_more(notices@, seen, key@);
                lemma_next_name(plan0, plan1, seen, key@);
                assert(views(order@).drop_last() =~= seen);
                if pure {
                    lemma_no_pipe_handled(store1, key@);
                }
                if quiet && store1.contains_key(key@) {
                    lemma_inert_woven(store1, key@);
                }
            }
            let acts = match step {
                None => {
                    notices.push(Notice::MissingSnippet { key: key.clone() });
                    Vec::new()
                },
                Some((acts, warnings)) => {
                    let mut warnings = warnings;
                    while warnings.len() > 0
                        invariant
                            about(notices@, views(order@)),
                            views(order@).contains(key@),
                        decreases warnings.len(),
                    {
                        let warning = warnings.remove(0);
                        notices.push(Notice::Weave { key: key.clone(), warning });
                    }
                    acts
                },
            };
            let ghost told = notices@;
            let ghost all = actions_view(acts@);
            assert(all =~= asked(store1, key@));
            assert(quiet ==> all.len() == 0);
            match self.perform(&key, acts, db, &mut done, &mut notices) {
                Ok(next) => {
                    db = next;
                    proof {
                        lemma_performed_concat(env0, recorded, mid, all, self.env);
                        lemma_about_sinks(told, notices@, views(order@), key@);
                        lemma_run_goes_on(store0, seen, store1, recorded, key@, db@);
                    }
                },
                Err(e) => {
                    proof {
                        let ghost failure = e;
                        match failure {
                            Error::Asciidoctrine(inner) => {
                                assert(stopped_among(mid, all, self.env, inner));
                                let (j, at) = choose|j: int, at: E|
                                    0 <= j < all.len() && #[trigger] stopped(
                                        mid,
                                        all.take(j),
                                        at,
                                        all[j],
                                        self.env,
                                        inner,
                                    );
                                lemma_performed_concat(env0, recorded, mid, all.take(j), at);
                                let before = recorded + all.take(j);
                                assert(stopped(env0, before, at, all[j], self.env, inner));
                                lemma_scripted_same(handled(store1, key@));
                                lemma_run_goes_on(
                                    store0,
                                    seen,
                                    store1,
                                    recorded,
                                    key@,
                                    handled(store1, key@),
                                );
                                assert((recorded + all).take(before.len() as int + 1) =~= before.push(
                                    all[j],
                                ));
                                assert(is_prefix(before.push(all[j]), recorded + all));
                                assert(begun(plan0, store0, before.push(all[j])));
                                if pure {
                                    let whole = done_along(store0, views(order@));
                                    assert(whole == recorded + all);
                                    assert(before.push(all[j]) =~= whole.take(before.len() as int + 1));
                                    assert(is_prefix(before.push(all[j]), whole));
                                    assert(within(plan0, store0, before.push(all[j])));
                                }
                                assert(gave_up(plan0, store0, env0, self.env, inner));
                            },
                            Error::Missing => {},
                        }
                    }
                    return Err(e);
                },
            }
        }
        Ok(Report { order, done, notices })
    }

    /// Harvests the document, plans and weaves its fragments, hands them
    /// to their sinks, and returns the document as it came, with the
    /// report of the run.
    pub fn weave_document(&mut self, input: AST) -> (r: Result<(AST, Report), Error>)
        requires
            old(self).env().valid(),
        ensures
            final(self).env().valid(),
            r matches Ok(pair) ==> pair.0 == input,
            harvest_document(input@) is Err ==> r == Err::<(AST, Report), Error>(Error::Missing)
                && *final(self) == *old(self),
            harvest_document(input@) matches Ok(store) ==> woven(
                old(self).plan(),
                store,
                old(self).env(),
                final(self).env(),
                final(self).plan(),
                report_of(r),
            ),
            harvest_document(input@) matches Ok(store) && inert(store) ==> r.is_ok()
                && final(self).env() == old(self).env(),
    {
        let snippets = match self.extract_ast(&input) {
            Ok(snippets) => snippets,
            Err(e) => {
                return Err(e);
            },
        };
        let _ = snippets.iter();
        self.calculate_snippet_ordering(&snippets);
        let ghost plan = self.plan();
        let ghost store = snippets@;
        let ghost names = snippets.names();
        let ghost before = self.env;
        let run = self.generate_outputs(snippets);
        proof {
            assert(names_of(store, names));
            assert(outcome(plan, store, before, self.env, self.plan(), run));
        }
        match run {
            Ok(report) => Ok((input, report)),
            Err(e) => Err(e),
        }
    }
}

impl<E: Environment> Extension for Lisi<E> {
    open spec fn ready(&self) -> bool {
        self.env().valid()
    }

    fn transform(&mut self, input: AST) -> (r: Result<AST, Error>)
        ensures
            r matches Ok(ast) ==> ast == input,
            harvest_document(input@) is Err ==> r == Err::<AST, Error>(Error::Missing)
                && *final(self) == *old(self),
            harvest_document(input@) matches Ok(store) ==> transformed(
                old(self).plan(),
                store,
                old(self).env(),
                final(self).env(),
                final(self).plan(),
                r,
            ),
            harvest_document(input@) matches Ok(store) && inert(store) ==> r.is_ok()
                && final(self).env() == old(self).env(),
    {
        let run = self.weave_document(input);
        proof {
            if harvest_document(input@) is Ok {
                assert(woven(
                    old(self).plan(),
                    harvest_document(input@)->Ok_0,
                    old(self).env(),
                    self.env(),
                    self.plan(),
                    report_of(run),
                ));
            }
        }
        match run {
            Ok((ast, _)) => Ok(ast),
            Err(e) => Err(e),
        }
    }
}

impl Lisi<Cache> {
    /// The files that the weaver wrote.
    pub fn into_cache(self) -> (files: Option<Files>)
        requires
            self.env().valid(),
        ensures
            files matches Some(written) && written.wf() && written@ == self.env()@,
    {
        Some(self.env.get_files())
    }
}

/// Weaving an inert snippet in an inert store leaves the store inert, and
/// nothing is to be done with the snippet.
pub proof fn lemma_inert_woven(store: Map<Seq<char>, SnippetSpec>, key: Seq<char>)
    requires
        inert(store),
        store.contains_key(key),
    ensures
        actions_of(woven_snippet(store[key], store.remove(key))) == Seq::<ActionSpec>::empty(),
        inert(store.insert(key, woven_snippet(store[key], store.remove(key)))),
{
    let snippet = store[key];
    let woven = woven_snippet(snippet, store.remove(key));
    assert(woven.kind == KindSpec::Plain);
    assert(woven.children.len() == snippet.children.len());
    assert forall|i: int| 0 <= i < woven.children.len() implies (#[trigger] woven.children[i]).kind
        == KindSpec::Plain by {
        assert(snippet.children[i].kind == KindSpec::Plain);
    }
    lemma_no_later_actions(woven.children, 1);
    assert(actions_of(woven) =~= Seq::<ActionSpec>::empty());
    let after = store.insert(key, woven);
    assert forall|k: Seq<char>| #[trigger] after.contains_key(k) implies after[k].kind
        == KindSpec::Plain && forall|i: int|
        0 <= i < after[k].children.len() ==> (#[trigger] after[k].children[i]).kind
            == KindSpec::Plain by {
        if k != key {
            assert(store.contains_key(k));
        }
    }
}

/// Inert contributions ask for nothing.
pub proof fn lemma_no_later_actions(children: Seq<SnippetSpec>, i: int)
    requires
        forall|k: int| 0 <= k < children.len() ==> (#[trigger] children[k]).kind == KindSpec::Plain,
    ensures
        crate::dispatch::later_actions(children, i) == Seq::<ActionSpec>::empty(),
    decreases children.len() - i,
{
    if 0 <= i < children.len() {
        lemma_no_later_actions(children, i + 1);
    }
}

} // verus!
