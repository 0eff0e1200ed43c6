//! The host side of pipe scripts: what a script can ask of the snippet
//! store, and the call into the script engine.

use crate::snippets::{clone_pairs, KindSpec, Snippet, SnippetDB, SnippetSpec};
use crate::text::{join, to_chars, views};
use rhai::{Dynamic, Engine, Scope};
use std::cell::RefCell;
use std::rc::Rc;
use vstd::prelude::*;

verus! {

#[verifier::external_type_specification]
#[verifier::external_body]
pub struct ExDynamic(Dynamic);

#[verifier::external_type_specification]
#[verifier::external_body]
pub struct ExEngine(Engine);

/// How many operations a script may take before it is stopped.
pub const MAX_OPERATIONS: u64 = 10_000_000;

/// The object `lisi` that a script sees: a handle on the snippet store.
pub struct LisiWrapper {
    pub snippets: SnippetDB,
}

/// What a script learns of a snippet.
#[derive(Debug)]
pub struct SnippetRecord {
    /// The texts of the contributions as they stand in the document,
    /// joined by line feeds.
    pub content: String,
    /// The named attributes of the snippet.
    pub attrs: Vec<(String, String)>,
}

/// Whether `a` comes before `b` or is equal to it, character by character.
pub open spec fn lex_le(a: Seq<char>, b: Seq<char>) -> bool
    decreases a.len(),
{
    if a.len() == 0 {
        true
    } else if b.len() == 0 {
        false
    } else if a[0] != b[0] {
        a[0] < b[0]
    } else {
        lex_le(a.drop_first(), b.drop_first())
    }
}

/// Whether the texts stand in ascending order.
pub open spec fn ascending(s: Seq<Seq<char>>) -> bool {
    forall|i: int, j: int| 0 <= i < j < s.len() ==> lex_le(s[i], s[j])
}

/// Of two texts one comes before the other or is equal to it.
pub proof fn lemma_lex_total(a: Seq<char>, b: Seq<char>)
    ensures
        lex_le(a, b) || lex_le(b, a),
    decreases a.len(),
{
    if a.len() > 0 && b.len() > 0 && a[0] == b[0] {
        lemma_lex_total(a.drop_first(), b.drop_first());
    }
}

/// The order of texts is transitive.
pub proof fn lemma_lex_transitive(a: Seq<char>, b: Seq<char>, c: Seq<char>)
    requires
        lex_le(a, b),
        lex_le(b, c),
    ensures
        lex_le(a, c),
    decreases a.len(),
{
    if a.len() > 0 && b.len() > 0 && c.len() > 0 && a[0] == b[0] && b[0] == c[0] {
        lemma_lex_transitive(a.drop_first(), b.drop_first(), c.drop_first());
    }
}

/// Whether `a` comes before `b` or is equal to it.
pub fn text_le(a: &str, b: &str) -> (r: bool)
    ensures
        r == lex_le(a@, b@),
{
    let x = to_chars(a);
    let y = to_chars(b);
    let mut i: usize = 0;
    assert(x@.skip(0) =~= x@);
    assert(y@.skip(0) =~= y@);
    while i < x.len() && i < y.len()
        invariant
            i <= x.len(),
            i <= y.len(),
            x@ == a@,
            y@ == b@,
            lex_le(x@, y@) == lex_le(x@.skip(i as int), y@.skip(i as int)),
        decreases x.len() - i,
    {
        assert(x@.skip(i as int).drop_first() =~= x@.skip(i as int + 1));
        assert(y@.skip(i as int).drop_first() =~= y@.skip(i as int + 1));
        assert(x@.skip(i as int)[0] == x@[i as int]);
        assert(y@.skip(i as int)[0] == y@[i as int]);
        if x[i] != y[i] {
            return x[i] < y[i];
        }
        i += 1;
    }
    assert(x@.skip(i as int).len() == x@.len() - i);
    assert(y@.skip(i as int).len() == y@.len() - i);
    i >= x.len()
}

/// The texts in ascending order.
pub fn sort_texts(names: Vec<String>) -> (r: Vec<String>)
    ensures
        ascending(views(r@)),
        r@.len() == names@.len(),
        forall|k: Seq<char>| views(r@).contains(k) <==> views(names@).contains(k),
{
    let mut r: Vec<String> = Vec::new();
    let mut names = names;
    let ghost all = views(names@);
    let n = names.len();
    let mut i: usize = 0;
    while i < n
        invariant
            i <= n,
            n == all.len(),
            names@.len() == n - i,
            views(names@) == all.skip(i as int),
            r@.len() == i,
            ascending(views(r@)),
            forall|k: Seq<char>| views(r@).contains(k) <==> all.take(i as int).contains(k),
        decreases n - i,
    {
        let ghost rest = names@;
        assert(views(rest)[0] == rest[0]@);
        let next = names.remove(0);
        assert(names@ =~= rest.skip(1));
        assert(views(names@) =~= views(rest).skip(1));
        assert(views(names@) =~= all.skip(i as int + 1));
        assert(next@ == all[i as int]);
        let ghost before = views(r@);
        let mut p: usize = 0;
        while p < r.len() && text_le(r[p].as_str(), next.as_str())
            invariant
                p <= r.len(),
                before == views(r@),
                forall|j: int| 0 <= j < p ==> lex_le(before[j], next@),
            decreases r.len() - p,
        {
            p += 1;
        }
        proof {
            if p < r.len() {
                lemma_lex_total(before[p as int], next@);
                assert forall|j: int| p <= j < before.len() implies lex_le(next@, before[j]) by {
                    if j > p {
                        lemma_lex_transitive(next@, before[p as int], before[j]);
                    }
                }
            }
        }
        r.insert(p, next);
        assert(views(r@) =~= before.insert(p as int, all[i as int]));
        assert forall|k: Seq<char>| views(r@).contains(k) <==> all.take(i as int + 1).contains(
            k,
        ) by {
            let now = views(r@);
            let old_part = all.take(i as int);
            let new_part = all.take(i as int + 1);
            if now.contains(k) {
                let j = choose|j: int| 0 <= j < now.len() && now[j] == k;
                if j < p {
                    assert(before[j] == k);
                    assert(before.contains(k));
                    let m = choose|m: int| 0 <= m < old_part.len() && old_part[m] == k;
                    assert(new_part[m] == k);
                } else if j == p {
                    assert(new_part[i as int] == k);
                } else {
                    assert(before[j - 1] == k);
                    assert(before.contains(k));
                    let m = choose|m: int| 0 <= m < old_part.len() && old_part[m] == k;
                    assert(new_part[m] == k);
                }
            }
            if all.take(i as int + 1).contains(k) {
                let m = choose|m: int| 0 <= m < new_part.len() && new_part[m] == k;
                if m < i {
                    assert(old_part[m] == k);
                    assert(before.contains(k));
                    let j = choose|j: int| 0 <= j < before.len() && before[j] == k;
                    if j < p {
                        assert(now[j] == k);
                    } else {
                        assert(now[j + 1] == k);
                    }
                } else {
                    assert(now[p as int] == k);
                }
            }
        }
        assert forall|a: int, b: int| 0 <= a < b < views(r@).len() implies lex_le(
            views(r@)[a],
            views(r@)[b],
        ) by {
            let now = views(r@);
            if b < p {
                assert(now[a] == before[a] && now[b] == before[b]);
            } else if b == p {
                assert(now[a] == before[a]);
            } else if a < p {
                assert(now[a] == before[a] && now[b] == before[b - 1]);
            } else if a == p {
                assert(now[b] == before[b - 1]);
            } else {
                assert(now[a] == before[a - 1] && now[b] == before[b - 1]);
            }
        }
        i += 1;
    }
    assert(all.take(i as int) =~= all);
    r
}

impl LisiWrapper {
    /// Replaces what the store holds under `name` by a single raw, inert
    /// contribution with this content.
    pub fn store(&mut self, name: &str, content: &str)
        requires
            old(self).snippets.wf(),
        ensures
            final(self).snippets.wf(),
            final(self).snippets@ == old(self).snippets@.insert(
                name@,
                SnippetSpec {
                    kind: KindSpec::Plain,
                    content: content@,
                    raw_content: content@,
                    children: seq![],
                    depends_on: seq![],
                    attributes: seq![],
                    raw: true,
                },
            ),
    {
        let _ = self.snippets.pop(name);
        let snippet = Snippet::plain_raw(content);
        let ghost added = snippet@;
        self.snippets.store(String::from_str(name), snippet);
        assert(self.snippets@ =~= old(self).snippets@.insert(name@, added));
    }

    /// What the store holds under `name`: the texts of the contributions
    /// as they stand in the document, joined by line feeds, and the named
    /// attributes. `None` if the store does not know the name.
    pub fn get_snippet(&self, name: &str) -> (r: Option<SnippetRecord>)
        requires
            self.snippets.wf(),
        ensures
            match r {
                Some(record) => self.snippets@.contains_key(name@) && record.content@ == join(
                    self.snippets@[name@].raw_parts(),
                    seq!['\n'],
                ) && crate::snippets::pairs_view(record.attrs@)
                    == self.snippets@[name@].attributes,
                None => !self.snippets@.contains_key(name@),
            },
    {
        proof {
            reveal_strlit("\n");
            assert("\n"@ =~= seq!['\n']);
        }
        match self.snippets.get(name) {
            Some(snippet) => Some(
                SnippetRecord {
                    content: snippet.get_raw_content("\n"),
                    attrs: clone_pairs(&snippet.attributes),
                },
            ),
            None => None,
        }
    }

    /// The names that the store knows, in ascending order, each once.
    pub fn get_snippet_names(&self) -> (r: Vec<String>)
        requires
            self.snippets.wf(),
        ensures
            ascending(views(r@)),
            r@.len() == self.snippets.names().len(),
            forall|k: Seq<char>| views(r@).contains(k) <==> self.snippets@.contains_key(k),
    {
        let entries = self.snippets.iter();
        let mut names: Vec<String> = Vec::new();
        let mut i: usize = 0;
        while i < entries.len()
            invariant
                i <= entries.len(),
                entries@.len() == self.snippets.names().len(),
                forall|k: int|
                    0 <= k < entries@.len() ==> #[trigger] entries@[k].0@
                        == self.snippets.names()[k],
                views(names@) == self.snippets.names().take(i as int),
            decreases entries.len() - i,
        {
            let ghost before = views(names@);
            names.push(entries[i].0.clone());
            assert(views(names@) =~= before.push(entries@[i as int].0@));
            assert(self.snippets.names().take(i as int + 1) =~= before.push(
                entries@[i as int].0@,
            ));
            i += 1;
        }
        assert(self.snippets.names().take(i as int) =~= self.snippets.names());
        sort_texts(names)
    }
}

impl LisiWrapper {
    /// What the store holds under `name`, as a script sees it.
    pub(crate) fn script_snippet(&self, name: &str) -> Dynamic
        requires
            self.snippets.wf(),
    {
        script_record(self.get_snippet(name))
    }

    /// The names that the store knows, in ascending order, as a script
    /// sees them.
    pub(crate) fn script_snippet_names(&self) -> (r: Vec<Dynamic>)
        requires
            self.snippets.wf(),
        ensures
            r@.len() == self.snippets.names().len(),
    {
        script_names(self.get_snippet_names())
    }
}

/// What a script sees of a snippet: a map with the entries `content` and
/// `attrs`, or the unit value where there is no such snippet.
///
/// Trusted: the conversion of a record into script values through
/// `Dynamic::from`, `Map::insert` and `Dynamic::UNIT`. Nothing is stated
/// of the result.
#[verifier::external_body]
pub(crate) fn script_record(record: Option<SnippetRecord>) -> Dynamic {
    match record {
        Some(record) => {
            let attrs: rhai::Map =
                record.attrs.into_iter().map(|(k, v)| (k.into(), v.into())).collect();
            let mut out = rhai::Map::new();
            out.insert("content".into(), record.content.into());
            out.insert("attrs".into(), attrs.into());
            out.into()
        },
        None => Dynamic::UNIT,
    }
}

/// The names as an array of script values.
///
/// Trusted: `Dynamic::from` turns each name into one script value.
#[verifier::external_body]
pub(crate) fn script_names(names: Vec<String>) -> (r: Vec<Dynamic>)
    ensures
        r@.len() == names@.len(),
{
    names.into_iter().map(Dynamic::from).collect()
}

/// Whether a snippet is one that a script made: a single raw, inert
/// contribution.
pub open spec fn script_made(snippet: SnippetSpec) -> bool {
    snippet == (SnippetSpec {
        kind: KindSpec::Plain,
        content: snippet.content,
        raw_content: snippet.content,
        children: seq![],
        depends_on: seq![],
        attributes: seq![],
        raw: true,
    })
}

/// Whether `after` is a store that a script can leave of `before`: every
/// name is still there, and each name holds what it held or a snippet that
/// a script made.
pub open spec fn scripted(
    before: Map<Seq<char>, SnippetSpec>,
    after: Map<Seq<char>, SnippetSpec>,
) -> bool {
    &&& forall|k: Seq<char>| before.contains_key(k) ==> #[trigger] after.contains_key(k)
    &&& forall|k: Seq<char>| #[trigger]
        after.contains_key(k) ==> (before.contains_key(k) && after[k] == before[k]) || script_made(
            after[k],
        )
}

/// A script engine that knows the three functions of the host: `store`,
/// `get_snippet` and `get_snippet_names`, each of which hands its
/// arguments to the host in the cell.
///
/// Trusted: `Engine::new`, `Engine::set_max_operations` and
/// `Engine::register_fn` of rhai. Nothing is stated of the engine.
#[verifier::external_body]
pub(crate) fn script_engine(max_operations: u64) -> Engine {
    let mut engine = Engine::new();
    engine.set_max_operations(max_operations);
    engine.register_fn("store", |h: &mut Handle, n: &str, c: &str| h.borrow_mut().store(n, c));
    engine.register_fn("get_snippet", |h: &mut Handle, n: &str| h.borrow().script_snippet(n));
    engine.register_fn("get_snippet_names", |h: &mut Handle| h.borrow().script_snippet_names());
    engine
}

/// Runs `content` as a script that sees the host as the constant `lisi`,
/// and returns the host as the script left it, and whether the script ran
/// to its end without an error.
///
/// Trusted: `Engine::eval_with_scope` of rhai, on an engine made by
/// [`script_engine`]. A script reaches the store only through the three
/// functions of the host, of which `store` alone changes it: so the store
/// stays well-formed, keeps every name, and holds under each name what it
/// held or what `store` puts there. Which names a script stores, and
/// what, is not stated. The engine stops a script that takes more
/// operations than it was made for. The host is taken out of the cell that
/// the script shared, however many handles on the cell are left; `spare`
/// takes its place there.
#[verifier::external_body]
pub(crate) fn run_script(engine: Engine, content: &str, host: LisiWrapper, spare: LisiWrapper) -> (r:
    (LisiWrapper, bool))
    requires
        host.snippets.wf(),
        spare.snippets.wf(),
    ensures
        r.0.snippets.wf(),
        scripted(host.snippets@, r.0.snippets@),
{
    let handle = Rc::new(RefCell::new(host));
    let mut scope = Scope::new();
    scope.push_constant("lisi", handle.clone());
    let ok = engine.eval_with_scope::<()>(&mut scope, content).is_ok();
    (handle.replace(spare), ok)
}

/// The handle on the host that the script engine keeps.
pub type Handle = Rc<RefCell<LisiWrapper>>;

} // verus!
