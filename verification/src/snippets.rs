//! The snippet store: a mapping from fragment identifier to the
//! contributions made under that name, in document order.

use crate::text::{from_chars, join, push_str, to_chars, views};
use vstd::prelude::*;

verus! {

/// What is done with a fragment once it is woven.
#[derive(Debug)]
pub enum SnippetType {
    /// Written to the file at this path.
    Save(String),
    /// Sent to this interpreter.
    Eval(String),
    /// Run as a script on the snippet store.
    Pipe,
    /// Left inert.
    Plain,
}

/// The mathematical value of a [`SnippetType`].
pub enum KindSpec {
    Save(Seq<char>),
    Eval(Seq<char>),
    Pipe,
    Plain,
}

impl View for SnippetType {
    type V = KindSpec;

    open spec fn view(&self) -> KindSpec {
        match self {
            SnippetType::Save(path) => KindSpec::Save(path@),
            SnippetType::Eval(interpreter) => KindSpec::Eval(interpreter@),
            SnippetType::Pipe => KindSpec::Pipe,
            SnippetType::Plain => KindSpec::Plain,
        }
    }
}

impl Clone for SnippetType {
    fn clone(&self) -> (r: Self)
        ensures
            r@ == self@,
    {
        match self {
            SnippetType::Save(path) => SnippetType::Save(path.clone()),
            SnippetType::Eval(interpreter) => SnippetType::Eval(interpreter.clone()),
            SnippetType::Pipe => SnippetType::Pipe,
            SnippetType::Plain => SnippetType::Plain,
        }
    }
}

/// One named fragment. With a single contribution the fields of the snippet
/// carry it and `children` is empty; from the second contribution on,
/// `children` holds every contribution in document order.
#[derive(Debug)]
pub struct Snippet {
    pub kind: SnippetType,
    pub content: String,
    pub raw_content: String,
    pub children: Vec<Snippet>,
    /// The identifiers the snippet refers to.
    pub depends_on: Vec<String>,
    pub attributes: Vec<(String, String)>,
    pub raw: bool,
}

/// The mathematical value of a [`Snippet`].
pub struct SnippetSpec {
    pub kind: KindSpec,
    pub content: Seq<char>,
    pub raw_content: Seq<char>,
    pub children: Seq<SnippetSpec>,
    pub depends_on: Seq<Seq<char>>,
    pub attributes: Seq<(Seq<char>, Seq<char>)>,
    pub raw: bool,
}

/// The views of a sequence of named attributes.
pub open spec fn pairs_view(s: Seq<(String, String)>) -> Seq<(Seq<char>, Seq<char>)> {
    Seq::new(s.len(), |i: int| (s[i].0@, s[i].1@))
}

/// The mathematical value of a snippet: its fields by their views, its
/// children by their values.
pub open spec fn snippet_view(s: Snippet) -> SnippetSpec
    decreases s,
{
    SnippetSpec {
        kind: s.kind@,
        content: s.content@,
        raw_content: s.raw_content@,
        children: Seq::new(
            s.children@.len(),
            |i: int|
                if 0 <= i < s.children@.len() {
                    snippet_view(s.children@[i])
                } else {
                    arbitrary()
                },
        ),
        depends_on: views(s.depends_on@),
        attributes: pairs_view(s.attributes@),
        raw: s.raw,
    }
}

impl View for Snippet {
    type V = SnippetSpec;

    open spec fn view(&self) -> SnippetSpec {
        snippet_view(*self)
    }
}

impl SnippetSpec {
    /// The woven texts of the contributions, in document order.
    pub open spec fn parts(self) -> Seq<Seq<char>> {
        if self.children.len() > 0 {
            Seq::new(self.children.len(), |i: int| self.children[i].content)
        } else {
            seq![self.content]
        }
    }

    /// The texts of the contributions as they stand in the document, in
    /// document order.
    pub open spec fn raw_parts(self) -> Seq<Seq<char>> {
        if self.children.len() > 0 {
            Seq::new(self.children.len(), |i: int| self.children[i].raw_content)
        } else {
            seq![self.raw_content]
        }
    }

    /// The snippet after one more contribution was made under its name.
    pub open spec fn appended(self, snippet: SnippetSpec) -> SnippetSpec {
        let children = if self.children.len() < 1 {
            seq![self]
        } else {
            self.children
        };
        SnippetSpec {
            children: children.push(snippet),
            depends_on: self.depends_on + snippet.depends_on,
            ..self
        }
    }
}

/// A copy of the given strings.
pub fn clone_strings(v: &Vec<String>) -> (r: Vec<String>)
    ensures
        views(r@) == views(v@),
{
    let mut r: Vec<String> = Vec::new();
    let mut i: usize = 0;
    while i < v.len()
        invariant
            i <= v.len(),
            views(r@) == views(v@).take(i as int),
        decreases v.len() - i,
    {
        let ghost before = views(r@);
        r.push(v[i].clone());
        assert(views(r@) =~= before.push(v@[i as int]@));
        assert(views(v@).take(i as int + 1) =~= before.push(v@[i as int]@));
        i += 1;
    }
    assert(views(v@).take(i as int) =~= views(v@));
    r
}

/// A copy of the given pairs of strings.
pub fn clone_pairs(v: &Vec<(String, String)>) -> (r: Vec<(String, String)>)
    ensures
        pairs_view(r@) == pairs_view(v@),
{
    let mut r: Vec<(String, String)> = Vec::new();
    let mut i: usize = 0;
    while i < v.len()
        invariant
            i <= v.len(),
            pairs_view(r@) == pairs_view(v@).take(i as int),
        decreases v.len() - i,
    {
        let ghost before = pairs_view(r@);
        r.push((v[i].0.clone(), v[i].1.clone()));
        assert(pairs_view(r@) =~= before.push((v@[i as int].0@, v@[i as int].1@)));
        assert(pairs_view(v@).take(i as int + 1) =~= before.push(
            (v@[i as int].0@, v@[i as int].1@),
        ));
        i += 1;
    }
    assert(pairs_view(v@).take(i as int) =~= pairs_view(v@));
    r
}

impl Clone for Snippet {
    fn clone(&self) -> (r: Self)
        ensures
            r@ == self@,
        decreases self,
    {
        let mut children: Vec<Snippet> = Vec::new();
        let mut i: usize = 0;
        while i < self.children.len()
            invariant
                i <= self.children.len(),
                children@.len() == i,
                forall|k: int| 0 <= k < i ==> children@[k]@ == self.children@[k]@,
            decreases self.children.len() - i,
        {
            let child = self.children[i].clone();
            children.push(child);
            i += 1;
        }
        let r = Snippet {
            kind: self.kind.clone(),
            content: self.content.clone(),
            raw_content: self.raw_content.clone(),
            children,
            depends_on: clone_strings(&self.depends_on),
            attributes: clone_pairs(&self.attributes),
            raw: self.raw,
        };
        assert(r@.children =~= self@.children);
        r
    }
}

impl Snippet {
    /// A single raw, inert contribution that holds `content`.
    pub fn plain_raw(content: &str) -> (r: Snippet)
        ensures
            r@ == (SnippetSpec {
                kind: KindSpec::Plain,
                content: content@,
                raw_content: content@,
                children: seq![],
                depends_on: seq![],
                attributes: seq![],
                raw: true,
            }),
    {
        let r = Snippet {
            kind: SnippetType::Plain,
            content: String::from_str(content),
            raw_content: String::from_str(content),
            children: Vec::new(),
            depends_on: Vec::new(),
            attributes: Vec::new(),
            raw: true,
        };
        assert(r@.children =~= seq![]);
        assert(r@.depends_on =~= seq![]);
        assert(r@.attributes =~= seq![]);
        r
    }

    /// The texts of the contributions, read off the executable value.
    pub proof fn lemma_parts(&self)
        ensures
            self@.children.len() == self.children@.len(),
            self.children@.len() > 0 ==> self@.parts().len() == self.children@.len()
                && self@.raw_parts().len() == self.children@.len(),
            forall|k: int|
                0 <= k < self.children@.len() ==> #[trigger] self@.parts()[k]
                    == self.children@[k].content@,
            forall|k: int|
                0 <= k < self.children@.len() ==> #[trigger] self@.raw_parts()[k]
                    == self.children@[k].raw_content@,
            self.children@.len() == 0 ==> self@.parts() == seq![self.content@]
                && self@.raw_parts() == seq![self.raw_content@],
    {
        let view = (*self).view();
        assert(view.children.len() == self.children@.len());
        assert(view.content == self.content@);
        assert forall|k: int| 0 <= k < self.children@.len() implies #[trigger] self@.parts()[k]
            == self.children@[k].content@ by {
            assert(view.children[k] == self.children@[k]@);
        }
        assert forall|k: int| 0 <= k < self.children@.len() implies #[trigger] self@.raw_parts()[k]
            == self.children@[k].raw_content@ by {
            assert(view.children[k] == self.children@[k]@);
        }
    }

    /// The woven texts of the contributions, joined by `join_str`.
    pub fn get_content(&self, join_str: &str) -> (r: String)
        ensures
            r@ == join(self@.parts(), join_str@),
    {
        proof {
            self.lemma_parts();
        }
        if self.children.len() > 0 {
            let ghost parts = self@.parts();
            let mut out: Vec<char> = to_chars(self.children[0].content.as_str());
            let mut i: usize = 1;
            assert(parts.take(1) =~= seq![parts[0]]);
            while i < self.children.len()
                invariant
                    1 <= i <= self.children.len(),
                    parts.len() == self.children@.len(),
                    forall|k: int|
                        0 <= k < self.children@.len() ==> #[trigger] parts[k]
                            == self.children@[k].content@,
                    out@ == join(parts.take(i as int), join_str@),
                decreases self.children.len() - i,
            {
                assert(parts.take(i as int + 1).drop_last() =~= parts.take(i as int));
                assert(parts.take(i as int + 1).last() == parts[i as int]);
                push_str(&mut out, join_str);
                push_str(&mut out, self.children[i].content.as_str());
                i += 1;
            }
            assert(parts.take(i as int) =~= parts);
            from_chars(&out)
        } else {
            self.content.clone()
        }
    }

    /// The texts of the contributions as they stand in the document, joined
    /// by `join_str`.
    pub fn get_raw_content(&self, join_str: &str) -> (r: String)
        ensures
            r@ == join(self@.raw_parts(), join_str@),
    {
        let out = self.raw_chars(join_str);
        from_chars(&out)
    }

    /// The characters of [`Snippet::get_raw_content`].
    pub fn raw_chars(&self, join_str: &str) -> (out: Vec<char>)
        ensures
            out@ == join(self@.raw_parts(), join_str@),
    {
        proof {
            self.lemma_parts();
        }
        if self.children.len() > 0 {
            let ghost parts = self@.raw_parts();
            let mut out: Vec<char> = to_chars(self.children[0].raw_content.as_str());
            let mut i: usize = 1;
            assert(parts.take(1) =~= seq![parts[0]]);
            while i < self.children.len()
                invariant
                    1 <= i <= self.children.len(),
                    parts.len() == self.children@.len(),
                    forall|k: int|
                        0 <= k < self.children@.len() ==> #[trigger] parts[k]
                            == self.children@[k].raw_content@,
                    out@ == join(parts.take(i as int), join_str@),
                decreases self.children.len() - i,
            {
                assert(parts.take(i as int + 1).drop_last() =~= parts.take(i as int));
                assert(parts.take(i as int + 1).last() == parts[i as int]);
                push_str(&mut out, join_str);
                push_str(&mut out, self.children[i].raw_content.as_str());
                i += 1;
            }
            assert(parts.take(i as int) =~= parts);
            out
        } else {
            to_chars(self.raw_content.as_str())
        }
    }
}

/// Whether two texts hold the same characters.
pub(crate) fn same_text(a: &str, b: &str) -> (r: bool)
    ensures
        r == (a@ == b@),
{
    let x = to_chars(a);
    let y = to_chars(b);
    if x.len() != y.len() {
        return false;
    }
    let mut i: usize = 0;
    while i < x.len()
        invariant
            i <= x.len(),
            x.len() == y.len(),
            x@ == a@,
            y@ == b@,
            forall|k: int| 0 <= k < i ==> x@[k] == y@[k],
        decreases x.len() - i,
    {
        if x[i] != y[i] {
            return false;
        }
        i += 1;
    }
    assert(x@ =~= y@);
    true
}

/// The snippet store. Every name stands in it at most once; the entries
/// keep the order in which their names first arrived.
pub struct SnippetDB {
    snippets: Vec<(String, Snippet)>,
}

impl View for SnippetDB {
    type V = Map<Seq<char>, SnippetSpec>;

    closed spec fn view(&self) -> Map<Seq<char>, SnippetSpec> {
        Map::new(
            |k: Seq<char>| exists|i: int| self.holds(i, k),
            |k: Seq<char>| self.snippets@[choose|i: int| self.holds(i, k)].1@,
        )
    }
}

impl SnippetDB {
    /// Whether entry `i` of the store carries the name `k`.
    pub closed spec fn holds(&self, i: int, k: Seq<char>) -> bool {
        0 <= i < self.snippets@.len() && self.snippets@[i].0@ == k
    }

    /// Every name stands in the store at most once.
    pub closed spec fn wf(&self) -> bool {
        forall|i: int, j: int|
            0 <= i < j < self.snippets@.len() ==> self.snippets@[i].0@ != self.snippets@[j].0@
    }

    /// The names of the store in the order of their first arrival.
    pub closed spec fn names(&self) -> Seq<Seq<char>> {
        Seq::new(self.snippets@.len(), |i: int| self.snippets@[i].0@)
    }

    /// An empty store.
    pub fn new() -> (db: SnippetDB)
        ensures
            db.wf(),
            db@ == Map::<Seq<char>, SnippetSpec>::empty(),
            db.names() == Seq::<Seq<char>>::empty(),
    {
        let db = SnippetDB { snippets: Vec::new() };
        assert(db@ =~= Map::<Seq<char>, SnippetSpec>::empty());
        assert(db.names() =~= Seq::<Seq<char>>::empty());
        db
    }

    fn position(&self, name: &str) -> (r: Option<usize>)
        ensures
            match r {
                Some(i) => self.holds(i as int, name@),
                None => forall|i: int| !self.holds(i, name@),
            },
    {
        let mut i: usize = 0;
        while i < self.snippets.len()
            invariant
                i <= self.snippets.len(),
                forall|k: int| 0 <= k < i ==> self.snippets@[k].0@ != name@,
            decreases self.snippets.len() - i,
        {
            if same_text(self.snippets[i].0.as_str(), name) {
                return Some(i);
            }
            i += 1;
        }
        None
    }

    /// Stores a contribution under `name`: as the snippet of that name if
    /// there is none yet, else as one more of its children.
    pub fn store(&mut self, name: String, snippet: Snippet)
        requires
            old(self).wf(),
        ensures
            final(self).wf(),
            final(self)@ == old(self)@.insert(
                name@,
                if old(self)@.contains_key(name@) {
                    old(self)@[name@].appended(snippet@)
                } else {
                    snippet@
                },
            ),
            final(self).names() == if old(self)@.contains_key(name@) {
                old(self).names()
            } else {
                old(self).names().push(name@)
            },
    {
        let ghost before = *self;
        match self.position(name.as_str()) {
            Some(i) => {
                let mut entries: Vec<(String, Snippet)> = Vec::new();
                core::mem::swap(&mut entries, &mut self.snippets);
                let (key, base) = entries.remove(i);
                let mut base = base;
                proof {
                    base.lemma_parts();
                }
                let ghost old_base = base@;
                if base.children.len() < 1 {
                    let other = base.clone();
                    base.children.push(other);
                }
                let mut k: usize = 0;
                while k < snippet.depends_on.len()
                    invariant
                        k <= snippet.depends_on.len(),
                        views(base.depends_on@) == old_base.depends_on + views(
                            snippet.depends_on@,
                        ).take(k as int),
                        base.kind@ == old_base.kind,
                        base.content@ == old_base.content,
                        base.raw_content@ == old_base.raw_content,
                        base.raw == old_base.raw,
                        pairs_view(base.attributes@) == old_base.attributes,
                        base.children@.len() > 0,
                        base@.children == if old_base.children.len() < 1 {
                            seq![old_base]
                        } else {
                            old_base.children
                        },
                    decreases snippet.depends_on.len() - k,
                {
                    let ghost deps = views(base.depends_on@);
                    let ghost children = base@.children;
                    base.depends_on.push(snippet.depends_on[k].clone());
                    assert(views(base.depends_on@) =~= deps.push(snippet.depends_on@[k as int]@));
                    assert(views(snippet.depends_on@).take(k as int + 1) =~= views(
                        snippet.depends_on@,
                    ).take(k as int).push(snippet.depends_on@[k as int]@));
                    assert(base@.children =~= children);
                    k += 1;
                }
                assert(views(snippet.depends_on@).take(k as int) =~= views(snippet.depends_on@));
                let ghost children = base@.children;
                let ghost added = snippet@;
                base.children.push(snippet);
                assert(base@.children =~= children.push(added));
                assert(base@ == old_base.appended(added));
                entries.insert(i, (key, base));
                self.snippets = entries;
                assert(self.snippets@.len() == before.snippets@.len());
                assert forall|j: int| 0 <= j < self.snippets@.len() implies self.snippets@[j].0@
                    == before.snippets@[j].0@ by {}
                assert forall|j: int|
                    0 <= j < self.snippets@.len() && j != i implies self.snippets@[j].1@
                    == before.snippets@[j].1@ by {}
                assert(self.names() =~= before.names());
                assert forall|k: Seq<char>| self@.contains_key(k) <==> before@.insert(
                    name@,
                    old_base.appended(added),
                ).contains_key(k) by {
                    if self@.contains_key(k) {
                        let j = choose|j: int| self.holds(j, k);
                        assert(before.holds(j, k));
                    }
                    if before@.contains_key(k) {
                        let j = choose|j: int| before.holds(j, k);
                        assert(self.holds(j, k));
                    }
                    if k == name@ {
                        assert(self.holds(i as int, k));
                    }
                }
                assert(before.holds(i as int, name@));
                assert forall|k: Seq<char>| self@.contains_key(k) implies self@[k]
                    == before@.insert(name@, old_base.appended(added))[k] by {
                    let j = choose|j: int| self.holds(j, k);
                    assert(before.holds(j, k));
                    let j2 = choose|j: int| before.holds(j, k);
                }
                assert(self@ =~= before@.insert(name@, old_base.appended(added)));
                assert forall|a: int, b: int|
                    0 <= a < b < self.snippets@.len() implies self.snippets@[a].0@
                    != self.snippets@[b].0@ by {
                    assert(before.snippets@[a].0@ != before.snippets@[b].0@);
                }
            },
            None => {
                let ghost added = snippet@;
                self.snippets.push((name, snippet));
                let ghost n = before.snippets@.len() as int;
                assert(self.names() =~= before.names().push(name@));
                assert(self.holds(n, name@));
                assert forall|k: Seq<char>| self@.contains_key(k) <==> before@.insert(
                    name@,
                    added,
                ).contains_key(k) by {
                    if self@.contains_key(k) {
                        let j = choose|j: int| self.holds(j, k);
                        if j < n {
                            assert(before.holds(j, k));
                        }
                    }
                    if before@.contains_key(k) {
                        let j = choose|j: int| before.holds(j, k);
                        assert(self.holds(j, k));
                    }
                }
                assert forall|k: Seq<char>| self@.contains_key(k) implies self@[k]
                    == before@.insert(name@, added)[k] by {
                    let j = choose|j: int| self.holds(j, k);
                    if j < n {
                        assert(before.holds(j, k));
                        let j2 = choose|j: int| before.holds(j, k);
                    }
                }
                assert(self@ =~= before@.insert(name@, added));
                assert forall|a: int, b: int|
                    0 <= a < b < self.snippets@.len() implies self.snippets@[a].0@
                    != self.snippets@[b].0@ by {
                    if b < n {
                        assert(before.snippets@[a].0@ != before.snippets@[b].0@);
                    } else {
                        assert(!before.holds(a, name@));
                    }
                }
            },
        }
    }

    /// The snippet of the given name.
    pub fn get(&self, name: &str) -> (r: Option<&Snippet>)
        requires
            self.wf(),
        ensures
            match r {
                Some(snippet) => self@.contains_key(name@) && snippet@ == self@[name@],
                None => !self@.contains_key(name@),
            },
    {
        match self.position(name) {
            Some(i) => {
                proof {
                    let j = choose|j: int| self.holds(j, name@);
                }
                Some(&self.snippets[i].1)
            },
            None => None,
        }
    }

    /// Takes the snippet of the given name out of the store.
    pub fn pop(&mut self, name: &str) -> (r: Option<Snippet>)
        requires
            old(self).wf(),
        ensures
            final(self).wf(),
            final(self)@ == old(self)@.remove(name@),
            final(self).names() == without(old(self).names(), name@),
            match r {
                Some(snippet) => old(self)@.contains_key(name@) && snippet@ == old(self)@[name@],
                None => !old(self)@.contains_key(name@),
            },
    {
        let ghost before = *self;
        match self.position(name) {
            Some(i) => {
                proof {
                    let j = choose|j: int| before.holds(j, name@);
                }
                let (_, snippet) = self.snippets.remove(i);
                assert forall|k: Seq<char>| self@.contains_key(k) <==> before@.remove(
                    name@,
                ).contains_key(k) by {
                    if self@.contains_key(k) {
                        let j = choose|j: int| self.holds(j, k);
                        if j < i {
                            assert(before.holds(j, k));
                        } else {
                            assert(before.holds(j + 1, k));
                        }
                    }
                    if before@.contains_key(k) && k != name@ {
                        let j = choose|j: int| before.holds(j, k);
                        if j < i {
                            assert(self.holds(j, k));
                        } else {
                            assert(self.holds(j - 1, k));
                        }
                    }
                }
                assert forall|k: Seq<char>| self@.contains_key(k) implies self@[k]
                    == before@.remove(name@)[k] by {
                    let j = choose|j: int| self.holds(j, k);
                    if j < i {
                        assert(before.holds(j, k));
                    } else {
                        assert(before.holds(j + 1, k));
                    }
                    let j2 = choose|j: int| before.holds(j, k);
                }
                assert(self@ =~= before@.remove(name@));
                proof {
                    assert forall|a: int, b: int|
                        0 <= a < b < before.names().len() implies before.names()[a]
                        != before.names()[b] by {
                        assert(before.snippets@[a].0@ != before.snippets@[b].0@);
                    }
                    lemma_without_remove(before.names(), i as int, name@);
                    assert(self.names() =~= before.names().remove(i as int));
                    assert forall|a: int, b: int|
                        0 <= a < b < self.snippets@.len() implies self.snippets@[a].0@
                        != self.snippets@[b].0@ by {
                        let a0 = if a < i { a } else { a + 1 };
                        let b0 = if b < i { b } else { b + 1 };
                        assert(before.snippets@[a0].0@ != before.snippets@[b0].0@);
                    }
                }
                Some(snippet)
            },
            None => {
                assert(self@ =~= before@.remove(name@));
                proof {
                    assert forall|a: int| 0 <= a < before.names().len() implies before.names()[a]
                        != name@ by {
                        assert(!before.holds(a, name@));
                    }
                    lemma_without_absent(before.names(), name@);
                }
                None
            },
        }
    }

    /// The entries of the store in the order in which their names first
    /// arrived.
    pub fn iter(&self) -> (r: &Vec<(String, Snippet)>)
        requires
            self.wf(),
        ensures
            r@.len() == self.names().len(),
            forall|i: int|
                0 <= i < r@.len() ==> #[trigger] r@[i].0@ == self.names()[i] && self@.contains_key(
                    r@[i].0@,
                ) && self@[r@[i].0@] == r@[i].1@,
            forall|k: Seq<char>| self@.contains_key(k) <==> self.names().contains(k),
            forall|i: int, j: int|
                0 <= i < j < self.names().len() ==> self.names()[i] != self.names()[j],
    {
        assert forall|k: Seq<char>| self@.contains_key(k) <==> self.names().contains(k) by {
            if self@.contains_key(k) {
                let i = choose|i: int| self.holds(i, k);
                assert(self.names()[i] == k);
            }
            if self.names().contains(k) {
                let i = choose|i: int| 0 <= i < self.names().len() && self.names()[i] == k;
                assert(self.holds(i, k));
            }
        }
        assert forall|i: int| 0 <= i < self.snippets@.len() implies #[trigger] self.snippets@[i].0@
            == self.names()[i] && self@.contains_key(self.snippets@[i].0@)
            && self@[self.snippets@[i].0@] == self.snippets@[i].1@ by {
            assert(self.holds(i, self.snippets@[i].0@));
            let j = choose|j: int| self.holds(j, self.snippets@[i].0@);
        }
        &self.snippets
    }

    /// How many names the store knows.
    pub fn len(&self) -> (r: usize)
        requires
            self.wf(),
        ensures
            self@.dom().finite(),
            r == self@.dom().len(),
    {
        proof {
            let names = self.names();
            assert(names.no_duplicates());
            assert forall|k: Seq<char>| self@.dom().contains(k) <==> names.to_set().contains(
                k,
            ) by {
                if self@.dom().contains(k) {
                    let i = choose|i: int| self.holds(i, k);
                    assert(names[i] == k);
                }
                if names.contains(k) {
                    let i = choose|i: int| 0 <= i < names.len() && names[i] == k;
                    assert(self.holds(i, k));
                }
            }
            assert(self@.dom() =~= names.to_set());
            names.unique_seq_to_set();
            vstd::seq_lib::seq_to_set_is_finite(names);
        }
        self.snippets.len()
    }
}

/// The sequence without the occurrences of `name`.
pub open spec fn without(s: Seq<Seq<char>>, name: Seq<char>) -> Seq<Seq<char>>
    decreases s.len(),
{
    if s.len() == 0 {
        seq![]
    } else if s.last() == name {
        without(s.drop_last(), name)
    } else {
        without(s.drop_last(), name).push(s.last())
    }
}

/// Dropping the one occurrence of a value from a sequence without
/// repetitions leaves the sequence without that value.
pub proof fn lemma_without_remove(s: Seq<Seq<char>>, i: int, name: Seq<char>)
    requires
        0 <= i < s.len(),
        s[i] == name,
        forall|a: int, b: int| 0 <= a < b < s.len() ==> s[a] != s[b],
    ensures
        without(s, name) == s.remove(i),
    decreases s.len(),
{
    if i == s.len() - 1 {
        assert(s.remove(i) =~= s.drop_last());
        lemma_without_absent(s.drop_last(), name);
    } else {
        lemma_without_remove(s.drop_last(), i, name);
        assert(s.remove(i) =~= s.drop_last().remove(i).push(s.last()));
    }
}

/// A sequence in which a value does not occur is the sequence without it.
pub proof fn lemma_without_absent(s: Seq<Seq<char>>, name: Seq<char>)
    requires
        forall|a: int| 0 <= a < s.len() ==> s[a] != name,
    ensures
        without(s, name) == s,
    decreases s.len(),
{
    if s.len() > 0 {
        lemma_without_absent(s.drop_last(), name);
        assert(s.drop_last().push(s.last()) =~= s);
    }
}

} // verus!
