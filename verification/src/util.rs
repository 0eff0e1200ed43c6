//! The environment: what the weaver and the readers ask of the world
//! around them, and the in-memory environment that records it.

use crate::snippets::{pairs_view, same_text};
use crate::text::views;
use vstd::prelude::*;

verus! {

/// What an environment can fail with.
#[derive(Debug, PartialEq, Eq)]
pub enum AsciidoctrineError {
    /// The file is not there.
    NotFound,
    /// The interpreter could not be run.
    Childprocess,
    /// The document tree does not have the shape a writer needs.
    MalformedAst,
    /// Reading or writing failed; the text says how.
    Io(String),
}

/// Files and interpreters, as the weaver sees them. Nothing is promised of
/// what an environment answers: that is for each environment to say.
pub trait Environment {
    /// Whether the environment is in a state in which it can be asked. An
    /// environment that says nothing else always is.
    open spec fn valid(&self) -> bool {
        true
    }

    /// What this environment says of being asked to write `content` to the
    /// file at `path`: whether `after` is how that leaves it and `answer`
    /// what it answers. An environment that says nothing else admits any
    /// outcome.
    open spec fn wrote(
        &self,
        path: Seq<char>,
        content: Seq<char>,
        after: &Self,
        answer: Result<(), AsciidoctrineError>,
    ) -> bool {
        true
    }

    /// What this environment says of being asked to run `interpreter` on
    /// `content`: whether `after` is how that leaves it and `answer` what it
    /// answers. An environment that says nothing else admits any outcome.
    open spec fn evaluated(
        &self,
        interpreter: Seq<char>,
        content: Seq<char>,
        after: &Self,
        answer: Result<(bool, String, String), AsciidoctrineError>,
    ) -> bool {
        true
    }

    /// The content of the file at `path`.
    fn read_to_string(&mut self, path: &str) -> (r: Result<String, AsciidoctrineError>)
        requires
            old(self).valid(),
        ensures
            final(self).valid(),
    ;

    /// Makes `content` the content of the file at `path`.
    fn write(&mut self, path: &str, content: &str) -> (r: Result<(), AsciidoctrineError>)
        requires
            old(self).valid(),
        ensures
            final(self).valid(),
            old(self).wrote(path@, content@, &*final(self), r),
    ;

    /// Runs `interpreter` on `content`: whether it succeeded, what it wrote
    /// to its output and what to its error stream.
    fn eval(&mut self, interpreter: &str, content: &str) -> (r: Result<
        (bool, String, String),
        AsciidoctrineError,
    >)
        requires
            old(self).valid(),
        ensures
            final(self).valid(),
            old(self).evaluated(interpreter@, content@, &*final(self), r),
    ;
}

/// Whether writing `content` to a file changes it: `held` is what the
/// file holds, if it is there. A file that holds the content already is
/// left alone, so that nothing downstream takes it for new.
pub fn needs_write(held: Option<&str>, content: &str) -> (r: bool)
    ensures
        r == !(held matches Some(text) && text@ == content@),
{
    match held {
        Some(text) => !same_text(text, content),
        None => true,
    }
}

/// A set of files held in memory: paths with their contents, each path
/// once.
#[derive(Debug)]
pub struct Files {
    entries: Vec<(String, String)>,
}

impl View for Files {
    type V = Map<Seq<char>, Seq<char>>;

    closed spec fn view(&self) -> Map<Seq<char>, Seq<char>> {
        Map::new(
            |k: Seq<char>| exists|i: int| self.holds(i, k),
            |k: Seq<char>| self.entries@[choose|i: int| self.holds(i, k)].1@,
        )
    }
}

impl Files {
    /// Whether entry `i` carries the path `k`.
    pub closed spec fn holds(&self, i: int, k: Seq<char>) -> bool {
        0 <= i < self.entries@.len() && self.entries@[i].0@ == k
    }

    /// Every path stands among the files at most once.
    pub closed spec fn wf(&self) -> bool {
        forall|i: int, j: int|
            0 <= i < j < self.entries@.len() ==> self.entries@[i].0@ != self.entries@[j].0@
    }

    /// No files.
    pub fn new() -> (files: Files)
        ensures
            files.wf(),
            files@ == Map::<Seq<char>, Seq<char>>::empty(),
    {
        let files = Files { entries: Vec::new() };
        assert(files@ =~= Map::<Seq<char>, Seq<char>>::empty());
        files
    }

    fn position(&self, path: &str) -> (r: Option<usize>)
        ensures
            match r {
                Some(i) => self.holds(i as int, path@),
                None => forall|i: int| !self.holds(i, path@),
            },
    {
        let mut i: usize = 0;
        while i < self.entries.len()
            invariant
                i <= self.entries.len(),
                forall|k: int| 0 <= k < i ==> self.entries@[k].0@ != path@,
            decreases self.entries.len() - i,
        {
            if same_text(self.entries[i].0.as_str(), path) {
                return Some(i);
            }
            i += 1;
        }
        None
    }

    /// Whether there is no file.
    pub fn is_empty(&self) -> (r: bool)
        requires
            self.wf(),
        ensures
            r == (self@ == Map::<Seq<char>, Seq<char>>::empty()),
    {
        if self.entries.len() == 0 {
            assert(self@ =~= Map::<Seq<char>, Seq<char>>::empty());
            true
        } else {
            assert(self.holds(0, self.entries@[0].0@));
            assert(self@.contains_key(self.entries@[0].0@));
            false
        }
    }

    /// The files as pairs of path and content, each path once.
    pub fn into_entries(self) -> (r: Vec<(String, String)>)
        requires
            self.wf(),
        ensures
            forall|i: int|
                0 <= i < r@.len() ==> self@.contains_key(#[trigger] r@[i].0@) && self@[r@[i].0@]
                    == r@[i].1@,
            forall|k: Seq<char>|
                self@.contains_key(k) ==> exists|i: int| 0 <= i < r@.len() && #[trigger] r@[i].0@ == k,
            forall|i: int, j: int| 0 <= i < j < r@.len() ==> r@[i].0@ != r@[j].0@,
    {
        assert forall|i: int| 0 <= i < self.entries@.len() implies self@.contains_key(
            #[trigger] self.entries@[i].0@,
        ) && self@[self.entries@[i].0@] == self.entries@[i].1@ by {
            assert(self.holds(i, self.entries@[i].0@));
            let j = choose|j: int| self.holds(j, self.entries@[i].0@);
        }
        assert forall|k: Seq<char>| self@.contains_key(k) implies exists|i: int|
            0 <= i < self.entries@.len() && #[trigger] self.entries@[i].0@ == k by {
            let i = choose|i: int| self.holds(i, k);
            assert(self.entries@[i].0@ == k);
        }
        self.entries
    }

    /// The content of the file at `path`.
    pub fn get(&self, path: &str) -> (r: Option<&String>)
        requires
            self.wf(),
        ensures
            match r {
                Some(content) => self@.contains_key(path@) && self@[path@] == content@,
                None => !self@.contains_key(path@),
            },
    {
        match self.position(path) {
            Some(i) => {
                proof {
                    let j = choose|j: int| self.holds(j, path@);
                }
                Some(&self.entries[i].1)
            },
            None => None,
        }
    }

    /// Makes `content` the content of the file at `path`.
    pub fn insert(&mut self, path: String, content: String)
        requires
            old(self).wf(),
        ensures
            final(self).wf(),
            final(self)@ == old(self)@.insert(path@, content@),
    {
        let ghost before = *self;
        let ghost n = before.entries@.len() as int;
        match self.position(path.as_str()) {
            Some(i) => {
                let (key, _) = self.entries.remove(i);
                self.entries.insert(i, (key, content));
                assert forall|a: int, b: int|
                    0 <= a < b < self.entries@.len() implies self.entries@[a].0@
                    != self.entries@[b].0@ by {
                    assert(before.entries@[a].0@ != before.entries@[b].0@);
                }
                assert forall|k: Seq<char>| self@.contains_key(k) <==> before@.insert(
                    path@,
                    content@,
                ).contains_key(k) by {
                    if self@.contains_key(k) {
                        let j = choose|j: int| self.holds(j, k);
                        assert(before.holds(j, k));
                    }
                    if before@.contains_key(k) {
                        let j = choose|j: int| before.holds(j, k);
                        assert(self.holds(j, k));
                    }
                    if k == path@ {
                        assert(self.holds(i as int, k));
                    }
                }
                assert forall|k: Seq<char>| self@.contains_key(k) implies self@[k]
                    == before@.insert(path@, content@)[k] by {
                    let j = choose|j: int| self.holds(j, k);
                    assert(before.holds(j, k));
                    let j2 = choose|j: int| before.holds(j, k);
                }
                assert(self@ =~= before@.insert(path@, content@));
            },
            None => {
                self.entries.push((path, content));
                assert(self.holds(n, path@));
                assert forall|a: int, b: int|
                    0 <= a < b < self.entries@.len() implies self.entries@[a].0@
                    != self.entries@[b].0@ by {
                    if b < n {
                        assert(before.entries@[a].0@ != before.entries@[b].0@);
                    } else {
                        assert(!before.holds(a, path@));
                    }
                }
                assert forall|k: Seq<char>| self@.contains_key(k) <==> before@.insert(
                    path@,
                    content@,
                ).contains_key(k) by {
                    if self@.contains_key(k) {
                        let j = choose|j: int| self.holds(j, k);
                        if j < n {
                            assert(before.holds(j, k));
                        }
                    }
                    if before@.contains_key(k) {
                        let j = choose|j: int| before.holds(j, k);
                        assert(self.holds(j, k));
                    }
                }
                assert forall|k: Seq<char>| self@.contains_key(k) implies self@[k]
                    == before@.insert(path@, content@)[k] by {
                    let j = choose|j: int| self.holds(j, k);
                    if j < n {
                        assert(before.holds(j, k));
                        let j2 = choose|j: int| before.holds(j, k);
                    }
                }
                assert(self@ =~= before@.insert(path@, content@));
            },
        }
    }

    /// Takes the file at `path` away and returns its content.
    pub fn remove(&mut self, path: &str) -> (r: Option<String>)
        requires
            old(self).wf(),
        ensures
            final(self).wf(),
            final(self)@ == old(self)@.remove(path@),
            match r {
                Some(content) => old(self)@.contains_key(path@) && old(self)@[path@] == content@,
                None => !old(self)@.contains_key(path@),
            },
    {
        let ghost before = *self;
        match self.position(path) {
            Some(i) => {
                proof {
                    let j = choose|j: int| before.holds(j, path@);
                }
                let (_, content) = self.entries.remove(i);
                assert forall|a: int, b: int|
                    0 <= a < b < self.entries@.len() implies self.entries@[a].0@
                    != self.entries@[b].0@ by {
                    let a0 = if a < i { a } else { a + 1 };
                    let b0 = if b < i { b } else { b + 1 };
                    assert(before.entries@[a0].0@ != before.entries@[b0].0@);
                }
                assert forall|k: Seq<char>| self@.contains_key(k) <==> before@.remove(
                    path@,
                ).contains_key(k) by {
                    if self@.contains_key(k) {
                        let j = choose|j: int| self.holds(j, k);
                        if j < i {
                            assert(before.holds(j, k));
                        } else {
                            assert(before.holds(j + 1, k));
                        }
                    }
                    if before@.contains_key(k) && k != path@ {
                        let j = choose|j: int| before.holds(j, k);
                        if j < i {
                            assert(self.holds(j, k));
                        } else {
                            assert(self.holds(j - 1, k));
                        }
                    }
                }
                assert forall|k: Seq<char>| self@.contains_key(k) implies self@[k]
                    == before@.remove(path@)[k] by {
                    let j = choose|j: int| self.holds(j, k);
                    if j < i {
                        assert(before.holds(j, k));
                    } else {
                        assert(before.holds(j + 1, k));
                    }
                    let j2 = choose|j: int| before.holds(j, k);
                }
                assert(self@ =~= before@.remove(path@));
                Some(content)
            },
            None => {
                assert(self@ =~= before@.remove(path@));
                None
            },
        }
    }
}

/// What the in-memory environment answers when an interpreter is run on a
/// content it was told to expect.
#[derive(Debug)]
pub struct Evaluation {
    pub interpreter: String,
    pub content: String,
    pub success: bool,
    pub output: String,
    pub error: String,
    /// The files that the run leaves behind, with their contents.
    pub add: Vec<(String, String)>,
    /// The files that the run takes away.
    pub remove: Vec<String>,
}

/// The mathematical value of an [`Evaluation`].
pub struct EvaluationSpec {
    pub interpreter: Seq<char>,
    pub content: Seq<char>,
    pub success: bool,
    pub output: Seq<char>,
    pub error: Seq<char>,
    pub add: Seq<(Seq<char>, Seq<char>)>,
    pub remove: Seq<Seq<char>>,
}

impl View for Evaluation {
    type V = EvaluationSpec;

    open spec fn view(&self) -> EvaluationSpec {
        EvaluationSpec {
            interpreter: self.interpreter@,
            content: self.content@,
            success: self.success,
            output: self.output@,
            error: self.error@,
            add: pairs_view(self.add@),
            remove: views(self.remove@),
        }
    }
}

/// The mathematical values of a sequence of evaluations.
pub open spec fn evaluations_view(s: Seq<Evaluation>) -> Seq<EvaluationSpec> {
    Seq::new(s.len(), |i: int| s[i]@)
}

/// The files without those at the given paths.
pub open spec fn without_paths(files: Map<Seq<char>, Seq<char>>, paths: Seq<Seq<char>>) -> Map<
    Seq<char>,
    Seq<char>,
>
    decreases paths.len(),
{
    if paths.len() == 0 {
        files
    } else {
        without_paths(files, paths.drop_last()).remove(paths.last())
    }
}

/// The files with the given ones written over them, in their order.
pub open spec fn with_files(
    files: Map<Seq<char>, Seq<char>>,
    written: Seq<(Seq<char>, Seq<char>)>,
) -> Map<Seq<char>, Seq<char>>
    decreases written.len(),
{
    if written.len() == 0 {
        files
    } else {
        with_files(files, written.drop_last()).insert(written.last().0, written.last().1)
    }
}

/// The index of the first evaluation for this interpreter and content.
pub open spec fn expected_at(
    table: Seq<EvaluationSpec>,
    interpreter: Seq<char>,
    content: Seq<char>,
) -> Option<int>
    decreases table.len(),
{
    if table.len() == 0 {
        None
    } else {
        match expected_at(table.drop_last(), interpreter, content) {
            Some(i) => Some(i),
            None => if table.last().interpreter == interpreter && table.last().content
                == content {
                Some(table.len() - 1)
            } else {
                None
            },
        }
    }
}

/// The in-memory environment: it keeps what is written, and answers a run
/// of an interpreter from the evaluations it was told to expect.
#[derive(Debug)]
pub struct Cache {
    files: Files,
    evaluations: Vec<Evaluation>,
}

impl View for Cache {
    type V = Map<Seq<char>, Seq<char>>;

    closed spec fn view(&self) -> Map<Seq<char>, Seq<char>> {
        self.files@
    }
}

impl Cache {
    /// Every path stands among the files at most once.
    pub closed spec fn wf(&self) -> bool {
        self.files.wf()
    }

    /// The evaluations that the environment still expects, in the order in
    /// which it was told of them.
    pub closed spec fn expected(&self) -> Seq<EvaluationSpec> {
        evaluations_view(self.evaluations@)
    }

    /// An environment without files that expects no evaluation.
    pub fn new() -> (cache: Cache)
        ensures
            cache.wf(),
            cache@ == Map::<Seq<char>, Seq<char>>::empty(),
            cache.expected() == Seq::<EvaluationSpec>::empty(),
    {
        let cache = Cache { files: Files::new(), evaluations: Vec::new() };
        assert(cache.expected() =~= Seq::<EvaluationSpec>::empty());
        cache
    }

    /// Tells the environment of one more evaluation to expect.
    pub fn expect(&mut self, evaluation: Evaluation)
        requires
            old(self).wf(),
        ensures
            final(self).wf(),
            final(self)@ == old(self)@,
            final(self).expected() == old(self).expected().push(evaluation@),
    {
        self.evaluations.push(evaluation);
        assert(self.expected() =~= old(self).expected().push(evaluation@));
    }

    /// The files that were written.
    pub fn get_files(self) -> (files: Files)
        requires
            self.wf(),
        ensures
            files.wf(),
            files@ == self@,
    {
        self.files
    }

    /// The content of the file at `path`; `NotFound` if there is no such
    /// file. Reading leaves the files as they are.
    pub fn read(&mut self, path: &str) -> (r: Result<String, AsciidoctrineError>)
        requires
            old(self).wf(),
        ensures
            final(self).wf(),
            final(self)@ == old(self)@,
            final(self).expected() == old(self).expected(),
            match r {
                Ok(content) => old(self)@.contains_key(path@) && old(self)@[path@] == content@,
                Err(e) => !old(self)@.contains_key(path@) && e == AsciidoctrineError::NotFound,
            },
    {
        match self.files.get(path) {
            Some(content) => Ok(content.clone()),
            None => Err(AsciidoctrineError::NotFound),
        }
    }

    /// Makes `content` the content of the file at `path`.
    pub fn put(&mut self, path: &str, content: &str)
        requires
            old(self).wf(),
        ensures
            final(self).wf(),
            final(self)@ == old(self)@.insert(path@, content@),
            final(self).expected() == old(self).expected(),
    {
        self.files.insert(String::from_str(path), String::from_str(content));
    }

    /// Answers a run of `interpreter` on `content` from the first
    /// evaluation expected for them, which is then no longer expected: the
    /// files it takes away leave, the files it leaves behind are written.
    /// `Childprocess` if no such evaluation is expected.
    pub fn run(&mut self, interpreter: &str, content: &str) -> (r: Result<
        (bool, String, String),
        AsciidoctrineError,
    >)
        requires
            old(self).wf(),
        ensures
            final(self).wf(),
            match expected_at(old(self).expected(), interpreter@, content@) {
                Some(i) => {
                    let e = old(self).expected()[i];
                    &&& 0 <= i < old(self).expected().len()
                    &&& final(self).expected() == old(self).expected().remove(i)
                    &&& final(self)@ == with_files(without_paths(old(self)@, e.remove), e.add)
                    &&& r matches Ok(answer)
                    &&& answer.0 == e.success
                    &&& answer.1@ == e.output
                    &&& answer.2@ == e.error
                },
                None => {
                    &&& final(self).expected() == old(self).expected()
                    &&& final(self)@ == old(self)@
                    &&& r == Err::<(bool, String, String), AsciidoctrineError>(
                        AsciidoctrineError::Childprocess,
                    )
                },
            },
    {
        let ghost table = self.expected();
        let mut i: usize = 0;
        assert(table.take(0) =~= seq![]);
        while i < self.evaluations.len()
            invariant
                i <= self.evaluations.len(),
                self.files.wf(),
                self.files@ == old(self).files@,
                self.evaluations@ == old(self).evaluations@,
                table == evaluations_view(self.evaluations@),
                expected_at(table.take(i as int), interpreter@, content@).is_none(),
            decreases self.evaluations.len() - i,
        {
            assert(table.take(i as int + 1).drop_last() =~= table.take(i as int));
            assert(table.take(i as int + 1).last() == self.evaluations@[i as int]@);
            if same_text(self.evaluations[i].interpreter.as_str(), interpreter) && same_text(
                self.evaluations[i].content.as_str(),
                content,
            ) {
                proof {
                    lemma_expected_prefix(table, i as int + 1, interpreter@, content@);
                }
                assert(expected_at(table, interpreter@, content@) == Some(i as int));
                let evaluation = self.evaluations.remove(i);
                assert(evaluation@ == table[i as int]);
                assert(self.expected() =~= table.remove(i as int));
                let ghost files0 = self@;
                let mut k: usize = 0;
                while k < evaluation.remove.len()
                    invariant
                        k <= evaluation.remove.len(),
                        self.files.wf(),
                        self.expected() == table.remove(i as int),
                        self.files@ == without_paths(files0, evaluation@.remove.take(k as int)),
                    decreases evaluation.remove.len() - k,
                {
                    assert(evaluation@.remove.take(k as int + 1).drop_last()
                        =~= evaluation@.remove.take(k as int));
                    let _ = self.files.remove(evaluation.remove[k].as_str());
                    k += 1;
                }
                assert(evaluation@.remove.take(k as int) =~= evaluation@.remove);
                let ghost files1 = self@;
                let mut k: usize = 0;
                while k < evaluation.add.len()
                    invariant
                        k <= evaluation.add.len(),
                        self.files.wf(),
                        self.expected() == table.remove(i as int),
                        self.files@ == with_files(files1, evaluation@.add.take(k as int)),
                    decreases evaluation.add.len() - k,
                {
                    assert(evaluation@.add.take(k as int + 1).drop_last()
                        =~= evaluation@.add.take(k as int));
                    self.files.insert(evaluation.add[k].0.clone(), evaluation.add[k].1.clone());
                    k += 1;
                }
                assert(evaluation@.add.take(k as int) =~= evaluation@.add);
                return Ok((evaluation.success, evaluation.output, evaluation.error));
            }
            i += 1;
        }
        assert(table.take(i as int) =~= table);
        Err(AsciidoctrineError::Childprocess)
    }
}

/// The first expected evaluation of a table is that of its prefix, where
/// the prefix has one.
pub proof fn lemma_expected_prefix(
    table: Seq<EvaluationSpec>,
    n: int,
    interpreter: Seq<char>,
    content: Seq<char>,
)
    requires
        0 <= n <= table.len(),
        expected_at(table.take(n), interpreter, content).is_some(),
    ensures
        expected_at(table, interpreter, content) == expected_at(
            table.take(n),
            interpreter,
            content,
        ),
    decreases table.len() - n,
{
    if n < table.len() {
        assert(table.take(n + 1).drop_last() =~= table.take(n));
        lemma_expected_prefix(table, n + 1, interpreter, content);
    } else {
        assert(table.take(n) =~= table);
    }
}

impl Environment for Cache {
    open spec fn valid(&self) -> bool {
        self.wf()
    }

    /// A write always succeeds, and makes `content` the content of the
    /// file at `path`.
    open spec fn wrote(
        &self,
        path: Seq<char>,
        content: Seq<char>,
        after: &Self,
        answer: Result<(), AsciidoctrineError>,
    ) -> bool {
        &&& answer.is_ok()
        &&& after@ == self@.insert(path, content)
        &&& after.expected() == self.expected()
    }

    /// A run is answered from the first evaluation expected for it, which
    /// is then no longer expected; it fails where none is expected.
    open spec fn evaluated(
        &self,
        interpreter: Seq<char>,
        content: Seq<char>,
        after: &Self,
        answer: Result<(bool, String, String), AsciidoctrineError>,
    ) -> bool {
        match expected_at(self.expected(), interpreter, content) {
            Some(i) => {
                let e = self.expected()[i];
                &&& 0 <= i < self.expected().len()
                &&& after.expected() == self.expected().remove(i)
                &&& after@ == with_files(without_paths(self@, e.remove), e.add)
                &&& answer matches Ok(given)
                &&& given.0 == e.success
                &&& given.1@ == e.output
                &&& given.2@ == e.error
            },
            None => {
                &&& after.expected() == self.expected()
                &&& after@ == self@
                &&& answer == Err::<(bool, String, String), AsciidoctrineError>(
                    AsciidoctrineError::Childprocess,
                )
            },
        }
    }

    fn read_to_string(&mut self, path: &str) -> (r: Result<String, AsciidoctrineError>)
        ensures
            final(self)@ == old(self)@,
            final(self).expected() == old(self).expected(),
            match r {
                Ok(content) => old(self)@.contains_key(path@) && old(self)@[path@] == content@,
                Err(e) => !old(self)@.contains_key(path@) && e == AsciidoctrineError::NotFound,
            },
    {
        self.read(path)
    }

    fn write(&mut self, path: &str, content: &str) -> (r: Result<(), AsciidoctrineError>)
        ensures
            r.is_ok(),
            final(self)@ == old(self)@.insert(path@, content@),
            final(self).expected() == old(self).expected(),
    {
        self.put(path, content);
        Ok(())
    }

    fn eval(&mut self, interpreter: &str, content: &str) -> (r: Result<
        (bool, String, String),
        AsciidoctrineError,
    >)
        ensures
            match expected_at(old(self).expected(), interpreter@, content@) {
                Some(i) => {
                    let e = old(self).expected()[i];
                    &&& 0 <= i < old(self).expected().len()
                    &&& final(self).expected() == old(self).expected().remove(i)
                    &&& final(self)@ == with_files(without_paths(old(self)@, e.remove), e.add)
                    &&& r matches Ok(answer)
                    &&& answer.0 == e.success
                    &&& answer.1@ == e.output
                    &&& answer.2@ == e.error
                },
                None => {
                    &&& final(self).expected() == old(self).expected()
                    &&& final(self)@ == old(self)@
                    &&& r == Err::<(bool, String, String), AsciidoctrineError>(
                        AsciidoctrineError::Childprocess,
                    )
                },
            },
    {
        self.run(interpreter, content)
    }
}

/// Writing the same content to the same path twice leaves the files as the
/// first write left them.
pub proof fn lemma_write_idempotent(
    files: Map<Seq<char>, Seq<char>>,
    path: Seq<char>,
    content: Seq<char>,
)
    ensures
        files.insert(path, content).insert(path, content) == files.insert(path, content),
{
    assert(files.insert(path, content).insert(path, content) =~= files.insert(path, content));
}

} // verus!
