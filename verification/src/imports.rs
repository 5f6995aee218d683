//! The import cache of a backend: the stack that each imported file left,
//! kept by path, so that a file is run once and replayed ever after.

use vstd::prelude::*;
use vstd::string::*;
use crate::error::RuntimeError;
use crate::text::same_text;
use crate::value::{Value, ValueView};
use crate::vm::values_view;

verus! {

/// What a cache holds: for each path that was imported, the stack its file
/// left.
pub type Imports = Map<Seq<char>, Seq<ValueView>>;

/// The cache after the file at `path` was found to leave `stack`: a path
/// that is known keeps what it had.
pub open spec fn remembered(cache: Imports, path: Seq<char>, stack: Seq<ValueView>) -> Imports {
    if cache.contains_key(path) {
        cache
    } else {
        cache.insert(path, stack)
    }
}

/// The cache that a list of entries stands for, the earliest entry of a
/// path counting.
pub open spec fn model(entries: Seq<(String, Vec<Value>)>) -> Imports
    decreases entries.len(),
{
    if entries.len() == 0 {
        Map::empty()
    } else {
        remembered(model(entries.drop_last()), entries.last().0@, values_view(entries.last().1@))
    }
}

/// The stacks of imported files, by path.
#[derive(Debug)]
pub struct ImportCache {
    entries: Vec<(String, Vec<Value>)>,
}

impl View for ImportCache {
    type V = Imports;

    closed spec fn view(&self) -> Imports {
        model(self.entries@)
    }
}

/// A copy of a stack.
pub fn copy_stack(stack: &Vec<Value>) -> (copy: Vec<Value>)
    ensures
        values_view(copy@) == values_view(stack@),
{
    let mut copy: Vec<Value> = Vec::new();
    let mut i: usize = 0;
    while i < stack.len()
        invariant
            i <= stack.len(),
            values_view(copy@) == values_view(stack@).take(i as int),
        decreases stack.len() - i,
    {
        let value = stack[i].duplicate();
        proof {
            let before = values_view(copy@);
            assert(values_view(copy@.push(value)) == before.push(value@));
            assert(values_view(stack@).take(i + 1) == values_view(stack@).take(i as int).push(
                stack@[i as int]@,
            ));
        }
        copy.push(value);
        i += 1;
    }
    proof {
        assert(values_view(stack@).take(stack@.len() as int) == values_view(stack@));
    }
    copy
}

proof fn lemma_model_first(entries: Seq<(String, Vec<Value>)>, path: Seq<char>, at: int)
    requires
        0 <= at <= entries.len(),
        forall|i: int| 0 <= i < at ==> entries[i].0@ != path,
        at < entries.len() ==> entries[at].0@ == path,
    ensures
        at == entries.len() ==> !model(entries).contains_key(path),
        at < entries.len() ==> model(entries).contains_key(path) && model(entries)[path]
            == values_view(entries[at].1@),
    decreases entries.len(),
{
    if entries.len() > 0 {
        let front = entries.drop_last();
        if at < entries.len() - 1 {
            assert(front[at] == entries[at]);
        }
        assert forall|i: int| 0 <= i < at && i < front.len() implies front[i].0@ != path by {
            assert(front[i] == entries[i]);
        }
        lemma_model_first(
            front,
            path,
            if at < front.len() {
                at
            } else {
                front.len() as int
            },
        );
    }
}

impl ImportCache {
    /// A cache that knows no path.
    pub fn new() -> (cache: ImportCache)
        ensures
            cache@ == Map::<Seq<char>, Seq<ValueView>>::empty(),
    {
        ImportCache { entries: Vec::new() }
    }

    fn position(&self, path: &str) -> (at: usize)
        ensures
            at <= self.entries@.len(),
            forall|i: int| 0 <= i < at ==> self.entries@[i].0@ != path@,
            at < self.entries@.len() ==> self.entries@[at as int].0@ == path@,
    {
        let mut at: usize = 0;
        while at < self.entries.len()
            invariant
                at <= self.entries@.len(),
                forall|i: int| 0 <= i < at ==> self.entries@[i].0@ != path@,
            decreases self.entries.len() - at,
        {
            if same_text(self.entries[at].0.as_str(), path) {
                return at;
            }
            at += 1;
        }
        at
    }

    /// A copy of the stack that the file at `path` left, if it was imported
    /// before.
    pub fn lookup(&self, path: &str) -> (stack: Option<Vec<Value>>)
        ensures
            match stack {
                Some(s) => self@.contains_key(path@) && self@[path@] == values_view(s@),
                None => !self@.contains_key(path@),
            },
    {
        let at = self.position(path);
        proof {
            lemma_model_first(self.entries@, path@, at as int);
        }
        if at < self.entries.len() {
            Some(copy_stack(&self.entries[at].1))
        } else {
            None
        }
    }

    /// Takes note that the file at `path` left `stack`, unless a stack is
    /// known for the path already, and hands out a copy of the stack that is
    /// now known for it.
    pub fn remember(&mut self, path: &str, stack: Vec<Value>) -> (known: Vec<Value>)
        ensures
            final(self)@ == remembered(old(self)@, path@, values_view(stack@)),
            final(self)@.contains_key(path@),
            values_view(known@) == final(self)@[path@],
    {
        let at = self.position(path);
        proof {
            lemma_model_first(self.entries@, path@, at as int);
        }
        if at < self.entries.len() {
            copy_stack(&self.entries[at].1)
        } else {
            let known = copy_stack(&stack);
            let ghost before = self.entries@;
            self.entries.push((String::from_str(path), stack));
            proof {
                assert(self.entries@.drop_last() == before);
            }
            known
        }
    }
}

/// What an import asks of the host.
#[derive(Debug, PartialEq, Eq)]
pub enum ImportStep {
    /// The file was imported before: this is the stack it left.
    Replay(Vec<Value>),
    /// The file is to be read and run, and the import ended with what came
    /// of it.
    RunFile,
}

impl ImportCache {
    /// Begins an import: a path that is known is replayed, the file of any
    /// other is to be run.
    pub fn begin(&self, path: &str) -> (step: ImportStep)
        ensures
            match step {
                ImportStep::Replay(stack) => self@.contains_key(path@) && values_view(stack@)
                    == self@[path@],
                ImportStep::RunFile => !self@.contains_key(path@),
            },
    {
        match self.lookup(path) {
            Some(stack) => ImportStep::Replay(stack),
            None => ImportStep::RunFile,
        }
    }

    /// Ends an import whose file was run. A run that left a stack is
    /// remembered, and the import gives the stack that is now known for the
    /// path. A run that failed leaves the cache as it is, and the import
    /// fails with `Import`, which holds the path and the report of the run.
    pub fn end(&mut self, path: &str, ran: Result<Vec<Value>, String>) -> (imported: Result<
        Vec<Value>,
        RuntimeError,
    >)
        ensures
            match ran {
                Ok(stack) => imported matches Ok(known) && final(self)@ == remembered(
                    old(self)@,
                    path@,
                    values_view(stack@),
                ) && values_view(known@) == final(self)@[path@],
                Err(report) => imported matches Err(RuntimeError::Import(at, told)) && at@ == path@
                    && told@ == report@ && final(self)@ == old(self)@,
            },
    {
        match ran {
            Ok(stack) => Ok(self.remember(path, stack)),
            Err(report) => Err(RuntimeError::Import(String::from_str(path), report)),
        }
    }
}

/// An import that has succeeded is replayed ever after: once the run of a
/// file has been remembered, the path is known with the stack that the
/// import gave, whatever is remembered afterwards.
pub proof fn lemma_import_replays(
    cache: Imports,
    path: Seq<char>,
    stack: Seq<ValueView>,
    other: Seq<char>,
    later: Seq<ValueView>,
)
    ensures
        remembered(cache, path, stack).contains_key(path),
        remembered(remembered(cache, path, stack), other, later).contains_key(path),
        remembered(remembered(cache, path, stack), other, later)[path] == remembered(
            cache,
            path,
            stack,
        )[path],
{
}

/// An import gives the same stack every time. Once a path is known to a
/// cache, whatever is remembered afterwards, of this path or of another, the
/// path stays known with the stack it had.
pub proof fn lemma_import_stable(
    cache: Imports,
    path: Seq<char>,
    other: Seq<char>,
    stack: Seq<ValueView>,
)
    requires
        cache.contains_key(path),
    ensures
        remembered(cache, other, stack).contains_key(path),
        remembered(cache, other, stack)[path] == cache[path],
{
}

/// The first import of a path decides: after it, importing the path again
/// with any other stack at hand leaves the cache as it is.
pub proof fn lemma_import_once(
    cache: Imports,
    path: Seq<char>,
    first: Seq<ValueView>,
    second: Seq<ValueView>,
)
    ensures
        remembered(remembered(cache, path, first), path, second) == remembered(cache, path, first),
{
}

} // verus!
