//! Shared state and error types: the variable context, the in-memory file
//! store the engine reads from, and the failure kinds a run can end with.

use vstd::prelude::*;

verus! {

broadcast use vstd::seq_lib::group_seq_properties;

/// An association list over character sequences, the model of both the
/// variable context and the file store.
pub type AssocSeq = Seq<(Seq<char>, Seq<char>)>;

/// The index of the first entry whose key is `k`, or `es.len()` if none.
pub open spec fn assoc_index(es: AssocSeq, k: Seq<char>) -> int
    decreases es.len(),
{
    if es.len() == 0 {
        0
    } else if es[0].0 == k {
        0
    } else {
        1 + assoc_index(es.skip(1), k)
    }
}

/// The value under the first entry whose key is `k`, if any.
pub open spec fn assoc_find(es: AssocSeq, k: Seq<char>) -> Option<Seq<char>> {
    if assoc_index(es, k) < es.len() {
        Some(es[assoc_index(es, k)].1)
    } else {
        None
    }
}

/// Binds `k` to `v`: in place where `k` already has an entry, appended
/// otherwise, so that iteration order is the order of first definition.
pub open spec fn assoc_put(es: AssocSeq, k: Seq<char>, v: Seq<char>) -> AssocSeq {
    if assoc_index(es, k) < es.len() {
        es.update(assoc_index(es, k), (k, v))
    } else {
        es.push((k, v))
    }
}

/// If the first `i` entries carry other keys, searching from the front and
/// searching from entry `i` agree.
pub proof fn lemma_assoc_index_from(es: AssocSeq, k: Seq<char>, i: int)
    requires
        0 <= i <= es.len(),
        forall|j: int| 0 <= j < i ==> es[j].0 != k,
    ensures
        assoc_index(es, k) == i + assoc_index(es.skip(i), k),
    decreases i,
{
    if i > 0 {
        assert(es[0].0 != k);
        lemma_assoc_index_from(es.skip(1), k, i - 1);
        assert(es.skip(1).skip(i - 1) =~= es.skip(i));
        assert forall|j: int| 0 <= j < i - 1 implies es.skip(1)[j].0 != k by {
            assert(es.skip(1)[j] == es[j + 1]);
        }
    }
}

/// A mapping from variable names to replacement values.
///
/// Created once per top-level run and threaded by exclusive mutable
/// reference through every nested call. Entries keep the order of their
/// first definition; redefinition overwrites in place.
#[derive(Debug, Clone)]
pub struct Context {
    entries: Vec<(String, String)>,
}

impl View for Context {
    type V = AssocSeq;

    closed spec fn view(&self) -> AssocSeq {
        Seq::new(self.entries@.len(), |i: int| (self.entries@[i].0@, self.entries@[i].1@))
    }
}

impl Context {
    /// An empty context.
    pub fn new() -> (r: Context)
        ensures
            r@ == Seq::<(Seq<char>, Seq<char>)>::empty(),
    {
        let r = Context { entries: Vec::new() };
        proof {
            assert(r@ =~= Seq::<(Seq<char>, Seq<char>)>::empty());
        }
        r
    }

    /// How many variables are defined.
    pub fn len(&self) -> (r: usize)
        ensures
            r == self@.len(),
    {
        self.entries.len()
    }

    /// The name and value at position `i`, in definition order.
    pub fn entry(&self, i: usize) -> (r: (&String, &String))
        requires
            i < self@.len(),
        ensures
            r.0@ == self@[i as int].0,
            r.1@ == self@[i as int].1,
    {
        (&self.entries[i].0, &self.entries[i].1)
    }

    /// The value bound to `name`, if any.
    pub fn get(&self, name: &str) -> (r: Option<&String>)
        ensures
            match r {
                Some(v) => assoc_find(self@, name@) == Some(v@),
                None => assoc_find(self@, name@) is None,
            },
    {
        let n = self.entries.len();
        let mut i: usize = 0;
        while i < n
            invariant
                i <= n,
                n == self@.len(),
                n == self.entries@.len(),
                forall|j: int| 0 <= j < i ==> self@[j].0 != name@,
            decreases n - i,
        {
            if string_eq_str(&self.entries[i].0, name) {
                proof {
                    lemma_assoc_index_from(self@, name@, i as int);
                }
                return Some(&self.entries[i].1);
            }
            i = i + 1;
        }
        proof {
            lemma_assoc_index_from(self@, name@, n as int);
            assert(self@.skip(n as int) =~= Seq::<(Seq<char>, Seq<char>)>::empty());
        }
        None
    }

    /// Bind `name` to `value`, overwriting in place if `name` is already
    /// defined and appending otherwise.
    pub fn insert(&mut self, name: String, value: String)
        ensures
            final(self)@ == assoc_put(old(self)@, name@, value@),
    {
        let n = self.entries.len();
        let mut i: usize = 0;
        while i < n
            invariant
                i <= n,
                n == self@.len(),
                n == self.entries@.len(),
                forall|j: int| 0 <= j < i ==> self@[j].0 != name@,
                *self == *old(self),
            decreases n - i,
        {
            if string_eq_str(&self.entries[i].0, name.as_str()) {
                proof {
                    lemma_assoc_index_from(self@, name@, i as int);
                }
                self.entries.set(i, (name, value));
                proof {
                    assert(final(self)@ =~= assoc_put(old(self)@, name@, value@));
                }
                return;
            }
            i = i + 1;
        }
        proof {
            lemma_assoc_index_from(self@, name@, n as int);
            assert(self@.skip(n as int) =~= Seq::<(Seq<char>, Seq<char>)>::empty());
        }
        self.entries.push((name, value));
        proof {
            assert(final(self)@ =~= assoc_put(old(self)@, name@, value@));
        }
    }
}

/// Character-wise equality of a `String` and a string slice.
pub(crate) fn string_eq_str(a: &String, b: &str) -> (r: bool)
    ensures
        r == (a@ == b@),
{
    let s = a.as_str();
    let n = s.unicode_len();
    if n != b.unicode_len() {
        return false;
    }
    let mut i: usize = 0;
    while i < n
        invariant
            i <= n,
            n == s@.len(),
            n == b@.len(),
            s@ == a@,
            forall|j: int| 0 <= j < i ==> s@[j] == b@[j],
        decreases n - i,
    {
        if s.get_char(i) != b.get_char(i) {
            return false;
        }
        i = i + 1;
    }
    proof {
        assert(a@ =~= b@);
    }
    true
}

/// The files a run may read, as plain path and content text.
///
/// The engine itself performs no input or output; whatever drives it loads
/// each file once and hands the store in. Lookup takes the first entry whose
/// path matches.
#[derive(Debug, Clone)]
pub struct Fs {
    entries: Vec<(String, String)>,
}

impl View for Fs {
    type V = AssocSeq;

    closed spec fn view(&self) -> AssocSeq {
        Seq::new(self.entries@.len(), |i: int| (self.entries@[i].0@, self.entries@[i].1@))
    }
}

impl Fs {
    /// An empty store.
    pub fn new() -> (r: Fs)
        ensures
            r@ == Seq::<(Seq<char>, Seq<char>)>::empty(),
    {
        let r = Fs { entries: Vec::new() };
        proof {
            assert(r@ =~= Seq::<(Seq<char>, Seq<char>)>::empty());
        }
        r
    }

    /// Record `content` under `path`.
    pub fn add(&mut self, path: String, content: String)
        ensures
            final(self)@ == old(self)@.push((path@, content@)),
    {
        self.entries.push((path, content));
        proof {
            assert(final(self)@ =~= old(self)@.push((path@, content@)));
        }
    }

    /// The content under `path`, if the store holds it.
    pub(crate) fn read(&self, path: &Vec<char>) -> (r: Option<&String>)
        ensures
            match r {
                Some(v) => assoc_find(self@, path@) == Some(v@),
                None => assoc_find(self@, path@) is None,
            },
    {
        let n = self.entries.len();
        let mut i: usize = 0;
        while i < n
            invariant
                i <= n,
                n == self@.len(),
                n == self.entries@.len(),
                forall|j: int| 0 <= j < i ==> self@[j].0 != path@,
            decreases n - i,
        {
            if str_eq_chars(self.entries[i].0.as_str(), path) {
                proof {
                    lemma_assoc_index_from(self@, path@, i as int);
                }
                return Some(&self.entries[i].1);
            }
            i = i + 1;
        }
        proof {
            lemma_assoc_index_from(self@, path@, n as int);
            assert(self@.skip(n as int) =~= Seq::<(Seq<char>, Seq<char>)>::empty());
        }
        None
    }
}

/// Character-wise equality of a string slice and a character vector.
pub(crate) fn str_eq_chars(a: &str, b: &Vec<char>) -> (r: bool)
    ensures
        r == (a@ == b@),
{
    let n = a.unicode_len();
    if n != b.len() {
        return false;
    }
    let mut i: usize = 0;
    while i < n
        invariant
            i <= n,
            n == a@.len(),
            n == b@.len(),
            forall|j: int| 0 <= j < i ==> a@[j] == b@[j],
        decreases n - i,
    {
        if a.get_char(i) != b[i] {
            return false;
        }
        i = i + 1;
    }
    proof {
        assert(a@ =~= b@);
    }
    true
}

/// The failure kinds of a run, at the level of the mathematical model.
pub ghost enum ErrModel {
    /// A directive was handed the wrong number of arguments.
    ArgCount(int, int),
    /// A name written to the context held a character outside `[A-Za-z0-9_]`.
    BadName(Seq<char>),
    /// An unrecognised `$PREP` directive.
    BadDirective(Seq<char>),
    /// A path the file store does not hold.
    ReadFail(Seq<char>),
    /// The nesting budget for embedded files ran out.
    DepthLimit,
}

/// A failure while processing a file.
#[derive(Debug, Clone, PartialEq, Eq)]
pub enum MacroError {
    /// A directive was handed the wrong number of arguments: expected, got.
    ExpectedNArgs(usize, usize),
    /// A name written to the context held a character outside `[A-Za-z0-9_]`.
    InvalidArg(String),
    /// An unrecognised `$PREP` directive, carrying its display text.
    UnknownCommand(String),
    /// A path the file store does not hold.
    IoError(String),
    /// The nesting budget for embedded files ran out.
    RecursionLimit,
}

/// The model value a concrete error stands for.
pub open spec fn err_model(e: MacroError) -> ErrModel {
    match e {
        MacroError::ExpectedNArgs(a, b) => ErrModel::ArgCount(a as int, b as int),
        MacroError::InvalidArg(s) => ErrModel::BadName(s@),
        MacroError::UnknownCommand(s) => ErrModel::BadDirective(s@),
        MacroError::IoError(s) => ErrModel::ReadFail(s@),
        MacroError::RecursionLimit => ErrModel::DepthLimit,
    }
}

} // verus!
