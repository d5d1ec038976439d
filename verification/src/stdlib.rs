//! The table of bundled library routines and the pool of interned strings.

use vstd::prelude::*;

use crate::ir::{texts, IrType};
use crate::text::same_text;

verus! {

/// The signature a routine expects of one closure argument.
#[derive(Debug, PartialEq, Eq)]
pub struct ClosureSignature {
    pub arg_idx: usize,
    pub params: Vec<IrType>,
    pub ret: IrType,
}

/// One bundled routine. Its position in the table is its call index.
#[derive(Debug, PartialEq, Eq)]
pub struct StdlibEntry {
    pub name: String,
    pub params: Vec<IrType>,
    pub ret: IrType,
    pub closure: Option<ClosureSignature>,
}

/// The table of bundled routines.
#[derive(Debug, PartialEq, Eq)]
pub struct StdlibTable {
    pub entries: Vec<StdlibEntry>,
}

/// The least index at or behind `from` of an entry with the given name.
pub open spec fn find_from(entries: Seq<StdlibEntry>, name: Seq<char>, from: int) -> Option<int>
    decreases entries.len() - from,
{
    if from < 0 || from >= entries.len() {
        None
    } else if entries[from].name@ == name {
        Some(from)
    } else {
        find_from(entries, name, from + 1)
    }
}

impl StdlibTable {
    /// Every routine has a 32-bit call index.
    pub open spec fn wf(self) -> bool {
        self.entries@.len() <= u32::MAX
    }

    /// The call index of a routine.
    pub open spec fn index_of(self, name: Seq<char>) -> Option<int> {
        find_from(self.entries@, name, 0)
    }

    /// Finds a routine by name.
    pub fn stdlib_function_index(&self, name: &str) -> (r: Option<u32>)
        requires
            self.wf(),
        ensures
            match r {
                Some(i) => self.index_of(name@) == Some(i as int) && i < self.entries@.len(),
                None => self.index_of(name@) is None,
            },
    {
        let mut i: usize = 0;
        while i < self.entries.len()
            invariant
                i <= self.entries.len(),
                self.wf(),
                find_from(self.entries@, name@, i as int) == self.index_of(name@),
            decreases self.entries.len() - i,
        {
            if same_text(self.entries[i].name.as_str(), name) {
                return Some(i as u32);
            }
            i += 1;
        }
        None
    }

    /// The signature a routine expects of its closure argument `arg`.
    pub open spec fn closure_sig(self, name: Seq<char>, arg: usize) -> Option<
        (Seq<IrType>, IrType),
    > {
        match self.index_of(name) {
            Some(i) => match self.entries@[i].closure {
                Some(sig) => if sig.arg_idx == arg {
                    Some((sig.params@, sig.ret))
                } else {
                    None
                },
                None => None,
            },
            None => None,
        }
    }

    /// Executable form of [`StdlibTable::closure_sig`].
    pub fn stdlib_closure_arg_signature(&self, name: &str, arg: usize) -> (r: Option<
        &ClosureSignature,
    >)
        requires
            self.wf(),
        ensures
            match r {
                Some(sig) => self.closure_sig(name@, arg) == Some((sig.params@, sig.ret)),
                None => self.closure_sig(name@, arg) is None,
            },
    {
        match self.stdlib_function_index(name) {
            Some(i) => match &self.entries[i as usize].closure {
                Some(sig) => if sig.arg_idx == arg {
                    Some(sig)
                } else {
                    None
                },
                None => None,
            },
            None => None,
        }
    }
}

/// Strings interned in order of first use.
#[derive(Debug, PartialEq, Eq)]
pub struct StringPool {
    pub strings: Vec<String>,
}

/// The least index at or behind `from` of a text.
pub open spec fn text_index(s: Seq<Seq<char>>, t: Seq<char>, from: int) -> Option<int>
    decreases s.len() - from,
{
    if from < 0 || from >= s.len() {
        None
    } else if s[from] == t {
        Some(from)
    } else {
        text_index(s, t, from + 1)
    }
}

/// The pool's contents and the index after interning a text: the text keeps
/// its first index, and an unseen one is appended.
pub open spec fn interned(s: Seq<Seq<char>>, t: Seq<char>) -> (Seq<Seq<char>>, int) {
    match text_index(s, t, 0) {
        Some(i) => (s, i),
        None => (s.push(t), s.len() as int),
    }
}

impl StringPool {
    /// The interned texts.
    pub open spec fn texts(self) -> Seq<Seq<char>> {
        texts(self.strings@)
    }

    /// The same texts again.
    pub fn copy(&self) -> (r: StringPool)
        ensures
            r.texts() == self.texts(),
    {
        let mut strings: Vec<String> = Vec::new();
        let mut i: usize = 0;
        while i < self.strings.len()
            invariant
                i <= self.strings.len(),
                texts(strings@) =~= self.texts().take(i as int),
            decreases self.strings.len() - i,
        {
            let ghost before = strings@;
            strings.push(self.strings[i].clone());
            assert(texts(strings@) =~= texts(before).push(self.texts()[i as int]));
            assert(self.texts().take(i + 1) =~= self.texts().take(i as int).push(
                self.texts()[i as int],
            ));
            i += 1;
        }
        StringPool { strings }
    }

    /// The index of a text.
    pub fn find(&self, text: &str) -> (r: Option<usize>)
        ensures
            match r {
                Some(i) => text_index(self.texts(), text@, 0) == Some(i as int),
                None => text_index(self.texts(), text@, 0) is None,
            },
    {
        let mut i: usize = 0;
        while i < self.strings.len()
            invariant
                i <= self.strings.len(),
                text_index(self.texts(), text@, i as int) == text_index(self.texts(), text@, 0),
            decreases self.strings.len() - i,
        {
            if same_text(self.strings[i].as_str(), text) {
                return Some(i);
            }
            i += 1;
        }
        None
    }

    /// The index of a text, which is appended if it is new.
    pub fn intern(&mut self, text: &str) -> (r: usize)
        ensures
            (final(self).texts(), r as int) == interned(old(self).texts(), text@),
    {
        match self.find(text) {
            Some(i) => i,
            None => {
                let n: usize = self.strings.len();
                self.strings.push(text.to_owned());
                assert(self.texts() =~= old(self).texts().push(text@));
                n
            },
        }
    }
}

/// What `text_index` finds is the text, and it misses none.
pub proof fn lemma_text_index(s: Seq<Seq<char>>, t: Seq<char>, from: int)
    requires
        0 <= from,
    ensures
        match text_index(s, t, from) {
            Some(i) => from <= i < s.len() && s[i] == t && forall|k: int|
                from <= k < i ==> s[k] != t,
            None => forall|k: int| from <= k < s.len() ==> s[k] != t,
        },
    decreases s.len() - from,
{
    if from < s.len() && s[from] != t {
        lemma_text_index(s, t, from + 1);
    }
}

/// Interning is stable: the text is found at the returned index, earlier texts
/// keep theirs, and interning again changes nothing.
pub proof fn law_intern_stable(s: Seq<Seq<char>>, t: Seq<char>)
    ensures
        ({
            let (s2, i) = interned(s, t);
            &&& 0 <= i < s2.len()
            &&& s2[i] == t
            &&& s2.take(s.len() as int) == s
            &&& interned(s2, t) == (s2, i)
        }),
{
    lemma_text_index(s, t, 0);
    let (s2, i) = interned(s, t);
    assert(s2.take(s.len() as int) =~= s);
    lemma_text_index(s2, t, 0);
    assert(s2[i] == t);
    match text_index(s2, t, 0) {
        Some(j) => {
            assert(j <= i);
            if j < i {
                assert(s2[j] == s[j]);
                assert(s[j] == t);
            }
        },
        None => {},
    }
}

/// Interning holds no text twice.
pub proof fn law_interned_texts_are_distinct(s: Seq<Seq<char>>, t: Seq<char>)
    requires
        s.no_duplicates(),
    ensures
        interned(s, t).0.no_duplicates(),
{
    lemma_text_index(s, t, 0);
}

} // verus!
