//! Tables keyed by name, and the order of names.

use vstd::prelude::*;
use vstd::string::*;

use crate::text::same_text;

verus! {

/// Lexicographic order of texts by code point.
pub open spec fn text_less(a: Seq<char>, b: Seq<char>) -> bool
    decreases a.len(),
{
    if b.len() == 0 {
        false
    } else if a.len() == 0 {
        true
    } else if a[0] != b[0] {
        (a[0] as int) < (b[0] as int)
    } else {
        text_less(a.drop_first(), b.drop_first())
    }
}

/// The order is total.
pub proof fn lemma_text_less_total(a: Seq<char>, b: Seq<char>)
    ensures
        a != b ==> text_less(a, b) || text_less(b, a),
        text_less(a, b) ==> !text_less(b, a) && a != b,
    decreases a.len(),
{
    if a.len() > 0 && b.len() > 0 && a[0] == b[0] {
        lemma_text_less_total(a.drop_first(), b.drop_first());
        if a.drop_first() == b.drop_first() {
            assert(a =~= seq![a[0]] + a.drop_first());
            assert(b =~= seq![b[0]] + b.drop_first());
        }
    } else if a.len() == 0 && b.len() == 0 {
        assert(a =~= b);
    }
}

/// The order is transitive.
pub proof fn lemma_text_less_trans(a: Seq<char>, b: Seq<char>, c: Seq<char>)
    requires
        text_less(a, b),
        text_less(b, c),
    ensures
        text_less(a, c),
    decreases a.len(),
{
    if a.len() > 0 && b.len() > 0 && c.len() > 0 && a[0] == b[0] && b[0] == c[0] {
        lemma_text_less_trans(a.drop_first(), b.drop_first(), c.drop_first());
    }
}

/// Executable form of [`text_less`].
pub fn is_text_less(a: &str, b: &str) -> (r: bool)
    ensures
        r == text_less(a@, b@),
{
    let na: usize = a.unicode_len();
    let nb: usize = b.unicode_len();
    let mut i: usize = 0;
    assert(a@.skip(0) =~= a@ && b@.skip(0) =~= b@);
    while i < na && i < nb
        invariant
            i <= na,
            i <= nb,
            na == a@.len(),
            nb == b@.len(),
            text_less(a@.skip(i as int), b@.skip(i as int)) == text_less(a@, b@),
        decreases na - i,
    {
        let ca: char = a.get_char(i);
        let cb: char = b.get_char(i);
        assert(a@.skip(i as int)[0] == ca && b@.skip(i as int)[0] == cb);
        if ca != cb {
            return ca < cb;
        }
        assert(a@.skip(i as int).drop_first() =~= a@.skip(i + 1));
        assert(b@.skip(i as int).drop_first() =~= b@.skip(i + 1));
        i += 1;
    }
    i < nb
}

/// Values keyed by name; no name occurs twice.
#[derive(Debug, PartialEq, Eq)]
pub struct NameTable<V> {
    pub entries: Vec<(String, V)>,
}

/// The least index at or behind `from` of an entry with the given name.
pub open spec fn name_index<V>(entries: Seq<(String, V)>, name: Seq<char>, from: int) -> Option<int>
    decreases entries.len() - from,
{
    if from < 0 || from >= entries.len() {
        None
    } else if entries[from].0@ == name {
        Some(from)
    } else {
        name_index(entries, name, from + 1)
    }
}

/// What is found bears the name, and nothing is missed.
pub proof fn lemma_name_index<V>(entries: Seq<(String, V)>, name: Seq<char>, from: int)
    requires
        0 <= from,
    ensures
        match name_index(entries, name, from) {
            Some(i) => from <= i < entries.len() && entries[i].0@ == name,
            None => forall|k: int| from <= k < entries.len() ==> (#[trigger] entries[k]).0@ != name,
        },
    decreases entries.len() - from,
{
    if from < entries.len() && entries[from].0@ != name {
        lemma_name_index(entries, name, from + 1);
    }
}

/// Where a name stands more than once, its first entry counts.
pub proof fn law_first_entry_counts<V>(
    entries: Seq<(String, V)>,
    name: Seq<char>,
    from: int,
    i: int,
)
    requires
        0 <= from <= i < entries.len(),
        entries[i].0@ == name,
        forall|k: int| from <= k < i ==> (#[trigger] entries[k]).0@ != name,
    ensures
        name_index(entries, name, from) == Some(i),
    decreases i - from,
{
    if from < i {
        assert(entries[from].0@ != name);
        law_first_entry_counts(entries, name, from + 1, i);
    }
}

/// The entries after a value has been set.
pub open spec fn inserted<V>(entries: Seq<(String, V)>, name: String, value: V) -> Seq<
    (String, V),
> {
    match name_index(entries, name@, 0) {
        Some(i) => entries.update(i, (entries[i].0, value)),
        None => entries.push((name, value)),
    }
}

proof fn lemma_same_names<V>(a: Seq<(String, V)>, b: Seq<(String, V)>, name: Seq<char>, from: int)
    requires
        a.len() <= b.len(),
        0 <= from,
        forall|k: int| 0 <= k < a.len() ==> (#[trigger] a[k]).0 == b[k].0,
        forall|k: int| a.len() <= k < b.len() ==> (#[trigger] b[k]).0@ != name,
    ensures
        name_index(a, name, from) == name_index(b, name, from),
    decreases b.len() - from,
{
    if from < b.len() {
        if from < a.len() {
            assert(a[from].0 == b[from].0);
            lemma_same_names(a, b, name, from + 1);
        } else {
            lemma_name_index(b, name, from);
        }
    }
}

/// Setting a value changes what its name is found to be, and nothing else.
proof fn lemma_inserted<V>(entries: Seq<(String, V)>, name: String, value: V)
    ensures
        ({
            let after = inserted(entries, name, value);
            forall|n: Seq<char>|
                match #[trigger] name_index(after, n, 0) {
                    Some(i) => 0 <= i < after.len() && if n == name@ {
                        after[i].1 == value
                    } else {
                        name_index(entries, n, 0) == Some(i) && i < entries.len() && after[i].1
                            == entries[i].1
                    },
                    None => n != name@ && name_index(entries, n, 0) is None,
                }
        }),
{
    let after = inserted(entries, name, value);
    lemma_name_index(entries, name@, 0);
    assert forall|n: Seq<char>|
        match #[trigger] name_index(after, n, 0) {
            Some(i) => 0 <= i < after.len() && if n == name@ {
                after[i].1 == value
            } else {
                name_index(entries, n, 0) == Some(i) && i < entries.len() && after[i].1
                    == entries[i].1
            },
            None => n != name@ && name_index(entries, n, 0) is None,
        } by {
        lemma_name_index(after, n, 0);
        lemma_name_index(entries, n, 0);
        if n != name@ {
            lemma_same_names(entries, after, n, 0);
        } else {
            match name_index(entries, n, 0) {
                Some(i) => {
                    lemma_same_names(entries, after, n, 0);
                },
                None => {
                    assert(after.last().0@ == n);
                    match name_index(after, n, 0) {
                        Some(i) => {
                            if i < entries.len() {
                                assert(entries[i].0@ == n);
                            }
                        },
                        None => {
                            assert(after[after.len() - 1].0@ == n);
                        },
                    }
                },
            }
        }
    }
}

impl<V> NameTable<V> {
    /// No name occurs twice.
    pub open spec fn wf(self) -> bool {
        forall|i: int, j: int|
            0 <= i < j < self.entries@.len() ==> (#[trigger] self.entries@[i]).0@ != (
            #[trigger] self.entries@[j]).0@
    }

    /// The name is a key.
    pub open spec fn has(self, name: Seq<char>) -> bool {
        exists|i: int| 0 <= i < self.entries@.len() && (#[trigger] self.entries@[i]).0@ == name
    }

    /// The table as a map.
    pub open spec fn as_map(self) -> Map<Seq<char>, V> {
        Map::new(
            |name: Seq<char>| name_index(self.entries@, name, 0) is Some,
            |name: Seq<char>| self.entries@[name_index(self.entries@, name, 0)->0].1,
        )
    }

    /// The empty table.
    pub fn new() -> (r: Self)
        ensures
            r.entries@.len() == 0,
            r.wf(),
            r.as_map() == Map::<Seq<char>, V>::empty(),
    {
        let r = NameTable { entries: Vec::new() };
        assert(r.as_map() =~= Map::<Seq<char>, V>::empty());
        r
    }

    /// The value of a name, by the table as a map.
    pub fn lookup(&self, name: &str) -> (r: Option<&V>)
        ensures
            match r {
                Some(v) => self.as_map().contains_key(name@) && self.as_map()[name@] == *v,
                None => !self.as_map().contains_key(name@),
            },
    {
        self.get(name)
    }

    /// The value of a name.
    pub fn get(&self, name: &str) -> (r: Option<&V>)
        ensures
            match r {
                Some(v) => name_index(self.entries@, name@, 0) matches Some(i) && 0 <= i
                    < self.entries@.len() && self.entries@[i].1 == *v,
                None => name_index(self.entries@, name@, 0) is None,
            },
            r is Some == self.has(name@),
    {
        let mut i: usize = 0;
        while i < self.entries.len()
            invariant
                i <= self.entries.len(),
                name_index(self.entries@, name@, i as int) == name_index(
                    self.entries@,
                    name@,
                    0,
                ),
                forall|k: int| 0 <= k < i ==> (#[trigger] self.entries@[k]).0@ != name@,
            decreases self.entries.len() - i,
        {
            let entry = &self.entries[i];
            if same_text(entry.0.as_str(), name) {
                assert(self.entries@[i as int].0@ == name@);
                return Some(&entry.1);
            }
            i += 1;
        }
        None
    }

    /// Gives up the value of a name.
    pub fn take(self, name: &str) -> (r: Option<V>)
        ensures
            match r {
                Some(v) => name_index(self.entries@, name@, 0) matches Some(i) && 0 <= i
                    < self.entries@.len() && self.entries@[i].1 == v,
                None => name_index(self.entries@, name@, 0) is None,
            },
    {
        let ghost all = self.entries@;
        let mut entries: Vec<(String, V)> = self.entries;
        let mut i: usize = 0;
        while i < entries.len()
            invariant
                i <= entries@.len(),
                entries@ == all,
                all == self.entries@,
                name_index(all, name@, i as int) == name_index(all, name@, 0),
            decreases entries@.len() - i,
        {
            if same_text(entries[i].0.as_str(), name) {
                let (_, value) = entries.remove(i);
                return Some(value);
            }
            i += 1;
        }
        None
    }

    /// Whether a name is a key.
    pub fn contains_key(&self, name: &str) -> (r: bool)
        ensures
            r == self.has(name@),
    {
        self.get(name).is_some()
    }

    /// Sets the value of a name; a new name goes to the end.
    pub fn insert(&mut self, name: String, value: V)
        requires
            old(self).wf(),
        ensures
            final(self).wf(),
            match name_index(old(self).entries@, name@, 0) {
                Some(i) => final(self).entries@ == old(self).entries@.update(
                    i,
                    (old(self).entries@[i].0, value),
                ),
                None => final(self).entries@ == old(self).entries@.push((name, value)),
            },
            final(self).as_map() == old(self).as_map().insert(name@, value),
    {
        proof {
            lemma_name_index(self.entries@, name@, 0);
            lemma_inserted(self.entries@, name, value);
        }
        let mut i: usize = 0;
        while i < self.entries.len()
            invariant
                i <= self.entries.len(),
                *self == *old(self),
                self.wf(),
                name_index(self.entries@, name@, i as int) == name_index(
                    self.entries@,
                    name@,
                    0,
                ),
            decreases self.entries.len() - i,
        {
            if self.entries[i].0 == name {
                proof {
                    lemma_inserted(self.entries@, name, value);
                }
                let kept: String = self.entries[i].0.clone();
                self.entries.set(i, (kept, value));
                assert(self.entries@ =~= inserted(old(self).entries@, name, value));
                assert(self.as_map() =~= old(self).as_map().insert(name@, value));
                return;
            }
            i += 1;
        }
        self.entries.push((name, value));
        assert(self.as_map() =~= old(self).as_map().insert(name@, value));
    }
}

/// The text is among the given ones.
pub open spec fn among(names: Seq<String>, name: Seq<char>) -> bool {
    exists|i: int| 0 <= i < names.len() && (#[trigger] names[i])@ == name
}

/// Executable form of [`among`].
pub fn is_among(names: &Vec<String>, name: &str) -> (r: bool)
    ensures
        r == among(names@, name@),
{
    let mut i: usize = 0;
    while i < names.len()
        invariant
            i <= names.len(),
            forall|k: int| 0 <= k < i ==> (#[trigger] names@[k])@ != name@,
        decreases names.len() - i,
    {
        if same_text(names[i].as_str(), name) {
            assert(names@[i as int]@ == name@);
            return true;
        }
        i += 1;
    }
    false
}

/// The texts ascend strictly.
pub open spec fn ascending(names: Seq<String>) -> bool {
    forall|i: int, j: int|
        0 <= i < j < names.len() ==> text_less((#[trigger] names[i])@, (#[trigger] names[j])@)
}

/// Puts a new text at its place among strictly ascending ones.
pub fn insert_sorted(names: &mut Vec<String>, name: String)
    requires
        ascending(old(names)@),
        !among(old(names)@, name@),
    ensures
        ascending(final(names)@),
        final(names)@.len() == old(names)@.len() + 1,
        forall|t: Seq<char>|
            #[trigger] among(final(names)@, t) <==> among(old(names)@, t) || t == name@,
{
    let mut i: usize = 0;
    while i < names.len() && is_text_less(names[i].as_str(), name.as_str())
        invariant
            i <= names.len(),
            names@ == old(names)@,
            forall|k: int| 0 <= k < i ==> text_less((#[trigger] names@[k])@, name@),
        decreases names.len() - i,
    {
        i += 1;
    }
    let ghost before = names@;
    proof {
        if i < before.len() {
            assert(before[i as int]@ != name@);
            lemma_text_less_total(before[i as int]@, name@);
            assert forall|k: int| i <= k < before.len() implies text_less(
                name@,
                (#[trigger] before[k])@,
            ) by {
                if k > i {
                    lemma_text_less_trans(name@, before[i as int]@, before[k]@);
                }
            }
        }
    }
    names.insert(i, name);
    assert(names@ =~= before.insert(i as int, name));
    assert forall|a: int, b: int| 0 <= a < b < names@.len() implies text_less(
        (#[trigger] names@[a])@,
        (#[trigger] names@[b])@,
    ) by {
        if a < i && b > i {
            assert(names@[a] == before[a] && names@[b] == before[b - 1]);
        } else if a < i && b < i {
            assert(names@[a] == before[a] && names@[b] == before[b]);
        } else if a > i {
            assert(names@[a] == before[a - 1] && names@[b] == before[b - 1]);
        } else if a == i {
            assert(names@[b] == before[b - 1]);
        } else {
            assert(names@[a] == before[a]);
        }
    }
    assert forall|t: Seq<char>| #[trigger] among(names@, t) <==> among(before, t) || t == name@ by {
        if among(names@, t) {
            let k = choose|k: int| 0 <= k < names@.len() && (#[trigger] names@[k])@ == t;
            if k < i {
                assert(before[k]@ == t);
            } else if k > i {
                assert(before[k - 1]@ == t);
            }
        }
        if among(before, t) {
            let k = choose|k: int| 0 <= k < before.len() && (#[trigger] before[k])@ == t;
            if k < i {
                assert(names@[k]@ == t);
            } else {
                assert(names@[k + 1]@ == t);
            }
        }
        if t == name@ {
            assert(names@[i as int]@ == t);
        }
    }
}

} // verus!
