//! Module and parameter containers: ordered lists, and insertion-ordered dictionaries that
//! never hold a key twice. The held values are carried through untouched; only the keys and
//! positions are this module's logic.
use crate::error::Error;
use crate::model::normalization;
use crate::text;
use vstd::prelude::*;
use vstd::string::StringExecFns;

verus! {

/// The keys of `entries`, in order.
pub open spec fn keys_of<T>(entries: Seq<(String, T)>) -> Seq<Seq<char>> {
    entries.map_values(|e: (String, T)| e.0@)
}

/// The rejection of a repeated key.
pub open spec fn duplicate_key_message(owner: Seq<char>, key: Seq<char>) -> Seq<char> {
    owner + " contains duplicate key "@ + text::debug_text(key)
}

/// The value stored under `key`, if some entry has it (the first such, of which a
/// dictionary has at most one).
pub open spec fn lookup<T>(entries: Seq<(String, T)>, key: Seq<char>) -> Option<T>
    decreases entries.len(),
{
    if entries.len() == 0 {
        None
    } else {
        match lookup(entries.drop_last(), key) {
            Some(v) => Some(v),
            None => if entries.last().0@ == key {
                Some(entries.last().1)
            } else {
                None
            },
        }
    }
}

/// The position of the first entry keyed `key`.
fn key_position<T>(entries: &Vec<(String, T)>, key: &str) -> (r: Option<usize>)
    ensures
        r matches Some(i) ==> i < entries@.len() && entries@[i as int].0@ == key@ && lookup(
            entries@,
            key@,
        ) == Some(entries@[i as int].1),
        r is None ==> !keys_of(entries@).contains(key@) && lookup(entries@, key@) is None,
{
    let n = entries.len();
    let mut i: usize = 0;
    assert(entries@.take(0) =~= Seq::<(String, T)>::empty());
    while i < n
        invariant
            n == entries@.len(),
            i <= n,
            forall|k: int| 0 <= k < i ==> (#[trigger] entries@[k]).0@ != key@,
            lookup(entries@.take(i as int), key@) is None,
        decreases n - i,
    {
        let ghost t = entries@.take(i as int + 1);
        assert(t.drop_last() =~= entries@.take(i as int));
        if text::text_eq(entries[i].0.as_str(), key) {
            assert(lookup(t, key@) == Some(entries@[i as int].1));
            proof {
                lemma_lookup_sticks(entries@, key@, i as int + 1);
            }
            return Some(i);
        }
        i = i + 1;
    }
    assert(entries@.take(n as int) =~= entries@);
    proof {
        if keys_of(entries@).contains(key@) {
            let k = choose|k: int| 0 <= k < keys_of(entries@).len() && keys_of(entries@)[k] == key@;
            assert(entries@[k].0@ == key@);
        }
    }
    None
}

proof fn lemma_lookup_sticks<T>(entries: Seq<(String, T)>, key: Seq<char>, k: int)
    requires
        0 <= k <= entries.len(),
        lookup(entries.take(k), key) is Some,
    ensures
        lookup(entries, key) == lookup(entries.take(k), key),
    decreases entries.len() - k,
{
    if k < entries.len() {
        assert(entries.take(k + 1).drop_last() =~= entries.take(k));
        lemma_lookup_sticks(entries, key, k + 1);
    } else {
        assert(entries.take(k) =~= entries);
    }
}

/// The first repeated key of `entries`, as `owner`'s rejection.
#[verifier::loop_isolation(false)]
fn check_keys<T>(entries: &Vec<(String, T)>, owner: &str) -> (r: Result<(), Error>)
    ensures
        normalization::first_repeat(keys_of(entries@)) matches Some(i) ==> r is Err && r->Err_0@
            == duplicate_key_message(owner@, keys_of(entries@)[i]),
        normalization::first_repeat(keys_of(entries@)) is None ==> r is Ok,
{
    let ghost n = keys_of(entries@);
    let len = entries.len();
    let mut i: usize = 0;
    assert(n.take(0) =~= Seq::<Seq<char>>::empty());
    while i < len
        invariant
            len == entries@.len(),
            n == keys_of(entries@),
            i <= len,
            normalization::first_repeat(n.take(i as int)) is None,
        decreases len - i,
    {
        let ghost t = n.take(i as int + 1);
        assert(t.drop_last() =~= n.take(i as int));
        let mut j: usize = 0;
        while j < i
            invariant
                len == entries@.len(),
                n == keys_of(entries@),
                i < len,
                j <= i,
                forall|k: int| 0 <= k < j ==> n[k] != n[i as int],
            decreases i - j,
        {
            if text::text_eq(entries[j].0.as_str(), entries[i].0.as_str()) {
                let mut m = String::from_str(owner);
                m.append(" contains duplicate key ");
                m.append(text::debug_quoted(entries[i].0.as_str()).as_str());
                proof {
                    assert(n[j as int] == entries@[j as int].0@);
                    assert(n[i as int] == entries@[i as int].0@);
                    assert(n[j as int] == n[i as int]);
                    assert(t.drop_last()[j as int] == t.last());
                    assert(normalization::first_repeat(t) == Some(i as int));
                    normalization::lemma_first_repeat_sticks(n, i as int + 1);
                }
                return Err(Error::new(m));
            }
            j = j + 1;
        }
        proof {
            if t.drop_last().contains(t.last()) {
                let k = choose|k: int| 0 <= k < t.drop_last().len() && t.drop_last()[k] == t.last();
                assert(n[k] == n[i as int]);
            }
        }
        i = i + 1;
    }
    assert(n.take(len as int) =~= n);
    Ok(())
}

/// No key occurs twice.
pub open spec fn distinct_keys<T>(entries: Seq<(String, T)>) -> bool {
    forall|i: int, j: int| 0 <= i < j < entries.len() ==> entries[i].0@ != entries[j].0@
}

proof fn lemma_no_repeat_distinct<T>(entries: Seq<(String, T)>)
    requires
        normalization::first_repeat(keys_of(entries)) is None,
    ensures
        distinct_keys(entries),
    decreases entries.len(),
{
    if entries.len() > 0 {
        let p = entries.drop_last();
        let n = keys_of(entries);
        assert(n.drop_last() =~= keys_of(p));
        lemma_no_repeat_distinct(p);
        assert forall|i: int, j: int| 0 <= i < j < entries.len() implies entries[i].0@
            != entries[j].0@ by {
            if j < entries.len() - 1 {
                assert(p[i] == entries[i] && p[j] == entries[j]);
            } else {
                assert(n.drop_last()[i] == entries[i].0@);
                assert(!n.drop_last().contains(n.last()));
            }
        }
    }
}

/// What a dictionary gives back of a write: after `key` is inserted with `value` into
/// entries that lack it, looking `key` up yields `value`, and every other key still yields
/// what it did.
pub proof fn lemma_lookup_after_insert<T>(entries: Seq<(String, T)>, key: String, value: T, other: Seq<char>)
    requires
        !keys_of(entries).contains(key@),
    ensures
        lookup(entries.push((key, value)), key@) == Some(value),
        other != key@ ==> lookup(entries.push((key, value)), other) == lookup(entries, other),
{
    let e = entries.push((key, value));
    assert(e.drop_last() =~= entries);
    lemma_lookup_absent(entries, key@);
}

proof fn lemma_lookup_absent<T>(entries: Seq<(String, T)>, key: Seq<char>)
    requires
        !keys_of(entries).contains(key),
    ensures
        lookup(entries, key) is None,
    decreases entries.len(),
{
    if entries.len() > 0 {
        let p = entries.drop_last();
        assert(keys_of(entries)[entries.len() - 1] == entries.last().0@);
        assert forall|k: int| 0 <= k < keys_of(p).len() implies keys_of(p)[k] != key by {
            assert(keys_of(entries)[k] == keys_of(p)[k]);
        }
        lemma_lookup_absent(p, key);
    }
}

/// An ordered list of modules, addressable by position.
pub struct ModuleList<M> {
    items: Vec<M>,
}

impl<M> ModuleList<M> {
    /// The held modules, in order.
    pub closed spec fn items_spec(&self) -> Seq<M> {
        self.items@
    }

    pub fn new(items: Vec<M>) -> (l: Self)
        ensures
            l.items_spec() == items@,
    {
        ModuleList { items }
    }

    /// Append at the end.
    pub fn push(&mut self, item: M)
        ensures
            final(self).items_spec() == old(self).items_spec().push(item),
    {
        self.items.push(item);
    }

    pub fn len(&self) -> (n: usize)
        ensures
            n == self.items_spec().len(),
    {
        self.items.len()
    }

    pub fn is_empty(&self) -> (b: bool)
        ensures
            b == (self.items_spec().len() == 0),
    {
        self.items.len() == 0
    }

    /// The entry at `index`, if there is one.
    pub fn get(&self, index: usize) -> (r: Option<&M>)
        ensures
            index < self.items_spec().len() ==> r == Some(&self.items_spec()[index as int]),
            index >= self.items_spec().len() ==> r is None,
    {
        if index < self.items.len() {
            Some(&self.items[index])
        } else {
            None
        }
    }
}

/// An ordered list of parameters, addressable by position.
pub struct ParameterList<P> {
    items: Vec<P>,
}

impl<P> ParameterList<P> {
    /// The held parameters, in order.
    pub closed spec fn items_spec(&self) -> Seq<P> {
        self.items@
    }

    pub fn new(items: Vec<P>) -> (l: Self)
        ensures
            l.items_spec() == items@,
    {
        ParameterList { items }
    }

    /// Append at the end.
    pub fn push(&mut self, item: P)
        ensures
            final(self).items_spec() == old(self).items_spec().push(item),
    {
        self.items.push(item);
    }

    pub fn len(&self) -> (n: usize)
        ensures
            n == self.items_spec().len(),
    {
        self.items.len()
    }

    pub fn is_empty(&self) -> (b: bool)
        ensures
            b == (self.items_spec().len() == 0),
    {
        self.items.len() == 0
    }

    /// The entry at `index`, if there is one.
    pub fn get(&self, index: usize) -> (r: Option<&P>)
        ensures
            index < self.items_spec().len() ==> r == Some(&self.items_spec()[index as int]),
            index >= self.items_spec().len() ==> r is None,
    {
        if index < self.items.len() {
            Some(&self.items[index])
        } else {
            None
        }
    }
}

/// An insertion-ordered dictionary of modules that never holds a key twice: a repeated key
/// is rejected before anything is stored.
pub struct ModuleDict<M> {
    entries: Vec<(String, M)>,
}

impl<M> ModuleDict<M> {
    /// The held entries, in insertion order.
    pub closed spec fn entries_spec(&self) -> Seq<(String, M)> {
        self.entries@
    }

    /// The entries, rejected at their first repeated key.
    pub fn new(entries: Vec<(String, M)>) -> (r: Result<Self, Error>)
        ensures
            normalization::first_repeat(keys_of(entries@)) matches Some(i) ==> r is Err
                && r->Err_0@ == duplicate_key_message("ModuleDict"@, keys_of(entries@)[i]),
            normalization::first_repeat(keys_of(entries@)) is None ==> r is Ok
                && r->Ok_0.entries_spec() == entries@,
            r matches Ok(d) ==> distinct_keys(d.entries_spec()),
    {
        check_keys(&entries, "ModuleDict")?;
        proof {
            lemma_no_repeat_distinct(entries@);
        }
        Ok(ModuleDict { entries })
    }

    /// Add `value` under `name`, which must not be held yet.
    pub fn insert(&mut self, name: String, value: M) -> (r: Result<(), Error>)
        ensures
            keys_of(old(self).entries_spec()).contains(name@) ==> r is Err && r->Err_0@
                == duplicate_key_message("ModuleDict"@, name@) && final(self).entries_spec()
                == old(self).entries_spec(),
            !keys_of(old(self).entries_spec()).contains(name@) ==> r is Ok
                && final(self).entries_spec() == old(self).entries_spec().push((name, value)),
            distinct_keys(old(self).entries_spec()) ==> distinct_keys(final(self).entries_spec()),
    {
        match key_position(&self.entries, name.as_str()) {
            Some(i) => {
                assert(keys_of(self.entries@)[i as int] == name@);
                let mut m = String::from_str("ModuleDict");
                m.append(" contains duplicate key ");
                m.append(text::debug_quoted(name.as_str()).as_str());
                proof {
                    reveal_strlit("ModuleDict");
                }
                Err(Error::new(m))
            },
            None => {
                let ghost before = self.entries@;
                self.entries.push((name, value));
                proof {
                    assert forall|i: int, j: int|
                        distinct_keys(before) && 0 <= i < j < self.entries@.len() implies self.entries@[i].0@
                        != self.entries@[j].0@ by {
                        if j == before.len() {
                            assert(keys_of(before)[i] == before[i].0@);
                        }
                    }
                }
                Ok(())
            },
        }
    }

    /// The value held under `name`, if any.
    pub fn get(&self, name: &str) -> (r: Option<&M>)
        ensures
            match lookup(self.entries_spec(), name@) {
                Some(v) => r == Some(&v),
                None => r is None,
            },
    {
        match key_position(&self.entries, name) {
            Some(i) => Some(&self.entries[i].1),
            None => None,
        }
    }

    pub fn len(&self) -> (n: usize)
        ensures
            n == self.entries_spec().len(),
    {
        self.entries.len()
    }

    pub fn is_empty(&self) -> (b: bool)
        ensures
            b == (self.entries_spec().len() == 0),
    {
        self.entries.len() == 0
    }
}

/// An insertion-ordered dictionary of parameters that never holds a key twice: a repeated key
/// is rejected before anything is stored.
pub struct ParameterDict<P> {
    entries: Vec<(String, P)>,
}

impl<P> ParameterDict<P> {
    /// The held entries, in insertion order.
    pub closed spec fn entries_spec(&self) -> Seq<(String, P)> {
        self.entries@
    }

    /// The entries, rejected at their first repeated key.
    pub fn new(entries: Vec<(String, P)>) -> (r: Result<Self, Error>)
        ensures
            normalization::first_repeat(keys_of(entries@)) matches Some(i) ==> r is Err
                && r->Err_0@ == duplicate_key_message("ParameterDict"@, keys_of(entries@)[i]),
            normalization::first_repeat(keys_of(entries@)) is None ==> r is Ok
                && r->Ok_0.entries_spec() == entries@,
            r matches Ok(d) ==> distinct_keys(d.entries_spec()),
    {
        check_keys(&entries, "ParameterDict")?;
        proof {
            lemma_no_repeat_distinct(entries@);
        }
        Ok(ParameterDict { entries })
    }

    /// Add `value` under `name`, which must not be held yet.
    pub fn insert(&mut self, name: String, value: P) -> (r: Result<(), Error>)
        ensures
            keys_of(old(self).entries_spec()).contains(name@) ==> r is Err && r->Err_0@
                == duplicate_key_message("ParameterDict"@, name@) && final(self).entries_spec()
                == old(self).entries_spec(),
            !keys_of(old(self).entries_spec()).contains(name@) ==> r is Ok
                && final(self).entries_spec() == old(self).entries_spec().push((name, value)),
            distinct_keys(old(self).entries_spec()) ==> distinct_keys(final(self).entries_spec()),
    {
        match key_position(&self.entries, name.as_str()) {
            Some(i) => {
                assert(keys_of(self.entries@)[i as int] == name@);
                let mut m = String::from_str("ParameterDict");
                m.append(" contains duplicate key ");
                m.append(text::debug_quoted(name.as_str()).as_str());
                proof {
                    reveal_strlit("ParameterDict");
                }
                Err(Error::new(m))
            },
            None => {
                let ghost before = self.entries@;
                self.entries.push((name, value));
                proof {
                    assert forall|i: int, j: int|
                        distinct_keys(before) && 0 <= i < j < self.entries@.len() implies self.entries@[i].0@
                        != self.entries@[j].0@ by {
                        if j == before.len() {
                            assert(keys_of(before)[i] == before[i].0@);
                        }
                    }
                }
                Ok(())
            },
        }
    }

    /// The value held under `name`, if any.
    pub fn get(&self, name: &str) -> (r: Option<&P>)
        ensures
            match lookup(self.entries_spec(), name@) {
                Some(v) => r == Some(&v),
                None => r is None,
            },
    {
        match key_position(&self.entries, name) {
            Some(i) => Some(&self.entries[i].1),
            None => None,
        }
    }

    pub fn len(&self) -> (n: usize)
        ensures
            n == self.entries_spec().len(),
    {
        self.entries.len()
    }

    pub fn is_empty(&self) -> (b: bool)
        ensures
            b == (self.entries_spec().len() == 0),
    {
        self.entries.len() == 0
    }
}

} // verus!
