//! A small map from header names to header values that never holds a name
//! twice and walks its entries in the order in which names were first
//! inserted.

use vstd::prelude::*;

verus! {

/// Header entries as character sequences: `(name, value)` pairs.
pub type HeaderEntries = Seq<(Seq<char>, Seq<char>)>;

/// The position of the entry named `k`, searching from the front.
pub open spec fn key_position(e: HeaderEntries, k: Seq<char>) -> Option<int>
    decreases e.len(),
{
    if e.len() == 0 {
        None
    } else if e[0].0 == k {
        Some(0)
    } else {
        match key_position(e.drop_first(), k) {
            Some(i) => Some(i + 1),
            None => None,
        }
    }
}

/// Whether no name occurs twice among the entries.
pub open spec fn distinct_keys(e: HeaderEntries) -> bool {
    forall|i: int, j: int| 0 <= i < j < e.len() ==> #[trigger] e[i].0 != #[trigger] e[j].0
}

/// The entries once `k` is set to `v`: an existing entry keeps its place and
/// takes the new value, a new name goes last.
pub open spec fn entries_insert(e: HeaderEntries, k: Seq<char>, v: Seq<char>) -> HeaderEntries {
    match key_position(e, k) {
        Some(i) => e.update(i, (k, v)),
        None => e.push((k, v)),
    }
}

/// The value stored under `k`, if any.
pub open spec fn entries_lookup(e: HeaderEntries, k: Seq<char>) -> Option<Seq<char>> {
    match key_position(e, k) {
        Some(i) => Some(e[i].1),
        None => None,
    }
}

/// Characterises `key_position`: it finds the first entry named `k`.
pub proof fn lemma_key_position(e: HeaderEntries, k: Seq<char>)
    ensures
        match key_position(e, k) {
            Some(i) => 0 <= i < e.len() && e[i].0 == k && forall|j: int|
                0 <= j < i ==> #[trigger] e[j].0 != k,
            None => forall|j: int| 0 <= j < e.len() ==> #[trigger] e[j].0 != k,
        },
    decreases e.len(),
{
    if e.len() > 0 && e[0].0 != k {
        lemma_key_position(e.drop_first(), k);
        assert forall|j: int| 0 < j < e.len() implies e[j] == e.drop_first()[j - 1] by {}
    }
}

/// In a map without repeated names, an entry named `k` sits exactly where
/// `key_position` says.
pub proof fn lemma_key_position_unique(e: HeaderEntries, k: Seq<char>, i: int)
    requires
        distinct_keys(e),
        0 <= i < e.len(),
        e[i].0 == k,
    ensures
        key_position(e, k) == Some(i),
{
    lemma_key_position(e, k);
    match key_position(e, k) {
        Some(p) => {
            if p < i {
                assert(e[p].0 != e[i].0);
            }
        },
        None => {
            assert(e[i].0 != k);
        },
    }
}

/// Inserting keeps names distinct.
pub proof fn lemma_insert_distinct(e: HeaderEntries, k: Seq<char>, v: Seq<char>)
    requires
        distinct_keys(e),
    ensures
        distinct_keys(entries_insert(e, k, v)),
{
    lemma_key_position(e, k);
    let r = entries_insert(e, k, v);
    match key_position(e, k) {
        Some(p) => {
            assert forall|i: int, j: int| 0 <= i < j < r.len() implies #[trigger] r[i].0
                != #[trigger] r[j].0 by {
                assert(r[i].0 == e[i].0);
                assert(r[j].0 == e[j].0);
            }
        },
        None => {
            assert forall|i: int, j: int| 0 <= i < j < r.len() implies #[trigger] r[i].0
                != #[trigger] r[j].0 by {
                if j == e.len() {
                    assert(e[i].0 != k);
                } else {
                    assert(r[i] == e[i]);
                    assert(r[j] == e[j]);
                }
            }
        },
    }
}

/// A read gives back what the last write under the same name wrote.
pub proof fn lemma_lookup_after_insert(e: HeaderEntries, k: Seq<char>, v: Seq<char>)
    requires
        distinct_keys(e),
    ensures
        entries_lookup(entries_insert(e, k, v), k) == Some(v),
{
    lemma_key_position(e, k);
    lemma_insert_distinct(e, k, v);
    let r = entries_insert(e, k, v);
    match key_position(e, k) {
        Some(p) => {
            lemma_key_position_unique(r, k, p);
        },
        None => {
            lemma_key_position_unique(r, k, e.len() as int);
        },
    }
}

/// A write under one name leaves what every other name reads unchanged.
pub proof fn lemma_lookup_other_after_insert(
    e: HeaderEntries,
    k: Seq<char>,
    v: Seq<char>,
    other: Seq<char>,
)
    requires
        distinct_keys(e),
        other != k,
    ensures
        entries_lookup(entries_insert(e, k, v), other) == entries_lookup(e, other),
{
    lemma_key_position(e, k);
    lemma_key_position(e, other);
    lemma_insert_distinct(e, k, v);
    let r = entries_insert(e, k, v);
    lemma_key_position(r, other);
    match key_position(e, other) {
        Some(q) => {
            assert(r[q].0 == other);
            lemma_key_position_unique(r, other, q);
        },
        None => {
            match key_position(r, other) {
                Some(q) => {
                    if q < e.len() {
                        assert(r[q].0 == e[q].0);
                    }
                },
                None => {},
            }
        },
    }
}

/// The entries obtained by setting each pair of `pairs` in turn, starting
/// from an empty map.
pub open spec fn entries_from_pairs(pairs: HeaderEntries) -> HeaderEntries
    decreases pairs.len(),
{
    if pairs.len() == 0 {
        Seq::empty()
    } else {
        entries_insert(entries_from_pairs(pairs.drop_last()), pairs.last().0, pairs.last().1)
    }
}

/// The character view of owned header entries.
pub open spec fn entries_view(v: Seq<(String, String)>) -> HeaderEntries {
    v.map_values(|p: (String, String)| (p.0@, p.1@))
}

/// A copy of a list of `(name, value)` pairs.
pub fn copy_pairs(pairs: &[(String, String)]) -> (r: Vec<(String, String)>)
    ensures
        entries_view(r@) == entries_view(pairs@),
{
    let mut r: Vec<(String, String)> = Vec::new();
    let mut i: usize = 0;
    while i < pairs.len()
        invariant
            i <= pairs.len(),
            r@.len() == i,
            entries_view(r@) =~= entries_view(pairs@).take(i as int),
        decreases pairs.len() - i,
    {
        let k = pairs[i].0.clone();
        let v = pairs[i].1.clone();
        let ghost before = r@;
        r.push((k, v));
        assert(entries_view(r@) =~= entries_view(pairs@).take(i + 1)) by {
            assert forall|j: int| 0 <= j < i + 1 implies #[trigger] entries_view(r@)[j]
                == entries_view(pairs@).take(i + 1)[j] by {
                if j < i {
                    assert(r@[j] == before[j]);
                    assert(entries_view(before)[j] == entries_view(pairs@).take(i as int)[j]);
                }
            }
        }
        i = i + 1;
    }
    assert(entries_view(pairs@).take(pairs.len() as int) =~= entries_view(pairs@));
    r
}

/// Header names and values, each name at most once, in first-insertion order.
#[derive(Debug)]
pub struct HeaderMap {
    entries: Vec<(String, String)>,
}

impl View for HeaderMap {
    type V = HeaderEntries;

    closed spec fn view(&self) -> HeaderEntries {
        entries_view(self.entries@)
    }
}

impl HeaderMap {
    #[verifier::type_invariant]
    spec fn names_are_distinct(self) -> bool {
        distinct_keys(self@)
    }

    /// An empty map.
    pub fn new() -> (m: HeaderMap)
        ensures
            m@ == Seq::<(Seq<char>, Seq<char>)>::empty(),
    {
        let m = HeaderMap { entries: Vec::new() };
        assert(m@ =~= Seq::<(Seq<char>, Seq<char>)>::empty());
        m
    }

    /// The number of names in the map.
    pub fn len(&self) -> (n: usize)
        ensures
            n == self@.len(),
    {
        self.entries.len()
    }

    /// The entries, in insertion order.
    pub fn as_slice(&self) -> (r: &[(String, String)])
        ensures
            entries_view(r@) == self@,
            distinct_keys(self@),
    {
        proof {
            use_type_invariant(self);
        }
        self.entries.as_slice()
    }

    /// The `i`-th entry, in insertion order.
    pub fn entry(&self, i: usize) -> (r: (&String, &String))
        requires
            i < self@.len(),
        ensures
            (r.0@, r.1@) == self@[i as int],
    {
        let p = &self.entries[i];
        (&p.0, &p.1)
    }

    fn position(&self, k: &String) -> (r: Option<usize>)
        ensures
            match r {
                Some(i) => i < self@.len() && key_position(self@, k@) == Some(i as int),
                None => key_position(self@, k@) is None,
            },
    {
        proof {
            use_type_invariant(self);
            lemma_key_position(self@, k@);
        }
        let mut i: usize = 0;
        while i < self.entries.len()
            invariant
                i <= self.entries.len(),
                self@.len() == self.entries.len(),
                forall|j: int| 0 <= j < i ==> #[trigger] self@[j].0 != k@,
                match key_position(self@, k@) {
                    Some(p) => 0 <= p < self@.len() && self@[p].0 == k@ && forall|j: int|
                        0 <= j < p ==> #[trigger] self@[j].0 != k@,
                    None => forall|j: int| 0 <= j < self@.len() ==> #[trigger] self@[j].0 != k@,
                },
            decreases self.entries.len() - i,
        {
            assert(self@[i as int].0 == self.entries[i as int].0@);
            if self.entries[i].0 == *k {
                return Some(i);
            }
            i = i + 1;
        }
        None
    }

    /// Sets `name` to `value`, replacing the value of an existing entry in
    /// place or adding a new entry at the end.
    pub fn insert(&mut self, name: String, value: String)
        ensures
            final(self)@ == entries_insert(old(self)@, name@, value@),
    {
        proof {
            use_type_invariant(&*self);
            lemma_insert_distinct(self@, name@, value@);
        }
        let ghost target = entries_insert(self@, name@, value@);
        match self.position(&name) {
            Some(i) => {
                let mut entries: Vec<(String, String)> = Vec::new();
                std::mem::swap(&mut entries, &mut self.entries);
                let ghost before = entries@;
                entries.set(i, (name, value));
                assert(entries_view(entries@) =~= target) by {
                    assert(entries_view(before) == old(self)@);
                }
                self.entries = entries;
            },
            None => {
                let mut entries: Vec<(String, String)> = Vec::new();
                std::mem::swap(&mut entries, &mut self.entries);
                let ghost before = entries@;
                entries.push((name, value));
                assert(entries_view(entries@) =~= target) by {
                    assert(entries_view(before) == old(self)@);
                }
                self.entries = entries;
            },
        }
    }

    /// The value stored under `name`, if any.
    pub fn get(&self, name: &str) -> (r: Option<&String>)
        ensures
            match r {
                Some(v) => entries_lookup(self@, name@) == Some(v@),
                None => entries_lookup(self@, name@) is None,
            },
    {
        let key = String::from_str(name);
        match self.position(&key) {
            Some(i) => {
                assert(self@[i as int].1 == self.entries[i as int].1@);
                Some(&self.entries[i].1)
            },
            None => None,
        }
    }
}

impl Clone for HeaderMap {
    fn clone(&self) -> (r: Self)
        ensures
            r@ == self@,
    {
        proof {
            use_type_invariant(self);
        }
        let mut entries: Vec<(String, String)> = Vec::new();
        let mut i: usize = 0;
        while i < self.entries.len()
            invariant
                i <= self.entries.len(),
                self@.len() == self.entries.len(),
                distinct_keys(self@),
                entries@.len() == i,
                entries_view(entries@) =~= self@.take(i as int),
            decreases self.entries.len() - i,
        {
            let k = self.entries[i].0.clone();
            let v = self.entries[i].1.clone();
            let ghost before = entries@;
            assert(self@[i as int] == (k@, v@));
            entries.push((k, v));
            assert(entries_view(entries@) =~= self@.take(i + 1)) by {
                assert(entries@ == before.push((k, v)));
                assert forall|j: int| 0 <= j < i + 1 implies #[trigger] entries_view(entries@)[j]
                    == self@.take(i + 1)[j] by {
                    if j < i {
                        assert(entries@[j] == before[j]);
                        assert(entries_view(before)[j] == self@.take(i as int)[j]);
                    }
                }
            }
            i = i + 1;
        }
        assert(self@.take(i as int) =~= self@);
        HeaderMap { entries }
    }
}

} // verus!
