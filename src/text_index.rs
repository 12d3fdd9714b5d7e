//! A small map from keys made of several strings to a string.
use vstd::prelude::*;

verus! {

/// The parts of a key as text.
pub open spec fn key_view(k: Seq<String>) -> Seq<Seq<char>> {
    k.map_values(|s: String| s@)
}

/// The map that a list of entries denotes: a later entry wins over an
/// earlier one with the same key.
pub open spec fn entries_view(e: Seq<(Vec<String>, String)>) -> Map<Seq<Seq<char>>, Seq<char>>
    decreases e.len(),
{
    if e.len() == 0 {
        Map::empty()
    } else {
        entries_view(e.drop_last()).insert(key_view(e.last().0@), e.last().1@)
    }
}

/// An entry with key `k`, and none after it with that key, gives the value
/// that the list denotes for `k`.
proof fn lemma_entries_view_last(e: Seq<(Vec<String>, String)>, k: Seq<Seq<char>>, i: int)
    requires
        0 <= i < e.len(),
        key_view(e[i].0@) == k,
        forall|j: int| i < j < e.len() ==> key_view(e[j].0@) != k,
    ensures
        entries_view(e).contains_key(k),
        entries_view(e)[k] == e[i].1@,
    decreases e.len(),
{
    if i < e.len() - 1 {
        let d = e.drop_last();
        assert forall|j: int| i < j < d.len() implies key_view(d[j].0@) != k by {
            assert(d[j] == e[j]);
        }
        lemma_entries_view_last(d, k, i);
    }
}

/// A list none of whose entries has key `k` does not map `k`.
proof fn lemma_entries_view_absent(e: Seq<(Vec<String>, String)>, k: Seq<Seq<char>>)
    requires
        forall|j: int| 0 <= j < e.len() ==> key_view(e[j].0@) != k,
    ensures
        !entries_view(e).contains_key(k),
    decreases e.len(),
{
    if e.len() > 0 {
        let d = e.drop_last();
        assert forall|j: int| 0 <= j < d.len() implies key_view(d[j].0@) != k by {
            assert(d[j] == e[j]);
        }
        lemma_entries_view_absent(d, k);
    }
}

/// Replacing the last entry with key `k` sets `k` in the map.
proof fn lemma_entries_view_update(
    e: Seq<(Vec<String>, String)>,
    i: int,
    n: (Vec<String>, String),
)
    requires
        0 <= i < e.len(),
        key_view(e[i].0@) == key_view(n.0@),
        forall|j: int| i < j < e.len() ==> key_view(e[j].0@) != key_view(n.0@),
    ensures
        entries_view(e.update(i, n)) == entries_view(e).insert(key_view(n.0@), n.1@),
    decreases e.len(),
{
    let k = key_view(n.0@);
    let u = e.update(i, n);
    if i == e.len() - 1 {
        assert(u.drop_last() =~= e.drop_last());
        assert(entries_view(u) =~= entries_view(e).insert(k, n.1@));
    } else {
        let d = e.drop_last();
        assert forall|j: int| i < j < d.len() implies key_view(d[j].0@) != k by {
            assert(d[j] == e[j]);
        }
        lemma_entries_view_update(d, i, n);
        assert(u.drop_last() =~= d.update(i, n));
        assert(u.last() == e.last());
        assert(entries_view(u) =~= entries_view(e).insert(k, n.1@));
    }
}

/// True when the two keys have the same parts.
pub fn same_key(a: &Vec<String>, b: &Vec<String>) -> (r: bool)
    ensures
        r == (key_view(a@) == key_view(b@)),
{
    if a.len() != b.len() {
        proof {
            assert(key_view(a@).len() != key_view(b@).len());
        }
        return false;
    }
    let n = a.len();
    let mut i: usize = 0;
    while i < n
        invariant
            n == a@.len(),
            n == b@.len(),
            i <= n,
            forall|j: int| 0 <= j < i ==> a@[j]@ == b@[j]@,
        decreases n - i,
    {
        if a[i] != b[i] {
            proof {
                assert(key_view(a@)[i as int] != key_view(b@)[i as int]);
            }
            return false;
        }
        i = i + 1;
    }
    assert(key_view(a@) =~= key_view(b@));
    true
}

/// A map from keys made of several strings to a string.
pub struct TextIndex {
    entries: Vec<(Vec<String>, String)>,
}

impl View for TextIndex {
    type V = Map<Seq<Seq<char>>, Seq<char>>;

    closed spec fn view(&self) -> Map<Seq<Seq<char>>, Seq<char>> {
        entries_view(self.entries@)
    }
}

impl TextIndex {
    /// An empty map.
    pub fn new() -> (r: TextIndex)
        ensures
            r@ == Map::<Seq<Seq<char>>, Seq<char>>::empty(),
    {
        TextIndex { entries: Vec::new() }
    }

    /// Position of the last entry with key `k`, if any.
    fn find(&self, k: &Vec<String>) -> (r: Option<usize>)
        ensures
            r is Some ==> r->Some_0 < self.entries@.len() && key_view(
                self.entries@[r->Some_0 as int].0@,
            ) == key_view(k@) && forall|j: int|
                r->Some_0 < j < self.entries@.len() ==> key_view(self.entries@[j].0@) != key_view(
                    k@,
                ),
            r is None ==> forall|j: int|
                0 <= j < self.entries@.len() ==> key_view(self.entries@[j].0@) != key_view(k@),
    {
        let mut i = self.entries.len();
        while i > 0
            invariant
                i <= self.entries@.len(),
                forall|j: int|
                    i <= j < self.entries@.len() ==> key_view(self.entries@[j].0@) != key_view(
                        k@,
                    ),
            decreases i,
        {
            if same_key(&self.entries[i - 1].0, k) {
                return Some(i - 1);
            }
            i = i - 1;
        }
        None
    }

    /// The value of key `k`, if the map has one.
    pub fn get(&self, k: &Vec<String>) -> (r: Option<&String>)
        ensures
            r is Some <==> self@.contains_key(key_view(k@)),
            r is Some ==> r->Some_0@ == self@[key_view(k@)],
    {
        match self.find(k) {
            Some(i) => {
                proof {
                    lemma_entries_view_last(self.entries@, key_view(k@), i as int);
                }
                Some(&self.entries[i].1)
            },
            None => {
                proof {
                    lemma_entries_view_absent(self.entries@, key_view(k@));
                }
                None
            },
        }
    }

    /// Sets key `k` to `v`.
    pub fn insert(&mut self, k: Vec<String>, v: String)
        ensures
            final(self)@ == old(self)@.insert(key_view(k@), v@),
    {
        match self.find(&k) {
            Some(i) => {
                proof {
                    lemma_entries_view_update(self.entries@, i as int, (k, v));
                }
                self.entries.set(i, (k, v));
            },
            None => {
                let ghost before = self.entries@;
                self.entries.push((k, v));
                assert(self.entries@.drop_last() =~= before);
            },
        }
    }
}

} // verus!
