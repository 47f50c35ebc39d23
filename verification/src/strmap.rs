//! A small string-keyed map kept as a pair of parallel vectors, with a
//! mathematical `Map` view. Insertion replaces the entry of an existing
//! key, so keys stay unique; removal keeps the order of the rest.

use vstd::prelude::*;

use crate::text::str_eq_chars;

verus! {

/// The map described by a sequence of key/value entries, later entries
/// winning over earlier ones.
pub open spec fn map_of<T>(es: Seq<(Seq<char>, T)>) -> Map<Seq<char>, T>
    decreases es.len(),
{
    if es.len() == 0 {
        Map::empty()
    } else {
        map_of(es.drop_last()).insert(es.last().0, es.last().1)
    }
}

/// No key occurs twice in the entry sequence.
pub open spec fn distinct_keys<T>(es: Seq<(Seq<char>, T)>) -> bool {
    forall|i: int, j: int| 0 <= i < j < es.len() ==> es[i].0 != es[j].0
}

pub proof fn lemma_map_of_contains<T>(es: Seq<(Seq<char>, T)>, k: Seq<char>)
    ensures
        map_of(es).contains_key(k) <==> exists|i: int| 0 <= i < es.len() && es[i].0 == k,
    decreases es.len(),
{
    if es.len() > 0 {
        lemma_map_of_contains(es.drop_last(), k);
        if es.last().0 == k {
            assert(es[es.len() - 1].0 == k);
        } else if map_of(es).contains_key(k) {
            let i = choose|i: int| 0 <= i < es.drop_last().len() && es.drop_last()[i].0 == k;
            assert(es[i].0 == k);
        } else if exists|i: int| 0 <= i < es.len() && es[i].0 == k {
            let i = choose|i: int| 0 <= i < es.len() && es[i].0 == k;
            assert(es.drop_last()[i].0 == k);
        }
    }
}

pub proof fn lemma_map_of_get<T>(es: Seq<(Seq<char>, T)>, i: int)
    requires
        distinct_keys(es),
        0 <= i < es.len(),
    ensures
        map_of(es).contains_key(es[i].0),
        map_of(es)[es[i].0] == es[i].1,
    decreases es.len(),
{
    if i == es.len() - 1 {
    } else {
        assert(distinct_keys(es.drop_last())) by {
            assert(forall|x: int, y: int|
                0 <= x < y < es.drop_last().len() ==> es.drop_last()[x] == es[x]
                    && es.drop_last()[y] == es[y]);
        }
        lemma_map_of_get(es.drop_last(), i);
        assert(es.drop_last()[i] == es[i]);
        assert(es.last().0 != es[i].0);
    }
}

proof fn lemma_distinct_drop_last<T>(es: Seq<(Seq<char>, T)>)
    requires
        distinct_keys(es),
        es.len() > 0,
    ensures
        distinct_keys(es.drop_last()),
        !map_of(es.drop_last()).contains_key(es.last().0),
{
    assert(forall|x: int, y: int|
        0 <= x < y < es.drop_last().len() ==> es.drop_last()[x] == es[x] && es.drop_last()[y]
            == es[y]);
    lemma_map_of_contains(es.drop_last(), es.last().0);
    if map_of(es.drop_last()).contains_key(es.last().0) {
        let i = choose|i: int|
            0 <= i < es.drop_last().len() && es.drop_last()[i].0 == es.last().0;
        assert(es[i].0 == es[es.len() - 1].0);
    }
}

pub proof fn lemma_map_of_update<T>(es: Seq<(Seq<char>, T)>, i: int, v: T)
    requires
        distinct_keys(es),
        0 <= i < es.len(),
    ensures
        map_of(es.update(i, (es[i].0, v))) =~= map_of(es).insert(es[i].0, v),
    decreases es.len(),
{
    let es2 = es.update(i, (es[i].0, v));
    lemma_distinct_drop_last(es);
    if i == es.len() - 1 {
        assert(es2.drop_last() =~= es.drop_last());
    } else {
        lemma_map_of_update(es.drop_last(), i, v);
        assert(es2.drop_last() =~= es.drop_last().update(i, (es[i].0, v)));
        assert(es.last().0 != es[i].0);
        assert(es2.last() == es.last());
    }
}

pub proof fn lemma_map_of_remove<T>(es: Seq<(Seq<char>, T)>, i: int)
    requires
        distinct_keys(es),
        0 <= i < es.len(),
    ensures
        map_of(es.remove(i)) =~= map_of(es).remove(es[i].0),
        distinct_keys(es.remove(i)),
    decreases es.len(),
{
    lemma_distinct_drop_last(es);
    assert(forall|x: int|
        0 <= x < es.remove(i).len() ==> es.remove(i)[x] == (if x < i {
            es[x]
        } else {
            es[x + 1]
        }));
    if i == es.len() - 1 {
        assert(es.remove(i) =~= es.drop_last());
        lemma_map_of_contains(es.drop_last(), es.last().0);
    } else {
        lemma_map_of_remove(es.drop_last(), i);
        assert(es.remove(i).drop_last() =~= es.drop_last().remove(i));
        assert(es.remove(i).last() == es.last());
        assert(es.last().0 != es[i].0);
    }
}

/// A map from strings to values, with unique keys.
pub struct StringMap<V: View> {
    keys: Vec<String>,
    vals: Vec<V>,
}

impl<V: View> StringMap<V> {
    /// The entries as a sequence of key/value pairs, in insertion order.
    pub closed spec fn entries(self) -> Seq<(Seq<char>, V::V)> {
        Seq::new(self.keys@.len(), |i: int| (self.keys@[i]@, self.vals@[i]@))
    }

    /// The keys in insertion order.
    pub open spec fn key_seq(self) -> Seq<Seq<char>> {
        self.entries().map_values(|e: (Seq<char>, V::V)| e.0)
    }

    /// The stored values, in insertion order (used to carry value
    /// well-formedness through the map).
    pub closed spec fn val_seq(self) -> Seq<V> {
        self.vals@
    }

    /// Well-formedness: as many keys as values, and no key twice.
    pub closed spec fn wf(self) -> bool {
        &&& self.keys@.len() == self.vals@.len()
        &&& distinct_keys(self.entries())
    }

    /// A well-formed map has as many keys as values and no key twice.
    pub proof fn lemma_wf_entries(self)
        requires
            self.wf(),
        ensures
            distinct_keys(self.entries()),
            self.entries().len() == self.key_seq().len(),
            self.entries().len() == self.val_seq().len(),
            forall|i: int, j: int|
                0 <= i < j < self.key_seq().len() ==> self.key_seq()[i] != self.key_seq()[j],
    {
        assert forall|i: int, j: int|
            0 <= i < j < self.key_seq().len() implies self.key_seq()[i] != self.key_seq()[j] by {
            assert(self.key_seq()[i] == self.entries()[i].0);
            assert(self.key_seq()[j] == self.entries()[j].0);
        }
    }

    /// Every key of the view is one of `key_seq`, and conversely.
    pub proof fn lemma_view_keys(self)
        requires
            self.wf(),
        ensures
            forall|k: Seq<char>| self@.contains_key(k) <==> self.key_seq().contains(k),
    {
        assert forall|k: Seq<char>| self@.contains_key(k) <==> self.key_seq().contains(k) by {
            lemma_map_of_contains(self.entries(), k);
            if exists|i: int| 0 <= i < self.entries().len() && self.entries()[i].0 == k {
                let i = choose|i: int|
                    0 <= i < self.entries().len() && self.entries()[i].0 == k;
                assert(self.key_seq()[i] == k);
            }
            if self.key_seq().contains(k) {
                let i = choose|i: int|
                    0 <= i < self.key_seq().len() && self.key_seq()[i] == k;
                assert(self.entries()[i].0 == k);
            }
        }
    }
}

impl<V: View> View for StringMap<V> {
    type V = Map<Seq<char>, V::V>;

    open spec fn view(&self) -> Map<Seq<char>, V::V> {
        map_of(self.entries())
    }
}

impl<V: View> StringMap<V> {
    pub fn new() -> (r: Self)
        ensures
            r.wf(),
            r@ == Map::<Seq<char>, V::V>::empty(),
            r.key_seq() == Seq::<Seq<char>>::empty(),
            r.val_seq() == Seq::<V>::empty(),
    {
        let r = StringMap { keys: Vec::new(), vals: Vec::new() };
        proof {
            assert(r.entries() =~= Seq::<(Seq<char>, V::V)>::empty());
            assert(r.key_seq() =~= Seq::<Seq<char>>::empty());
        }
        r
    }

    /// The index of `key` among the keys, if present.
    fn index_of(&self, key: &str) -> (r: Option<usize>)
        requires
            self.wf(),
        ensures
            match r {
                Some(i) => i < self.entries().len() && self.entries()[i as int].0 == key@,
                None => forall|i: int|
                    0 <= i < self.entries().len() ==> self.entries()[i].0 != key@,
            },
    {
        let n = self.keys.len();
        let mut i: usize = 0;
        while i < n
            invariant
                i <= n,
                n == self.keys@.len(),
                self.keys@.len() == self.vals@.len(),
                forall|j: int| 0 <= j < i ==> self.entries()[j].0 != key@,
            decreases n - i,
        {
            if str_eq_chars(self.keys[i].as_str(), key) {
                assert(self.entries()[i as int].0 == key@);
                return Some(i);
            }
            assert(self.entries()[i as int].0 != key@);
            i = i + 1;
        }
        None
    }

    /// How many entries the map holds.
    pub fn len(&self) -> (r: usize)
        ensures
            r == self.key_seq().len(),
    {
        self.keys.len()
    }

    /// Whether `key` is present.
    pub fn contains(&self, key: &str) -> (r: bool)
        requires
            self.wf(),
        ensures
            r == self@.contains_key(key@),
    {
        proof {
            lemma_map_of_contains(self.entries(), key@);
        }
        self.index_of(key).is_some()
    }

    /// The value stored under `key`, if any.
    pub fn get<'a>(&'a self, key: &str) -> (r: Option<&'a V>)
        requires
            self.wf(),
        ensures
            match r {
                Some(v) => self@.contains_key(key@) && v@ == self@[key@]
                    && self.val_seq().contains(*v),
                None => !self@.contains_key(key@),
            },
    {
        proof {
            lemma_map_of_contains(self.entries(), key@);
        }
        match self.index_of(key) {
            Some(i) => {
                proof {
                    lemma_map_of_get(self.entries(), i as int);
                }
                Some(&self.vals[i])
            },
            None => None,
        }
    }

    /// Inserts `value` under `key`, replacing any entry that key had.
    pub fn insert(&mut self, key: String, value: V)
        requires
            old(self).wf(),
        ensures
            final(self).wf(),
            final(self)@ == old(self)@.insert(key@, value@),
            old(self)@.contains_key(key@) ==> final(self).key_seq() == old(self).key_seq(),
            !old(self)@.contains_key(key@) ==> final(self).key_seq() == old(self).key_seq().push(
                key@,
            ),
            forall|i: int|
                0 <= i < final(self).val_seq().len() ==> final(self).val_seq()[i] == value
                    || old(self).val_seq().contains(#[trigger] final(self).val_seq()[i]),
    {
        proof {
            lemma_map_of_contains(self.entries(), key@);
        }
        match self.index_of(key.as_str()) {
            Some(i) => {
                self.vals.set(i, value);
                proof {
                    lemma_map_of_update(old(self).entries(), i as int, value@);
                    assert(self.entries() =~= old(self).entries().update(
                        i as int,
                        (old(self).entries()[i as int].0, value@),
                    ));
                    assert(self.key_seq() =~= old(self).key_seq());
                }
            },
            None => {
                self.keys.push(key);
                self.vals.push(value);
                proof {
                    assert(self.entries().drop_last() =~= old(self).entries());
                    assert(self.entries().last() == (key@, value@));
                    assert(self.entries() =~= old(self).entries().push((key@, value@)));
                    assert(self.key_seq() =~= old(self).key_seq().push(key@));
                }
            },
        }
    }

    /// Removes the entry under `key`, if any.
    pub fn remove(&mut self, key: &str)
        requires
            old(self).wf(),
        ensures
            final(self).wf(),
            final(self)@ == old(self)@.remove(key@),
    {
        proof {
            lemma_map_of_contains(self.entries(), key@);
        }
        match self.index_of(key) {
            Some(i) => {
                self.keys.remove(i);
                self.vals.remove(i);
                proof {
                    lemma_map_of_remove(old(self).entries(), i as int);
                    assert(self.entries() =~= old(self).entries().remove(i as int));
                    assert(old(self).entries()[i as int].0 == key@);
                }
            },
            None => {
                proof {
                    assert(!self@.contains_key(key@));
                    assert(self@ =~= self@.remove(key@));
                }
            },
        }
    }

    /// The values, in insertion order of their keys.
    pub fn values<'a>(&'a self) -> (r: Vec<&'a V>)
        requires
            self.wf(),
        ensures
            r@.len() == self.entries().len(),
            forall|i: int| 0 <= i < r@.len() ==> (#[trigger] r@[i])@ == self.entries()[i].1,
    {
        let n = self.vals.len();
        let mut r: Vec<&V> = Vec::new();
        let mut i: usize = 0;
        while i < n
            invariant
                i <= n,
                n == self.vals@.len(),
                self.wf(),
                self.keys@.len() == self.vals@.len(),
                r@.len() == i,
                forall|j: int| 0 <= j < i ==> (#[trigger] r@[j])@ == self.entries()[j].1,
            decreases n - i,
        {
            r.push(&self.vals[i]);
            i = i + 1;
        }
        r
    }

    /// The keys and values as pairs, in insertion order.
    pub fn iter<'a>(&'a self) -> (r: Vec<(&'a String, &'a V)>)
        requires
            self.wf(),
        ensures
            r@.len() == self.key_seq().len(),
            forall|i: int|
                0 <= i < r@.len() ==> #[trigger] r@[i].0@ == self.key_seq()[i] && self@.contains_key(
                    self.key_seq()[i],
                ) && r@[i].1@ == self@[self.key_seq()[i]],
    {
        let n = self.vals.len();
        let mut r: Vec<(&String, &V)> = Vec::new();
        let mut i: usize = 0;
        while i < n
            invariant
                i <= n,
                n == self.vals@.len(),
                self.wf(),
                self.keys@.len() == self.vals@.len(),
                r@.len() == i,
                forall|j: int|
                    0 <= j < i ==> (#[trigger] r@[j]).0@ == self.entries()[j].0 && r@[j].1@
                        == self.entries()[j].1,
            decreases n - i,
        {
            r.push((&self.keys[i], &self.vals[i]));
            i = i + 1;
        }
        proof {
            assert forall|j: int|
                0 <= j < r@.len() implies #[trigger] r@[j].0@ == self.key_seq()[j]
                && self@.contains_key(self.key_seq()[j]) && r@[j].1@
                == self@[self.key_seq()[j]] by {
                lemma_map_of_get(self.entries(), j);
                assert(self.key_seq()[j] == self.entries()[j].0);
            }
        }
        r
    }
}

} // verus!
