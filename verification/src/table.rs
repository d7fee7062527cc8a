//! A small table of rows under distinct keys. To its users it is a map from
//! what the keys stand for to what the rows stand for; the rows also have an
//! order, which the functions that walk the whole table go by.

use vstd::prelude::*;

verus! {

/// A key that can be compared: two keys are the same exactly where they stand
/// for the same thing.
pub trait Key: View + Sized {
    fn same(&self, other: &Self) -> (r: bool)
        ensures
            r == (self@ == other@),
    ;
}

impl Key for String {
    fn same(&self, other: &Self) -> (r: bool) {
        *self == *other
    }
}

/// No key occurs twice.
pub open spec fn distinct_keys<A, B>(pairs: Seq<(A, B)>) -> bool {
    forall|i: int, j: int|
        0 <= i < j < pairs.len() ==> (#[trigger] pairs[i]).0 != (#[trigger] pairs[j]).0
}

pub open spec fn has_key<A, B>(pairs: Seq<(A, B)>, key: A) -> bool {
    exists|i: int| 0 <= i < pairs.len() && (#[trigger] pairs[i]).0 == key
}

/// The place of a key among the pairs.
pub open spec fn place_of<A, B>(pairs: Seq<(A, B)>, key: A) -> int {
    choose|i: int| 0 <= i < pairs.len() && (#[trigger] pairs[i]).0 == key
}

/// The map that a list of pairs with distinct keys describes.
pub open spec fn pairs_map<A, B>(pairs: Seq<(A, B)>) -> Map<A, B> {
    Map::new(|key: A| has_key(pairs, key), |key: A| pairs[place_of(pairs, key)].1)
}

/// Each pair stands in the map, and nothing else does.
pub proof fn lemma_pairs_map<A, B>(pairs: Seq<(A, B)>)
    requires
        distinct_keys(pairs),
    ensures
        forall|i: int|
            0 <= i < pairs.len() ==> pairs_map(pairs).contains_key((#[trigger] pairs[i]).0)
                && pairs_map(pairs)[pairs[i].0] == pairs[i].1,
        forall|key: A| #[trigger]
            pairs_map(pairs).contains_key(key) ==> has_key(pairs, key) && pairs[place_of(
                pairs,
                key,
            )] == (key, pairs_map(pairs)[key]) && 0 <= place_of(pairs, key) < pairs.len(),
{
    assert forall|i: int| 0 <= i < pairs.len() implies pairs_map(pairs).contains_key(
        (#[trigger] pairs[i]).0,
    ) && pairs_map(pairs)[pairs[i].0] == pairs[i].1 by {
        assert(has_key(pairs, pairs[i].0));
        let j = place_of(pairs, pairs[i].0);
        assert(0 <= j < pairs.len() && pairs[j].0 == pairs[i].0);
        assert(i == j);
    }
}

proof fn lemma_push<A, B>(pairs: Seq<(A, B)>, key: A, value: B)
    requires
        distinct_keys(pairs),
        !has_key(pairs, key),
    ensures
        distinct_keys(pairs.push((key, value))),
        pairs_map(pairs.push((key, value))) == pairs_map(pairs).insert(key, value),
{
    let more = pairs.push((key, value));
    assert(distinct_keys(more));
    lemma_pairs_map(pairs);
    lemma_pairs_map(more);
    assert(more[pairs.len() as int] == (key, value));
    assert forall|k: A| pairs_map(more).contains_key(k) <==> pairs_map(pairs).insert(
        key,
        value,
    ).contains_key(k) by {
        if pairs_map(more).contains_key(k) && k != key {
            let i = place_of(more, k);
            assert(pairs[i].0 == k);
        }
        if pairs_map(pairs).contains_key(k) {
            let i = place_of(pairs, k);
            assert(more[i].0 == k);
        }
    }
    assert forall|k: A| pairs_map(more).contains_key(k) implies pairs_map(more)[k] == pairs_map(
        pairs,
    ).insert(key, value)[k] by {
        let i = place_of(more, k);
        if k != key {
            assert(pairs[i] == more[i]);
        }
    }
    assert(pairs_map(more) =~= pairs_map(pairs).insert(key, value));
}

proof fn lemma_update<A, B>(pairs: Seq<(A, B)>, at: int, value: B)
    requires
        distinct_keys(pairs),
        0 <= at < pairs.len(),
    ensures
        distinct_keys(pairs.update(at, (pairs[at].0, value))),
        pairs_map(pairs.update(at, (pairs[at].0, value))) == pairs_map(pairs).insert(
            pairs[at].0,
            value,
        ),
{
    let key = pairs[at].0;
    let now = pairs.update(at, (key, value));
    assert(distinct_keys(now)) by {
        assert forall|i: int, j: int| 0 <= i < j < now.len() implies (#[trigger] now[i]).0 != (
        #[trigger] now[j]).0 by {
            assert(now[i].0 == pairs[i].0 && now[j].0 == pairs[j].0);
        }
    }
    lemma_pairs_map(pairs);
    lemma_pairs_map(now);
    assert forall|k: A| pairs_map(now).contains_key(k) <==> pairs_map(pairs).insert(
        key,
        value,
    ).contains_key(k) by {
        if pairs_map(now).contains_key(k) {
            let i = place_of(now, k);
            assert(pairs[i].0 == k);
        }
        if pairs_map(pairs).contains_key(k) {
            let i = place_of(pairs, k);
            assert(now[i].0 == k);
        }
        assert(now[at].0 == key);
    }
    assert forall|k: A| pairs_map(now).contains_key(k) implies pairs_map(now)[k] == pairs_map(
        pairs,
    ).insert(key, value)[k] by {
        let i = place_of(now, k);
        if k != key {
            assert(i != at);
            assert(pairs[i] == now[i]);
        } else {
            assert(now[at].0 == key);
        }
    }
    assert(pairs_map(now) =~= pairs_map(pairs).insert(key, value));
}

proof fn lemma_remove<A, B>(pairs: Seq<(A, B)>, at: int)
    requires
        distinct_keys(pairs),
        0 <= at < pairs.len(),
    ensures
        distinct_keys(pairs.remove(at)),
        pairs_map(pairs.remove(at)) == pairs_map(pairs).remove(pairs[at].0),
{
    let key = pairs[at].0;
    let less = pairs.remove(at);
    assert forall|i: int| 0 <= i < less.len() implies #[trigger] less[i] == pairs[if i < at {
        i
    } else {
        i + 1
    }] by {}
    assert(distinct_keys(less)) by {
        assert forall|i: int, j: int| 0 <= i < j < less.len() implies (#[trigger] less[i]).0 != (
        #[trigger] less[j]).0 by {
            let a = if i < at { i } else { i + 1 };
            let b = if j < at { j } else { j + 1 };
            assert(less[i] == pairs[a] && less[j] == pairs[b]);
        }
    }
    lemma_pairs_map(pairs);
    lemma_pairs_map(less);
    assert forall|k: A| pairs_map(less).contains_key(k) <==> pairs_map(pairs).remove(
        key,
    ).contains_key(k) by {
        if pairs_map(less).contains_key(k) {
            let i = place_of(less, k);
            let a = if i < at { i } else { i + 1 };
            assert(less[i] == pairs[a]);
            assert(pairs[a].0 == k);
        }
        if pairs_map(pairs).contains_key(k) && k != key {
            let i = place_of(pairs, k);
            assert(i != at);
            let a = if i < at { i } else { i - 1 };
            assert(less[a].0 == k);
        }
    }
    assert forall|k: A| pairs_map(less).contains_key(k) implies pairs_map(less)[k] == pairs_map(
        pairs,
    ).remove(key)[k] by {
        let i = place_of(less, k);
        let a = if i < at { i } else { i + 1 };
        assert(less[i] == pairs[a]);
    }
    assert(pairs_map(less) =~= pairs_map(pairs).remove(key));
}

/// Rows under distinct keys.
pub struct Table<K, V> {
    rows: Vec<(K, V)>,
}

impl<K: Key, V: View> View for Table<K, V> {
    type V = Map<K::V, V::V>;

    closed spec fn view(&self) -> Map<K::V, V::V> {
        pairs_map(self.pairs())
    }
}

impl<K: Key, V: View> Table<K, V> {
    /// The rows in their order, by what they stand for.
    pub closed spec fn pairs(&self) -> Seq<(K::V, V::V)> {
        self.rows@.map_values(|row: (K, V)| (row.0@, row.1@))
    }

    /// No key occurs twice.
    pub closed spec fn wf(&self) -> bool {
        distinct_keys(self.pairs())
    }

    /// How the rows and the map belong together.
    pub proof fn lemma_rows(&self)
        requires
            self.wf(),
        ensures
            distinct_keys(self.pairs()),
            forall|i: int|
                0 <= i < self.pairs().len() ==> self@.contains_key((#[trigger] self.pairs()[i]).0)
                    && self@[self.pairs()[i].0] == self.pairs()[i].1,
            forall|key: K::V| #[trigger]
                self@.contains_key(key) ==> 0 <= place_of(self.pairs(), key) < self.pairs().len()
                    && self.pairs()[place_of(self.pairs(), key)] == (key, self@[key]),
    {
        lemma_pairs_map(self.pairs());
    }

    pub fn new() -> (r: Self)
        ensures
            r.wf(),
            r@ == Map::<K::V, V::V>::empty(),
            r.pairs() == Seq::<(K::V, V::V)>::empty(),
    {
        let r = Table { rows: Vec::new() };
        assert(r.pairs() == Seq::<(K::V, V::V)>::empty());
        assert(r@ =~= Map::<K::V, V::V>::empty());
        r
    }

    pub fn len(&self) -> (r: usize)
        ensures
            r == self.pairs().len(),
    {
        self.rows.len()
    }

    /// The key of the row at a place.
    pub fn key_at(&self, at: usize) -> (r: &K)
        requires
            at < self.pairs().len(),
        ensures
            r@ == self.pairs()[at as int].0,
    {
        &self.rows[at].0
    }

    /// The row at a place.
    pub fn row_at(&self, at: usize) -> (r: &V)
        requires
            at < self.pairs().len(),
        ensures
            r@ == self.pairs()[at as int].1,
    {
        &self.rows[at].1
    }

    /// The place of the row under a key.
    pub fn position(&self, key: &K) -> (r: Option<usize>)
        requires
            self.wf(),
        ensures
            match r {
                Some(i) => i < self.pairs().len() && self.pairs()[i as int].0 == key@
                    && self@.contains_key(key@) && self@[key@] == self.pairs()[i as int].1,
                None => !self@.contains_key(key@),
            },
    {
        proof {
            self.lemma_rows();
        }
        let n: usize = self.rows.len();
        for i in 0..n
            invariant
                n == self.rows@.len(),
                self.wf(),
                self.pairs().len() == n,
                forall|j: int| 0 <= j < i ==> (#[trigger] self.pairs()[j]).0 != key@,
        {
            if self.rows[i].0.same(key) {
                proof {
                    self.lemma_rows();
                    assert(self.pairs()[i as int].0 == key@);
                }
                return Some(i);
            }
            assert(self.pairs()[i as int].0 != key@);
        }
        None
    }

    /// The row under a key.
    pub fn get(&self, key: &K) -> (r: Option<&V>)
        requires
            self.wf(),
        ensures
            match r {
                Some(row) => self@.contains_key(key@) && row@ == self@[key@],
                None => !self@.contains_key(key@),
            },
    {
        match self.position(key) {
            Some(i) => Some(self.row_at(i)),
            None => None,
        }
    }

    /// Puts another row in the place of the one that is there, under the same
    /// key.
    pub fn replace_at(&mut self, at: usize, row: V)
        requires
            old(self).wf(),
            at < old(self).pairs().len(),
        ensures
            final(self).wf(),
            final(self)@ == old(self)@.insert(old(self).pairs()[at as int].0, row@),
            final(self).pairs() == old(self).pairs().update(
                at as int,
                (old(self).pairs()[at as int].0, row@),
            ),
    {
        let ghost before = self.pairs();
        self.rows[at].1 = row;
        proof {
            assert(self.pairs() =~= before.update(at as int, (before[at as int].0, row@)));
            lemma_update(before, at as int, row@);
        }
    }

    /// Takes the row at a place out; the rows behind it move up.
    pub fn remove_at(&mut self, at: usize)
        requires
            old(self).wf(),
            at < old(self).pairs().len(),
        ensures
            final(self).wf(),
            final(self)@ == old(self)@.remove(old(self).pairs()[at as int].0),
            final(self).pairs() == old(self).pairs().remove(at as int),
    {
        let ghost before = self.pairs();
        self.rows.remove(at);
        proof {
            assert(self.pairs() =~= before.remove(at as int));
            lemma_remove(before, at as int);
        }
    }

    /// Adds a row at the end, under a key that is not there yet.
    pub fn push(&mut self, key: K, row: V)
        requires
            old(self).wf(),
            !old(self)@.contains_key(key@),
        ensures
            final(self).wf(),
            final(self)@ == old(self)@.insert(key@, row@),
            final(self).pairs() == old(self).pairs().push((key@, row@)),
    {
        let ghost before = self.pairs();
        proof {
            if has_key(before, key@) {
                lemma_pairs_map(before);
                let i = place_of(before, key@);
                assert(before[i].0 == key@);
            }
        }
        self.rows.push((key, row));
        proof {
            assert(self.pairs() =~= before.push((key@, row@)));
            lemma_push(before, key@, row@);
        }
    }

    /// Puts a row under a key, in the place of the one that may be there.
    pub fn insert(&mut self, key: K, row: V)
        requires
            old(self).wf(),
        ensures
            final(self).wf(),
            final(self)@ == old(self)@.insert(key@, row@),
    {
        match self.position(&key) {
            Some(i) => self.replace_at(i, row),
            None => self.push(key, row),
        }
    }

    /// Takes the row under a key out, and says whether there was one.
    pub fn remove(&mut self, key: &K) -> (r: bool)
        requires
            old(self).wf(),
        ensures
            final(self).wf(),
            final(self)@ == old(self)@.remove(key@),
            r == old(self)@.contains_key(key@),
    {
        match self.position(key) {
            Some(i) => {
                self.remove_at(i);
                true
            },
            None => {
                assert(self@ =~= old(self)@.remove(key@));
                false
            },
        }
    }
}

} // verus!
