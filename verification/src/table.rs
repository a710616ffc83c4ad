//! A map from text to values, kept in the order of its keys.

use vstd::prelude::*;

use crate::text::{
    before, precedes, precedes_asymmetric, precedes_irreflexive, precedes_total,
    precedes_transitive, same, texts,
};

verus! {

/// A map from text to values. The entries stand in the order of their keys and
/// no key stands twice.
pub struct Table<V> {
    entries: Vec<(String, V)>,
}

/// A set of texts; its members are the keys.
pub type TextSet = Table<()>;

/// The texts stand in strictly ascending order.
pub open spec fn ascending(keys: Seq<Seq<char>>) -> bool {
    forall|i: int, j: int| 0 <= i < j < keys.len() ==> precedes(#[trigger] keys[i], #[trigger] keys[j])
}

impl<V> Table<V> {
    /// The keys in order.
    pub closed spec fn keys(&self) -> Seq<Seq<char>> {
        Seq::new(self.entries@.len(), |i: int| self.entries@[i].0@)
    }

    /// The values in the order of their keys.
    pub closed spec fn values(&self) -> Seq<V> {
        Seq::new(self.entries@.len(), |i: int| self.entries@[i].1)
    }

    /// The keys ascend, and there is one value for each.
    pub open spec fn wf(&self) -> bool {
        ascending(self.keys()) && self.keys().len() == self.values().len()
    }
}

/// The map whose keys are `keys` and whose values stand at the same positions in `values`.
pub open spec fn paired<V>(keys: Seq<Seq<char>>, values: Seq<V>) -> Map<Seq<char>, V> {
    Map::new(|k: Seq<char>| keys.contains(k), |k: Seq<char>| values[keys.index_of(k)])
}

impl<V> View for Table<V> {
    type V = Map<Seq<char>, V>;

    open spec fn view(&self) -> Map<Seq<char>, V> {
        paired(self.keys(), self.values())
    }
}

/// In ascending keys each key stands once.
pub proof fn ascending_is_distinct(keys: Seq<Seq<char>>)
    requires
        ascending(keys),
    ensures
        keys.no_duplicates(),
{
    assert forall|i: int, j: int| 0 <= i < keys.len() && 0 <= j < keys.len() && i != j implies keys[i]
        != keys[j] by {
        if i < j {
            precedes_irreflexive(keys[i]);
        } else {
            precedes_irreflexive(keys[j]);
        }
    }
}

/// In a table the value at a key's position is the value at the key.
pub proof fn paired_at<V>(keys: Seq<Seq<char>>, values: Seq<V>, i: int)
    requires
        ascending(keys),
        0 <= i < keys.len(),
    ensures
        paired(keys, values).dom().contains(keys[i]),
        paired(keys, values)[keys[i]] == values[i],
{
    ascending_is_distinct(keys);
    assert(keys.contains(keys[i]));
    assert(keys.index_of(keys[i]) == i);
}

/// A table has as many entries as its map has keys.
pub proof fn paired_len<V>(keys: Seq<Seq<char>>, values: Seq<V>)
    requires
        ascending(keys),
    ensures
        paired(keys, values).dom().finite(),
        paired(keys, values).dom().len() == keys.len(),
        paired(keys, values).dom() == keys.to_set(),
{
    ascending_is_distinct(keys);
    keys.unique_seq_to_set();
    assert(paired(keys, values).dom() =~= keys.to_set());
}

/// Two ascending sequences with the same members are the same sequence.
pub proof fn ascending_is_determined(a: Seq<Seq<char>>, b: Seq<Seq<char>>)
    requires
        ascending(a),
        ascending(b),
        a.to_set() == b.to_set(),
    ensures
        a == b,
    decreases a.len(),
{
    ascending_is_distinct(a);
    ascending_is_distinct(b);
    a.unique_seq_to_set();
    b.unique_seq_to_set();
    if a.len() > 0 {
        let x = a.last();
        let y = b.last();
        assert(a.to_set().contains(a[a.len() - 1]));
        assert(b.to_set().contains(b[b.len() - 1]));
        assert(b.contains(x));
        assert(a.contains(y));
        if x != y {
            let i = b.index_of(x);
            let j = a.index_of(y);
            assert(precedes(b[i], b[b.len() - 1]));
            assert(precedes(a[j], a[a.len() - 1]));
            precedes_asymmetric(x, y);
        }
        let p = a.drop_last();
        let q = b.drop_last();
        assert(p.to_set() =~= a.to_set().remove(x)) by {
            assert forall|k: Seq<char>| p.to_set().contains(k) == a.to_set().remove(x).contains(
                k,
            ) by {
                if p.contains(k) {
                    let i = p.index_of(k);
                    assert(a[i] == k);
                    assert(a[i] != a[a.len() - 1]);
                }
                if a.contains(k) && k != x {
                    let i = a.index_of(k);
                    assert(p[i] == k);
                }
            }
        }
        assert(q.to_set() =~= b.to_set().remove(y)) by {
            assert forall|k: Seq<char>| q.to_set().contains(k) == b.to_set().remove(y).contains(
                k,
            ) by {
                if q.contains(k) {
                    let i = q.index_of(k);
                    assert(b[i] == k);
                    assert(b[i] != b[b.len() - 1]);
                }
                if b.contains(k) && k != y {
                    let i = b.index_of(k);
                    assert(q[i] == k);
                }
            }
        }
        ascending_is_determined(p, q);
        assert(a =~= p.push(x));
        assert(b =~= q.push(y));
    } else {
        assert(a =~= b);
    }
}

proof fn replaced<V>(keys: Seq<Seq<char>>, values: Seq<V>, at: int, value: V)
    requires
        ascending(keys),
        keys.len() == values.len(),
        0 <= at < keys.len(),
    ensures
        keys.contains(keys[at]),
        keys.index_of(keys[at]) == at,
        paired(keys, values.update(at, value)) == paired(keys, values).insert(keys[at], value),
{
    ascending_is_distinct(keys);
    assert(keys.contains(keys[at]));
    assert(paired(keys, values.update(at, value)) =~= paired(keys, values).insert(keys[at], value));
}

proof fn added<V>(keys: Seq<Seq<char>>, values: Seq<V>, at: int, k: Seq<char>, value: V)
    requires
        ascending(keys),
        keys.len() == values.len(),
        0 <= at <= keys.len(),
        forall|i: int| 0 <= i < at ==> precedes(#[trigger] keys[i], k),
        forall|i: int| at <= i < keys.len() ==> !precedes(#[trigger] keys[i], k),
        at < keys.len() ==> keys[at] != k,
    ensures
        !keys.contains(k),
        ascending(keys.insert(at, k)),
        paired(keys.insert(at, k), values.insert(at, value)) == paired(keys, values).insert(
            k,
            value,
        ),
{
    let now = keys.insert(at, k);
    let held = values.insert(at, value);
    precedes_irreflexive(k);
    if keys.contains(k) {
        let i = keys.index_of(k);
        assert(i >= at);
        if i > at {
            precedes_total(keys[at], k);
            assert(precedes(keys[at], keys[i]));
        }
    }
    assert forall|i: int, j: int| 0 <= i < j < now.len() implies precedes(
        #[trigger] now[i],
        #[trigger] now[j],
    ) by {
        if i == at {
            assert(now[j] == keys[j - 1]);
            assert(keys.contains(keys[j - 1]));
            precedes_total(keys[j - 1], k);
        } else if j == at {
            assert(now[i] == keys[i]);
        } else {
            let a = if i < at { i } else { i - 1 };
            let b = if j < at { j } else { j - 1 };
            assert(now[i] == keys[a]);
            assert(now[j] == keys[b]);
        }
    }
    let was = paired(keys, values).insert(k, value);
    let grown = paired(now, held);
    assert forall|q: Seq<char>| grown.dom().contains(q) == was.dom().contains(q) by {
        if now.contains(q) {
            let i = now.index_of(q);
            if i != at {
                let a = if i < at { i } else { i - 1 };
                assert(keys[a] == q);
                assert(keys.contains(q));
            }
        }
        if keys.contains(q) {
            let a = keys.index_of(q);
            let i = if a < at { a } else { a + 1 };
            assert(now[i] == q);
            assert(now.contains(q));
        }
        if q == k {
            assert(now[at] == k);
            assert(now.contains(k));
        }
    }
    assert forall|q: Seq<char>| grown.dom().contains(q) implies grown[q] == was[q] by {
        if q == k {
            paired_at(now, held, at);
        } else {
            let i = now.index_of(q);
            let a = if i < at { i } else { i - 1 };
            paired_at(now, held, i);
            paired_at(keys, values, a);
        }
    }
    assert(grown =~= was);
}

impl<V> Table<V> {
    /// A table without entries.
    pub fn new() -> (t: Self)
        ensures
            t.wf(),
            t.keys() == Seq::<Seq<char>>::empty(),
            t@ == Map::<Seq<char>, V>::empty(),
    {
        let t = Table { entries: Vec::new() };
        proof {
            assert(t.keys() =~= Seq::<Seq<char>>::empty());
            assert(t@ =~= Map::<Seq<char>, V>::empty());
        }
        t
    }

    /// The number of entries.
    pub fn len(&self) -> (n: usize)
        ensures
            n == self.keys().len(),
            n == self.values().len(),
    {
        self.entries.len()
    }

    /// The key at position `i`.
    pub fn key_at(&self, i: usize) -> (k: &String)
        requires
            i < self.keys().len(),
        ensures
            k@ == self.keys()[i as int],
    {
        &self.entries[i].0
    }

    /// The value at position `i`.
    pub fn value_at(&self, i: usize) -> (v: &V)
        requires
            i < self.values().len(),
        ensures
            *v == self.values()[i as int],
    {
        &self.entries[i].1
    }

    /// The first position whose key does not come before `key`.
    fn seek(&self, key: &str) -> (at: usize)
        requires
            self.wf(),
        ensures
            at <= self.keys().len(),
            forall|i: int| 0 <= i < at ==> precedes(#[trigger] self.keys()[i], key@),
            forall|i: int| at <= i < self.keys().len() ==> !precedes(#[trigger] self.keys()[i], key@),
    {
        let mut lo: usize = 0;
        let mut hi: usize = self.entries.len();
        while lo < hi
            invariant
                lo <= hi <= self.keys().len(),
                self.wf(),
                forall|i: int| 0 <= i < lo ==> precedes(#[trigger] self.keys()[i], key@),
                forall|i: int| hi <= i < self.keys().len() ==> !precedes(#[trigger] self.keys()[i], key@),
            decreases hi - lo,
        {
            let mid: usize = lo + (hi - lo) / 2;
            if before(self.entries[mid].0.as_str(), key) {
                proof {
                    assert forall|i: int| 0 <= i < mid + 1 implies precedes(
                        #[trigger] self.keys()[i],
                        key@,
                    ) by {
                        if i < mid {
                            precedes_transitive(self.keys()[i], self.keys()[mid as int], key@);
                        }
                    }
                }
                lo = mid + 1;
            } else {
                proof {
                    assert forall|i: int| mid <= i < self.keys().len() implies !precedes(
                        #[trigger] self.keys()[i],
                        key@,
                    ) by {
                        if precedes(self.keys()[i], key@) && i > mid {
                            precedes_transitive(self.keys()[mid as int], self.keys()[i], key@);
                        }
                    }
                }
                hi = mid;
            }
        }
        lo
    }

    /// The position of `key`, where the table has it.
    pub fn find(&self, key: &str) -> (at: Option<usize>)
        requires
            self.wf(),
        ensures
            at is Some <==> self@.dom().contains(key@),
            at matches Some(i) ==> i < self.keys().len() && self.keys()[i as int] == key@
                && self.values()[i as int] == self@[key@],
    {
        let at: usize = self.seek(key);
        if at < self.entries.len() && same(self.entries[at].0.as_str(), key) {
            proof {
                paired_at(self.keys(), self.values(), at as int);
            }
            Some(at)
        } else {
            proof {
                if self.keys().contains(key@) {
                    let i = self.keys().index_of(key@);
                    precedes_irreflexive(key@);
                    assert(i >= at);
                    if i > at {
                        precedes_total(self.keys()[at as int], key@);
                        assert(precedes(self.keys()[at as int], self.keys()[i]));
                    }
                }
            }
            None
        }
    }

    /// Whether the table has `key`.
    pub fn contains(&self, key: &str) -> (r: bool)
        requires
            self.wf(),
        ensures
            r == self@.dom().contains(key@),
    {
        self.find(key).is_some()
    }

    /// The value at `key`, where the table has it.
    pub fn get(&self, key: &str) -> (v: Option<&V>)
        requires
            self.wf(),
        ensures
            v is Some <==> self@.dom().contains(key@),
            v matches Some(x) ==> *x == self@[key@],
    {
        match self.find(key) {
            Some(i) => Some(&self.entries[i].1),
            None => None,
        }
    }

    /// Puts `value` at `key`, in place of what stood there.
    pub fn insert(&mut self, key: String, value: V)
        requires
            old(self).wf(),
        ensures
            final(self).wf(),
            final(self)@ == old(self)@.insert(key@, value),
            old(self)@.dom().contains(key@) ==> final(self).keys() == old(self).keys()
                && final(self).values() == old(self).values().update(
                old(self).keys().index_of(key@),
                value,
            ),
            !old(self)@.dom().contains(key@) ==> exists|at: int|
                0 <= at <= old(self).keys().len() && final(self).keys() == #[trigger] old(
                    self,
                ).keys().insert(at, key@) && final(self).values() == old(self).values().insert(
                    at,
                    value,
                ),
    {
        let at: usize = self.seek(key.as_str());
        let ghost keys = self.keys();
        let ghost values = self.values();
        let ghost k = key@;
        if at < self.entries.len() && same(self.entries[at].0.as_str(), key.as_str()) {
            self.entries.set(at, (key, value));
            proof {
                assert(self.keys() =~= keys);
                assert(self.values() =~= values.update(at as int, value));
                replaced(keys, values, at as int, value);
            }
        } else {
            self.entries.insert(at, (key, value));
            proof {
                assert(self.keys() =~= keys.insert(at as int, k));
                assert(self.values() =~= values.insert(at as int, value));
                added(keys, values, at as int, k, value);
            }
        }
    }

    /// Takes out what stands at `key`.
    pub fn remove(&mut self, key: &str) -> (v: Option<V>)
        requires
            old(self).wf(),
        ensures
            final(self).wf(),
            final(self)@ == old(self)@.remove(key@),
            v is Some <==> old(self)@.dom().contains(key@),
            v matches Some(x) ==> x == old(self)@[key@],
    {
        let ghost keys = self.keys();
        let ghost values = self.values();
        let ghost k = key@;
        match self.find(key) {
            Some(at) => {
                let taken = self.entries.remove(at);
                proof {
                    assert(self.keys() =~= keys.remove(at as int));
                    assert(self.values() =~= values.remove(at as int));
                    let now = self.keys();
                    ascending_is_distinct(keys);
                    assert forall|i: int, j: int| 0 <= i < j < now.len() implies precedes(
                        #[trigger] now[i],
                        #[trigger] now[j],
                    ) by {
                        let a = if i < at { i } else { i + 1 };
                        let b = if j < at { j } else { j + 1 };
                        assert(now[i] == keys[a] && now[j] == keys[b]);
                    }
                    let before_map = paired(keys, values);
                    let after_map = paired(now, self.values());
                    assert forall|q: Seq<char>| after_map.dom().contains(q) == before_map.remove(
                        k,
                    ).dom().contains(q) by {
                        if now.contains(q) {
                            let i = now.index_of(q);
                            let a = if i < at { i } else { i + 1 };
                            assert(keys[a] == q);
                            assert(keys[a] != keys[at as int]);
                            assert(keys.contains(q));
                        }
                        if keys.contains(q) && q != k {
                            let a = keys.index_of(q);
                            let i = if a < at { a } else { a - 1 };
                            assert(now[i] == q);
                            assert(now.contains(q));
                        }
                    }
                    assert forall|q: Seq<char>| after_map.dom().contains(q) implies after_map[q]
                        == before_map.remove(k)[q] by {
                        let i = now.index_of(q);
                        paired_at(now, self.values(), i);
                        let a = if i < at { i } else { i + 1 };
                        paired_at(keys, values, a);
                    }
                    assert(after_map =~= before_map.remove(k));
                }
                Some(taken.1)
            },
            None => {
                assert(self@ =~= old(self)@.remove(key@));
                None
            },
        }
    }
}

/// The set of the texts that the strings hold.
pub fn set_of(strings: &Vec<String>) -> (set: TextSet)
    ensures
        set.wf(),
        set@.dom() == texts(strings@).to_set(),
{
    let mut set: TextSet = Table::new();
    let mut i: usize = 0;
    proof {
        assert(set@.dom() =~= texts(strings@).take(0).to_set());
    }
    while i < strings.len()
        invariant
            i <= strings@.len(),
            set.wf(),
            set@.dom() == texts(strings@).take(i as int).to_set(),
        decreases strings@.len() - i,
    {
        let ghost seen = texts(strings@).take(i as int);
        let ghost now = texts(strings@).take(i + 1);
        let ghost held = set@;
        set.insert(strings[i].clone(), ());
        proof {
            let key = strings@[i as int]@;
            assert(now =~= seen.push(key));
            seen.lemma_push_to_set_commute(key);
            assert(set@.dom() =~= held.dom().insert(key));
        }
        i += 1;
    }
    assert(texts(strings@).take(i as int) =~= texts(strings@));
    set
}

/// The members of `all` that `taken` does not have, in order.
pub fn difference(all: &TextSet, taken: &TextSet) -> (rest: Vec<String>)
    requires
        all.wf(),
        taken.wf(),
    ensures
        ascending(texts(rest@)),
        texts(rest@).to_set() == all@.dom().difference(taken@.dom()),
        texts(rest@).len() == all@.dom().difference(taken@.dom()).len(),
{
    let mut rest: Vec<String> = Vec::new();
    let mut i: usize = 0;
    let ghost keys = all.keys();
    proof {
        assert(texts(rest@).to_set() =~= keys.take(0).to_set().difference(taken@.dom()));
    }
    while i < all.len()
        invariant
            i <= keys.len(),
            keys == all.keys(),
            all.wf(),
            taken.wf(),
            ascending(texts(rest@)),
            forall|k: int, j: int| 0 <= k < rest@.len() && i <= j < keys.len() ==> precedes(
                #[trigger] texts(rest@)[k],
                #[trigger] keys[j],
            ),
            texts(rest@).to_set() == keys.take(i as int).to_set().difference(taken@.dom()),
        decreases keys.len() - i,
    {
        let key = all.key_at(i);
        let ghost k = keys[i as int];
        let ghost seen = keys.take(i as int);
        let ghost now = keys.take(i + 1);
        let ghost held = texts(rest@);
        proof {
            assert(now =~= seen.push(k));
            seen.lemma_push_to_set_commute(k);
        }
        if !taken.contains(key.as_str()) {
            rest.push(key.clone());
            proof {
                assert(texts(rest@) =~= held.push(k));
                held.lemma_push_to_set_commute(k);
                assert(texts(rest@).to_set() =~= now.to_set().difference(taken@.dom()));
            }
        } else {
            assert(texts(rest@).to_set() =~= now.to_set().difference(taken@.dom()));
        }
        i += 1;
    }
    proof {
        assert(keys.take(i as int) =~= keys);
        paired_len(keys, all.values());
        ascending_is_distinct(texts(rest@));
        texts(rest@).unique_seq_to_set();
    }
    rest
}

} // verus!
