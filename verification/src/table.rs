//! Maps from strings to strings, as lists of pairs in which no key occurs twice.
use crate::text;
use vstd::prelude::*;

verus! {

#[derive(Debug)]
pub struct Table {
    pub entries: Vec<(String, String)>,
}

/// No key occurs twice.
pub open spec fn distinct(v: Seq<(Seq<char>, Seq<char>)>) -> bool {
    forall|i: int, j: int| 0 <= i < j < v.len() ==> (#[trigger] v[i]).0 != (#[trigger] v[j]).0
}

/// The map of a list of pairs; of two with the same key the later one counts.
pub open spec fn mapping(v: Seq<(Seq<char>, Seq<char>)>) -> Map<Seq<char>, Seq<char>>
    decreases v.len(),
{
    if v.len() == 0 {
        Map::empty()
    } else {
        mapping(v.drop_last()).insert(v.last().0, v.last().1)
    }
}

pub proof fn lemma_mapping(v: Seq<(Seq<char>, Seq<char>)>)
    requires
        distinct(v),
    ensures
        forall|i: int|
            0 <= i < v.len() ==> mapping(v).dom().contains((#[trigger] v[i]).0) && mapping(
                v,
            )[v[i].0] == v[i].1,
        forall|k: Seq<char>|
            mapping(v).dom().contains(k) ==> exists|i: int|
                0 <= i < v.len() && (#[trigger] v[i]).0 == k,
    decreases v.len(),
{
    if v.len() > 0 {
        let w = v.drop_last();
        assert(distinct(w)) by {
            assert forall|i: int, j: int| 0 <= i < j < w.len() implies (#[trigger] w[i]).0 != (
            #[trigger] w[j]).0 by {
                assert(v[i].0 != v[j].0);
            }
        }
        lemma_mapping(w);
        assert forall|i: int| 0 <= i < v.len() implies mapping(v).dom().contains(
            (#[trigger] v[i]).0,
        ) && mapping(v)[v[i].0] == v[i].1 by {
            if i < w.len() {
                assert(w[i] == v[i]);
                assert(v[i].0 != v[v.len() - 1].0);
            }
        }
        assert forall|k: Seq<char>| mapping(v).dom().contains(k) implies exists|i: int|
            0 <= i < v.len() && (#[trigger] v[i]).0 == k by {
            if k != v.last().0 {
                assert(mapping(w).dom().contains(k));
                let i = choose|i: int| 0 <= i < w.len() && (#[trigger] w[i]).0 == k;
                assert(v[i].0 == k);
            } else {
                assert(v[v.len() - 1].0 == k);
            }
        }
    }
}

impl View for Table {
    type V = Map<Seq<char>, Seq<char>>;

    open spec fn view(&self) -> Map<Seq<char>, Seq<char>> {
        mapping(text::pairs(self.entries@))
    }
}

impl Table {
    pub open spec fn wf(&self) -> bool {
        distinct(text::pairs(self.entries@))
    }

    pub fn new() -> (t: Table)
        ensures
            t.wf(),
            t@ == Map::<Seq<char>, Seq<char>>::empty(),
    {
        let t = Table { entries: Vec::new() };
        assert(text::pairs(t.entries@) =~= Seq::empty());
        t
    }

    fn position(&self, key: &str) -> (r: Option<usize>)
        requires
            self.wf(),
        ensures
            match r {
                Some(i) => i < self.entries@.len() && self.entries@[i as int].0@ == key@
                    && self@.dom().contains(key@) && self@[key@] == self.entries@[i as int].1@,
                None => !self@.dom().contains(key@) && forall|j: int|
                    0 <= j < self.entries@.len() ==> (#[trigger] self.entries@[j]).0@ != key@,
            },
    {
        let ghost all = text::pairs(self.entries@);
        proof {
            lemma_mapping(all);
        }
        let mut i: usize = 0;
        while i < self.entries.len()
            invariant
                i <= self.entries.len(),
                all == text::pairs(self.entries@),
                forall|j: int| 0 <= j < i ==> (#[trigger] self.entries@[j]).0@ != key@,
                forall|j: int|
                    0 <= j < all.len() ==> mapping(all).dom().contains((#[trigger] all[j]).0)
                        && mapping(all)[all[j].0] == all[j].1,
                forall|k: Seq<char>|
                    mapping(all).dom().contains(k) ==> exists|j: int|
                        0 <= j < all.len() && (#[trigger] all[j]).0 == k,
            decreases self.entries.len() - i,
        {
            if text::same(self.entries[i].0.as_str(), key) {
                assert(all[i as int].0 == key@);
                return Some(i);
            }
            i += 1;
        }
        proof {
            if self@.dom().contains(key@) {
                let j = choose|j: int| 0 <= j < all.len() && (#[trigger] all[j]).0 == key@;
                assert(self.entries@[j].0@ == key@);
            }
        }
        None
    }

    pub fn get(&self, key: &str) -> (r: Option<&str>)
        requires
            self.wf(),
        ensures
            match r {
                Some(s) => self@.dom().contains(key@) && self@[key@] == s@,
                None => !self@.dom().contains(key@),
            },
    {
        match self.position(key) {
            Some(i) => Some(self.entries[i].1.as_str()),
            None => None,
        }
    }

    pub fn insert(&mut self, key: String, value: String)
        requires
            old(self).wf(),
        ensures
            final(self).wf(),
            final(self)@ == old(self)@.insert(key@, value@),
    {
        let ghost before = text::pairs(self.entries@);
        match self.position(key.as_str()) {
            Some(i) => {
                let ghost k = key@;
                let ghost x = value@;
                self.entries.set(i, (key, value));
                proof {
                    let now = text::pairs(self.entries@);
                    assert(now =~= before.update(i as int, (k, x)));
                    assert(distinct(now)) by {
                        assert forall|a: int, b: int| 0 <= a < b < now.len() implies (
                        #[trigger] now[a]).0 != (#[trigger] now[b]).0 by {
                            assert(before[a].0 != before[b].0);
                        }
                    }
                    lemma_same_map(before, now, i as int, k, x);
                }
            },
            None => {
                let ghost k = key@;
                let ghost x = value@;
                self.entries.push((key, value));
                proof {
                    let now = text::pairs(self.entries@);
                    assert(now =~= before.push((k, x)));
                    assert(now.drop_last() =~= before);
                    assert(distinct(now)) by {
                        assert forall|a: int, b: int| 0 <= a < b < now.len() implies (
                        #[trigger] now[a]).0 != (#[trigger] now[b]).0 by {
                            if b < before.len() {
                                assert(before[a].0 != before[b].0);
                            } else {
                                assert(old(self).entries@[a].0@ != k);
                            }
                        }
                    }
                }
            },
        }
    }

    pub fn remove(&mut self, key: &str)
        requires
            old(self).wf(),
        ensures
            final(self).wf(),
            final(self)@ == old(self)@.remove(key@),
    {
        let ghost all = text::pairs(self.entries@);
        let mut entries: Vec<(String, String)> = Vec::new();
        let mut i: usize = 0;
        assert(text::pairs(entries@) =~= Seq::empty());
        while i < self.entries.len()
            invariant
                i <= self.entries.len(),
                all == text::pairs(self.entries@),
                text::pairs(entries@) == without(all.take(i as int), key@),
            decreases self.entries.len() - i,
        {
            let e = &self.entries[i];
            let ghost before = text::pairs(entries@);
            assert(all.take(i + 1).drop_last() =~= all.take(i as int));
            if !text::same(e.0.as_str(), key) {
                entries.push((e.0.clone(), e.1.clone()));
                assert(text::pairs(entries@) =~= before.push((e.0@, e.1@)));
            }
            i += 1;
        }
        proof {
            assert(all.take(i as int) =~= all);
            lemma_without(all, key@);
        }
        self.entries = entries;
    }

    /// The same map again.
    pub fn copy(&self) -> (t: Table)
        ensures
            t@ == self@,
            t.wf() == self.wf(),
            text::pairs(t.entries@) == text::pairs(self.entries@),
    {
        let mut entries: Vec<(String, String)> = Vec::new();
        let mut i: usize = 0;
        while i < self.entries.len()
            invariant
                i <= self.entries.len(),
                text::pairs(entries@) == text::pairs(self.entries@).take(i as int),
            decreases self.entries.len() - i,
        {
            let ghost before = text::pairs(entries@);
            entries.push((self.entries[i].0.clone(), self.entries[i].1.clone()));
            proof {
                let x = (self.entries@[i as int].0@, self.entries@[i as int].1@);
                assert(text::pairs(entries@) =~= before.push(x));
                assert(text::pairs(self.entries@).take(i + 1) =~= text::pairs(
                    self.entries@,
                ).take(i as int).push(x));
            }
            i += 1;
        }
        assert(text::pairs(self.entries@).take(i as int) =~= text::pairs(self.entries@));
        Table { entries }
    }
}

/// The pairs with another key.
pub open spec fn without(v: Seq<(Seq<char>, Seq<char>)>, key: Seq<char>) -> Seq<
    (Seq<char>, Seq<char>),
>
    decreases v.len(),
{
    if v.len() == 0 {
        Seq::empty()
    } else if v.last().0 == key {
        without(v.drop_last(), key)
    } else {
        without(v.drop_last(), key).push(v.last())
    }
}

proof fn lemma_without(v: Seq<(Seq<char>, Seq<char>)>, key: Seq<char>)
    requires
        distinct(v),
    ensures
        distinct(without(v, key)),
        mapping(without(v, key)) == mapping(v).remove(key),
        forall|i: int|
            0 <= i < without(v, key).len() ==> exists|j: int|
                0 <= j < v.len() && v[j] == #[trigger] without(v, key)[i],
    decreases v.len(),
{
    if v.len() == 0 {
        assert(mapping(v).remove(key) =~= Map::empty());
    } else {
        let w = v.drop_last();
        let x = without(w, key);
        assert(distinct(w)) by {
            assert forall|i: int, j: int| 0 <= i < j < w.len() implies (#[trigger] w[i]).0 != (
            #[trigger] w[j]).0 by {
                assert(v[i].0 != v[j].0);
            }
        }
        lemma_without(w, key);
        let y = without(v, key);
        assert forall|i: int| 0 <= i < y.len() implies exists|j: int|
            0 <= j < v.len() && v[j] == #[trigger] y[i] by {
            if i < x.len() {
                assert(y[i] == x[i]);
                let j = choose|j: int| 0 <= j < w.len() && w[j] == x[i];
                assert(v[j] == y[i]);
            } else {
                assert(v[v.len() - 1] == y[i]);
            }
        }
        if v.last().0 == key {
            assert(mapping(v).remove(key) =~= mapping(w).remove(key));
        } else {
            assert(y.drop_last() =~= x);
            assert(mapping(y) =~= mapping(v).remove(key));
            assert forall|i: int, j: int| 0 <= i < j < y.len() implies (#[trigger] y[i]).0 != (
            #[trigger] y[j]).0 by {
                if j < x.len() {
                    assert(x[i].0 != x[j].0);
                } else {
                    let k = choose|k: int| 0 <= k < w.len() && w[k] == x[i];
                    assert(v[k].0 != v[v.len() - 1].0);
                }
            }
        }
    }
}

proof fn lemma_same_map(
    before: Seq<(Seq<char>, Seq<char>)>,
    now: Seq<(Seq<char>, Seq<char>)>,
    i: int,
    k: Seq<char>,
    x: Seq<char>,
)
    requires
        distinct(before),
        distinct(now),
        0 <= i < before.len(),
        before[i].0 == k,
        now == before.update(i, (k, x)),
    ensures
        mapping(now) == mapping(before).insert(k, x),
{
    lemma_mapping(before);
    lemma_mapping(now);
    let target = mapping(before).insert(k, x);
    assert(mapping(now) =~= target) by {
        assert forall|q: Seq<char>|
            mapping(now).dom().contains(q) == #[trigger] target.dom().contains(q) by {
            if mapping(now).dom().contains(q) {
                let j = choose|j: int| 0 <= j < now.len() && (#[trigger] now[j]).0 == q;
                assert(before[j].0 == q);
            }
            if mapping(before).dom().contains(q) {
                let j = choose|j: int| 0 <= j < before.len() && (#[trigger] before[j]).0 == q;
                assert(now[j].0 == q);
            }
            assert(now[i].0 == k);
        }
        assert forall|q: Seq<char>| #[trigger] mapping(now).dom().contains(q) implies mapping(
            now,
        )[q] == target[q] by {
            let j = choose|j: int| 0 <= j < now.len() && (#[trigger] now[j]).0 == q;
            if j == i {
                assert(now[i] == (k, x));
            } else {
                assert(before[j] == now[j]);
                assert(before[j].0 != before[i].0);
            }
        }
    }
}

} // verus!
