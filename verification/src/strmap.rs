//! A map from path strings to values, kept as a pair of vectors with no
//! duplicate keys. Its mathematical content is a `Map` from character
//! sequences to the values' views.

use crate::text::str_eq;
use vstd::prelude::*;

verus! {

/// The map denoted by parallel key and value columns; a later entry for the
/// same key shadows an earlier one (well-formed columns have no such pair).
pub open spec fn assoc_map<T>(ks: Seq<Seq<char>>, vs: Seq<T>) -> Map<Seq<char>, T>
    decreases ks.len(),
{
    if ks.len() == 0 || vs.len() == 0 {
        Map::empty()
    } else {
        assoc_map(ks.drop_last(), vs.drop_last()).insert(ks.last(), vs.last())
    }
}

pub proof fn lemma_assoc_contains<T>(ks: Seq<Seq<char>>, vs: Seq<T>, k: Seq<char>)
    requires
        ks.len() == vs.len(),
    ensures
        assoc_map(ks, vs).contains_key(k) <==> ks.contains(k),
    decreases ks.len(),
{
    if ks.len() == 0 {
        assert(!ks.contains(k));
    } else {
        lemma_assoc_contains(ks.drop_last(), vs.drop_last(), k);
        assert(ks.contains(k) <==> (ks.drop_last().contains(k) || ks.last() == k)) by {
            if ks.contains(k) {
                let i = choose|i: int| 0 <= i < ks.len() && ks[i] == k;
                if i < ks.len() - 1 {
                    assert(ks.drop_last()[i] == k);
                }
            }
            if ks.drop_last().contains(k) {
                let i = choose|i: int| 0 <= i < ks.drop_last().len() && ks.drop_last()[i] == k;
                assert(ks[i] == k);
            }
            if ks.last() == k {
                assert(ks[ks.len() - 1] == k);
            }
        }
    }
}

pub proof fn lemma_assoc_get<T>(ks: Seq<Seq<char>>, vs: Seq<T>, i: int)
    requires
        ks.len() == vs.len(),
        ks.no_duplicates(),
        0 <= i < ks.len(),
    ensures
        assoc_map(ks, vs).contains_key(ks[i]),
        assoc_map(ks, vs)[ks[i]] == vs[i],
    decreases ks.len(),
{
    if i == ks.len() - 1 {
    } else {
        assert(ks.drop_last().no_duplicates());
        lemma_assoc_get(ks.drop_last(), vs.drop_last(), i);
        assert(ks.drop_last()[i] == ks[i]);
        assert(ks.last() != ks[i]);
    }
}

pub proof fn lemma_assoc_update<T>(ks: Seq<Seq<char>>, vs: Seq<T>, i: int, v: T)
    requires
        ks.len() == vs.len(),
        ks.no_duplicates(),
        0 <= i < ks.len(),
    ensures
        assoc_map(ks, vs.update(i, v)) == assoc_map(ks, vs).insert(ks[i], v),
    decreases ks.len(),
{
    let base = assoc_map(ks.drop_last(), vs.drop_last());
    if i == ks.len() - 1 {
        assert(vs.update(i, v).drop_last() =~= vs.drop_last());
        assert(vs.update(i, v).last() == v);
        assert(base.insert(ks.last(), vs.last()).insert(ks.last(), v) =~= base.insert(
            ks.last(),
            v,
        ));
    } else {
        assert(vs.update(i, v).drop_last() =~= vs.drop_last().update(i, v));
        assert(ks.drop_last().no_duplicates());
        lemma_assoc_update(ks.drop_last(), vs.drop_last(), i, v);
        assert(ks.drop_last()[i] == ks[i]);
        assert(ks.last() != ks[i]);
        assert(vs.update(i, v).last() == vs.last());
        assert(base.insert(ks[i], v).insert(ks.last(), vs.last()) =~= base.insert(
            ks.last(),
            vs.last(),
        ).insert(ks[i], v));
    }
}

pub proof fn lemma_assoc_push<T>(ks: Seq<Seq<char>>, vs: Seq<T>, k: Seq<char>, v: T)
    requires
        ks.len() == vs.len(),
    ensures
        assoc_map(ks.push(k), vs.push(v)) == assoc_map(ks, vs).insert(k, v),
{
    assert(ks.push(k).drop_last() =~= ks);
    assert(vs.push(v).drop_last() =~= vs);
}

/// A map from path strings to values.
pub struct StrMap<V> {
    pub keys: Vec<String>,
    pub vals: Vec<V>,
}

impl<V: DeepView> View for StrMap<V> {
    type V = Map<Seq<char>, V::V>;

    open spec fn view(&self) -> Map<Seq<char>, V::V> {
        assoc_map(self.keys.deep_view(), self.vals.deep_view())
    }
}

impl<V: DeepView> StrMap<V> {
    /// The keys in insertion order.
    pub open spec fn kseq(&self) -> Seq<Seq<char>> {
        self.keys.deep_view()
    }

    /// The columns line up and no key occurs twice.
    pub open spec fn wf(&self) -> bool {
        &&& self.keys@.len() == self.vals@.len()
        &&& self.kseq().no_duplicates()
    }

    pub fn new() -> (r: Self)
        ensures
            r.wf(),
            r@ == Map::<Seq<char>, V::V>::empty(),
            r.kseq() == Seq::<Seq<char>>::empty(),
    {
        let r = StrMap { keys: Vec::new(), vals: Vec::new() };
        proof {
            assert(r.kseq() =~= Seq::<Seq<char>>::empty());
        }
        r
    }

    pub fn len(&self) -> (r: usize)
        requires
            self.wf(),
        ensures
            r == self.kseq().len(),
    {
        self.keys.len()
    }

    pub fn key_at(&self, i: usize) -> (r: &String)
        requires
            self.wf(),
            i < self.kseq().len(),
        ensures
            r@ == self.kseq()[i as int],
            self@.contains_key(r@),
    {
        proof {
            lemma_assoc_get(self.keys.deep_view(), self.vals.deep_view(), i as int);
        }
        &self.keys[i]
    }

    pub fn val_at(&self, i: usize) -> (r: &V)
        requires
            self.wf(),
            i < self.kseq().len(),
        ensures
            r.deep_view() == self@[self.kseq()[i as int]],
    {
        proof {
            lemma_assoc_get(self.keys.deep_view(), self.vals.deep_view(), i as int);
        }
        &self.vals[i]
    }

    pub fn get(&self, k: &str) -> (r: Option<&V>)
        requires
            self.wf(),
        ensures
            match r {
                Some(v) => self@.contains_key(k@) && v.deep_view() == self@[k@],
                None => !self@.contains_key(k@),
            },
    {
        let n = self.keys.len();
        let mut i: usize = 0;
        while i < n
            invariant
                self.wf(),
                n == self.keys@.len(),
                i <= n,
                forall|t: int| 0 <= t < i ==> self.kseq()[t] != k@,
            decreases n - i,
        {
            if str_eq(self.keys[i].as_str(), k) {
                proof {
                    lemma_assoc_get(self.keys.deep_view(), self.vals.deep_view(), i as int);
                }
                return Some(&self.vals[i]);
            }
            i += 1;
        }
        proof {
            assert(!self.kseq().contains(k@));
            lemma_assoc_contains(self.keys.deep_view(), self.vals.deep_view(), k@);
        }
        None
    }

    pub fn contains_key(&self, k: &str) -> (r: bool)
        requires
            self.wf(),
        ensures
            r == self@.contains_key(k@),
    {
        self.get(k).is_some()
    }

    /// Insert or replace the entry for `k`. A fresh key goes to the end of
    /// the key column; an existing key keeps its place.
    pub fn insert(&mut self, k: String, v: V)
        requires
            old(self).wf(),
        ensures
            final(self).wf(),
            final(self)@ == old(self)@.insert(k@, v.deep_view()),
            final(self).kseq() == if old(self)@.contains_key(k@) {
                old(self).kseq()
            } else {
                old(self).kseq().push(k@)
            },
    {
        let ghost gk = k@;
        let ghost gv = v.deep_view();
        let n = self.keys.len();
        let mut i: usize = 0;
        while i < n
            invariant
                self.wf(),
                *self == *old(self),
                n == self.keys@.len(),
                i <= n,
                forall|t: int| 0 <= t < i ==> self.kseq()[t] != gk,
                gk == k@,
                gv == v.deep_view(),
            decreases n - i,
        {
            if str_eq(self.keys[i].as_str(), k.as_str()) {
                let ghost pks = self.keys.deep_view();
                let ghost pvs = self.vals.deep_view();
                let ghost pvr = self.vals@;
                let ghost vv = v;
                proof {
                    lemma_assoc_get(pks, pvs, i as int);
                    lemma_assoc_update(pks, pvs, i as int, gv);
                }
                self.vals[i] = v;
                proof {
                    assert(self.vals@ =~= pvr.update(i as int, vv));
                    assert(self.vals.deep_view() =~= pvs.update(i as int, gv));
                }
                return ;
            }
            i += 1;
        }
        proof {
            assert(!self.kseq().contains(gk));
            lemma_assoc_contains(self.keys.deep_view(), self.vals.deep_view(), gk);
            lemma_assoc_push(self.keys.deep_view(), self.vals.deep_view(), gk, gv);
        }
        let ghost oks = self.keys.deep_view();
        let ghost ovs = self.vals.deep_view();
        self.keys.push(k);
        self.vals.push(v);
        proof {
            assert(self.keys.deep_view() =~= oks.push(gk));
            assert(self.vals.deep_view() =~= ovs.push(gv));
            assert(self.kseq().drop_last() =~= oks);
            assert forall|a: int, b: int|
                0 <= a < self.kseq().len() && 0 <= b < self.kseq().len() && a != b implies self.kseq()[a]
                != self.kseq()[b] by {
                if a < oks.len() && b < oks.len() {
                } else if a < oks.len() {
                    assert(!oks.contains(self.kseq()[b]) && oks[a] == self.kseq()[a]);
                } else if b < oks.len() {
                    assert(!oks.contains(self.kseq()[a]) && oks[b] == self.kseq()[b]);
                }
            }
        }
    }
}

} // verus!
