//! A map keyed by strings that keeps its entries in insertion order.
//!
//! Iteration order is part of what the codecs produce (resources are
//! written in the order they are held), so the map is a vector of entries
//! with unique keys rather than a hashed table.

use vstd::prelude::*;
use crate::text::{chars_of, lemma_lex_total, lex_le, lex_le_exec};

verus! {

/// Entries with pairwise distinct keys, in insertion order.
pub struct StrMap<V> {
    pub entries: Vec<(String, V)>,
}

impl<V> View for StrMap<V> {
    type V = Map<Seq<char>, V>;

    open spec fn view(&self) -> Map<Seq<char>, V> {
        Map::new(
            |k: Seq<char>| self.has_key(k),
            |k: Seq<char>| self.entries@[self.index_of(k)].1,
        )
    }
}

impl<V> StrMap<V> {
    /// Some entry has key `k`.
    pub open spec fn has_key(&self, k: Seq<char>) -> bool {
        exists|i: int| 0 <= i < self.entries@.len() && #[trigger] self.entries@[i].0@ == k
    }

    /// An index whose entry has key `k`.
    pub open spec fn index_of(&self, k: Seq<char>) -> int {
        choose|i: int| 0 <= i < self.entries@.len() && #[trigger] self.entries@[i].0@ == k
    }

    /// Keys are pairwise distinct.
    pub open spec fn wf(&self) -> bool {
        forall|i: int, j: int|
            0 <= i < j < self.entries@.len() ==> #[trigger] self.entries@[i].0@
                != #[trigger] self.entries@[j].0@
    }

    /// The keys, in order.
    pub open spec fn key_seq(&self) -> Seq<Seq<char>> {
        self.entries@.map_values(|e: (String, V)| e.0@)
    }

    /// The entry at `j` is what the map holds for its key.
    pub proof fn lemma_entry(&self, j: int)
        requires
            self.wf(),
            0 <= j < self.entries@.len(),
        ensures
            self.index_of(self.entries@[j].0@) == j,
            self@.contains_key(self.entries@[j].0@),
            self@[self.entries@[j].0@] == self.entries@[j].1,
    {
        let k = self.entries@[j].0@;
        assert(self.has_key(k));
        let i = self.index_of(k);
        if i != j {
            if i < j {
                assert(self.entries@[i].0@ != self.entries@[j].0@);
            } else {
                assert(self.entries@[j].0@ != self.entries@[i].0@);
            }
        }
    }

    /// An empty map.
    pub fn new() -> (r: Self)
        ensures
            r.wf(),
            r@ == Map::<Seq<char>, V>::empty(),
            r.entries@.len() == 0,
    {
        let r = StrMap { entries: Vec::new() };
        assert(r@ =~= Map::<Seq<char>, V>::empty());
        r
    }

    /// Number of entries.
    pub fn len(&self) -> (r: usize)
        ensures
            r == self.entries@.len(),
    {
        self.entries.len()
    }

    /// The index of the entry with key `k`.
    pub fn position(&self, k: &str) -> (r: Option<usize>)
        ensures
            match r {
                Some(i) => i < self.entries@.len() && self.entries@[i as int].0@ == k@,
                None => !self.has_key(k@),
            },
    {
        let mut i: usize = 0;
        while i < self.entries.len()
            invariant
                i <= self.entries@.len(),
                forall|j: int| 0 <= j < i ==> self.entries@[j].0@ != k@,
            decreases self.entries.len() - i,
        {
            if crate::text::str_eq(self.entries[i].0.as_str(), k) {
                return Some(i);
            }
            i = i + 1;
        }
        None
    }

    /// Whether an entry has key `k`.
    pub fn contains_key(&self, k: &str) -> (r: bool)
        ensures
            r == self@.contains_key(k@),
    {
        match self.position(k) {
            Some(_) => true,
            None => false,
        }
    }

    /// The value held for key `k`.
    pub fn get(&self, k: &str) -> (r: Option<&V>)
        requires
            self.wf(),
        ensures
            match r {
                Some(v) => self@.contains_key(k@) && *v == self@[k@],
                None => !self@.contains_key(k@),
            },
    {
        match self.position(k) {
            Some(i) => {
                proof {
                    self.lemma_entry(i as int);
                }
                Some(&self.entries[i].1)
            },
            None => None,
        }
    }

    /// Sets the value for key `k`; a new key goes after the others.
    pub fn insert(&mut self, k: String, v: V)
        requires
            old(self).wf(),
        ensures
            final(self).wf(),
            final(self)@ == old(self)@.insert(k@, v),
            old(self).has_key(k@) ==> final(self).key_seq() == old(self).key_seq(),
            !old(self).has_key(k@) ==> final(self).key_seq() == old(self).key_seq().push(k@),
    {
        let ghost pre = *self;
        match self.position(k.as_str()) {
            Some(i) => {
                let ghost kv = k@;
                self.entries.set(i, (k, v));
                proof {
                    assert forall|a: int, b: int|
                        0 <= a < b < self.entries@.len() implies #[trigger] self.entries@[a].0@
                        != #[trigger] self.entries@[b].0@ by {
                        assert(pre.entries@[a].0@ != pre.entries@[b].0@);
                    }
                    assert forall|kk: Seq<char>| #[trigger] self.has_key(kk) == pre.has_key(kk) by {
                        if self.has_key(kk) {
                            let j = self.index_of(kk);
                            assert(pre.entries@[j].0@ == kk);
                        }
                        if pre.has_key(kk) {
                            let j = pre.index_of(kk);
                            assert(self.entries@[j].0@ == kk);
                        }
                    }
                    assert forall|kk: Seq<char>| self@.contains_key(kk) implies self@[kk]
                        == pre@.insert(kv, v)[kk] by {
                        let j = self.index_of(kk);
                        self.lemma_entry(j);
                        if j != i {
                            pre.lemma_entry(j);
                        }
                    }
                    assert(self@ =~= pre@.insert(kv, v));
                    assert(self.key_seq() =~= pre.key_seq());
                }
            },
            None => {
                let ghost kv = k@;
                self.entries.push((k, v));
                proof {
                    let n = pre.entries@.len() as int;
                    assert forall|a: int, b: int|
                        0 <= a < b < self.entries@.len() implies #[trigger] self.entries@[a].0@
                        != #[trigger] self.entries@[b].0@ by {
                        if b < n {
                            assert(pre.entries@[a].0@ != pre.entries@[b].0@);
                        } else {
                            assert(pre.entries@[a].0@ != kv);
                        }
                    }
                    assert forall|kk: Seq<char>| #[trigger] self.has_key(kk) == (pre.has_key(kk) || kk == kv) by {
                        if self.has_key(kk) {
                            let j = self.index_of(kk);
                            if j < n {
                                assert(pre.entries@[j].0@ == kk);
                            }
                        }
                        if pre.has_key(kk) {
                            let j = pre.index_of(kk);
                            assert(self.entries@[j].0@ == kk);
                        }
                        if kk == kv {
                            assert(self.entries@[n].0@ == kk);
                        }
                    }
                    assert forall|kk: Seq<char>| self@.contains_key(kk) implies self@[kk]
                        == pre@.insert(kv, v)[kk] by {
                        let j = self.index_of(kk);
                        self.lemma_entry(j);
                        if j < n {
                            pre.lemma_entry(j);
                        }
                    }
                    assert(self@ =~= pre@.insert(kv, v));
                    assert(self.key_seq() =~= pre.key_seq().push(kv));
                }
            },
        }
    }

    /// Removes the entry with key `k`, returning its value; the others keep
    /// their order.
    pub fn remove(&mut self, k: &str) -> (r: Option<V>)
        requires
            old(self).wf(),
        ensures
            final(self).wf(),
            final(self)@ == old(self)@.remove(k@),
            match r {
                Some(v) => old(self)@.contains_key(k@) && v == old(self)@[k@],
                None => !old(self)@.contains_key(k@),
            },
    {
        let ghost pre = *self;
        match self.position(k) {
            Some(i) => {
                proof {
                    pre.lemma_entry(i as int);
                }
                let e = self.entries.remove(i);
                proof {
                    let ii = i as int;
                    assert forall|a: int, b: int|
                        0 <= a < b < self.entries@.len() implies #[trigger] self.entries@[a].0@
                        != #[trigger] self.entries@[b].0@ by {
                        let pa = if a < ii { a } else { a + 1 };
                        let pb = if b < ii { b } else { b + 1 };
                        assert(pre.entries@[pa].0@ != pre.entries@[pb].0@);
                    }
                    assert forall|kk: Seq<char>| #[trigger] self.has_key(kk) == (pre.has_key(kk) && kk != k@) by {
                        if self.has_key(kk) {
                            let j = self.index_of(kk);
                            let pj = if j < ii { j } else { j + 1 };
                            assert(pre.entries@[pj].0@ == kk);
                            assert(pre.entries@[ii].0@ != pre.entries@[pj].0@ || pj == ii);
                        }
                        if pre.has_key(kk) && kk != k@ {
                            let j = pre.index_of(kk);
                            if j < ii {
                                assert(self.entries@[j].0@ == kk);
                            } else {
                                assert(self.entries@[j - 1].0@ == kk);
                            }
                        }
                    }
                    assert forall|kk: Seq<char>| self@.contains_key(kk) implies self@[kk]
                        == pre@.remove(k@)[kk] by {
                        let j = self.index_of(kk);
                        self.lemma_entry(j);
                        let pj = if j < ii { j } else { j + 1 };
                        pre.lemma_entry(pj);
                    }
                    assert(self@ =~= pre@.remove(k@));
                }
                Some(e.1)
            },
            None => {
                proof {
                    assert(!pre@.contains_key(k@));
                    assert(self@ =~= pre@.remove(k@));
                }
                None
            },
        }
    }
}

impl<V> StrMap<V> {
    /// `order` lists every entry index once, with keys in ascending order.
    pub open spec fn is_key_order(&self, order: Seq<usize>) -> bool {
        &&& order.len() == self.entries@.len()
        &&& forall|i: int| 0 <= i < order.len() ==> #[trigger] order[i] < self.entries@.len()
        &&& forall|i: int, j: int| 0 <= i < j < order.len() ==> #[trigger] order[i] != #[trigger] order[j]
        &&& forall|i: int| 0 <= i < order.len() - 1 ==> lex_le(
            #[trigger] self.entries@[order[i] as int].0@,
            self.entries@[order[i + 1] as int].0@,
        )
    }

    /// The entry indices, in ascending order of their keys.
    pub fn sorted_order(&self) -> (r: Vec<usize>)
        ensures
            self.is_key_order(r@),
    {
        let n = self.entries.len();
        let mut keys: Vec<Vec<char>> = Vec::new();
        let mut i: usize = 0;
        while i < n
            invariant
                n == self.entries@.len(),
                i <= n,
                keys@.len() == i,
                forall|j: int| 0 <= j < i ==> #[trigger] keys@[j]@ == self.entries@[j].0@,
            decreases n - i,
        {
            keys.push(chars_of(self.entries[i].0.as_str()));
            i = i + 1;
        }
        let mut order: Vec<usize> = Vec::new();
        let mut i: usize = 0;
        while i < n
            invariant
                n == self.entries@.len(),
                keys@.len() == n,
                forall|j: int| 0 <= j < n ==> #[trigger] keys@[j]@ == self.entries@[j].0@,
                i <= n,
                order@.len() == i,
                forall|a: int| 0 <= a < order@.len() ==> #[trigger] order@[a] < i,
                forall|a: int, b: int| 0 <= a < b < order@.len() ==> #[trigger] order@[a] != #[trigger] order@[b],
                forall|a: int| 0 <= a < order@.len() - 1 ==> lex_le(
                    #[trigger] self.entries@[order@[a] as int].0@,
                    self.entries@[order@[a + 1] as int].0@,
                ),
            decreases n - i,
        {
            let mut p: usize = order.len();
            while p > 0 && !lex_le_exec(&keys[order[p - 1]], &keys[i])
                invariant
                    p <= order@.len(),
                    forall|a: int| 0 <= a < order@.len() ==> #[trigger] order@[a] < i,
                    keys@.len() == n,
                    i < n,
                    forall|a: int| p <= a < order@.len() ==> !lex_le(
                        #[trigger] self.entries@[order@[a] as int].0@,
                        self.entries@[i as int].0@,
                    ),
                    forall|j: int| 0 <= j < n ==> #[trigger] keys@[j]@ == self.entries@[j].0@,
                decreases p,
            {
                p = p - 1;
            }
            let ghost pre = order@;
            proof {
                if p > 0 {
                    assert(lex_le(self.entries@[pre[p - 1] as int].0@, self.entries@[i as int].0@));
                }
                if p < pre.len() {
                    let x = self.entries@[i as int].0@;
                    let y = self.entries@[pre[p as int] as int].0@;
                    assert(!lex_le(y, x));
                    let kk = split_point_spec(x, y);
                    lemma_lex_total(x, y, kk);
                }
            }
            order.insert(p, i);
            proof {
                assert forall|a: int| 0 <= a < order@.len() - 1 implies lex_le(
                    #[trigger] self.entries@[order@[a] as int].0@,
                    self.entries@[order@[a + 1] as int].0@,
                ) by {
                    if a + 1 < p {
                        assert(order@[a] == pre[a] && order@[a + 1] == pre[a + 1]);
                    } else if a + 1 == p {
                        assert(order@[a] == pre[a] && order@[a + 1] == i);
                    } else if a == p {
                        assert(order@[a] == i && order@[a + 1] == pre[a]);
                    } else {
                        assert(order@[a] == pre[a - 1] && order@[a + 1] == pre[a]);
                    }
                }
                assert forall|a: int, b: int| 0 <= a < b < order@.len() implies #[trigger] order@[a] != #[trigger] order@[b] by {
                    let pa = if a < p { a } else if a == p { -1 } else { a - 1 };
                    let pb = if b < p { b } else if b == p { -1 } else { b - 1 };
                    if pa >= 0 && pb >= 0 {
                        assert(pre[pa] != pre[pb]);
                    } else if pa >= 0 {
                        assert(pre[pa] < i);
                    } else if pb >= 0 {
                        assert(pre[pb] < i);
                    }
                }
            }
            i = i + 1;
        }
        order
    }
}

/// Where `a` and `b` first differ (a witness that one exists).
pub proof fn split_point_spec(a: Seq<char>, b: Seq<char>) -> (k: int)
    ensures
        crate::text::is_split(a, b, k),
    decreases a.len(),
{
    if a.len() == 0 || b.len() == 0 || a[0] != b[0] {
        assert(a.take(0) =~= b.take(0));
        0
    } else {
        let k = split_point_spec(a.drop_first(), b.drop_first());
        assert(a.take(k + 1) =~= seq![a[0]] + a.drop_first().take(k));
        assert(b.take(k + 1) =~= seq![b[0]] + b.drop_first().take(k));
        k + 1
    }
}

impl StrMap<Vec<u8>> {
    /// The map with each value seen as its bytes.
    pub open spec fn bytes_view(&self) -> Map<Seq<char>, Seq<u8>> {
        self@.map_values(|v: Vec<u8>| v@)
    }

    /// The bytes that the map holds for `k`.
    pub proof fn lemma_bytes_view(&self, k: Seq<char>)
        requires
            self@.contains_key(k),
        ensures
            self.bytes_view().contains_key(k),
            self.bytes_view()[k] == self@[k]@,
    {
    }

    /// Sets the bytes held for key `k`.
    pub fn insert_bytes(&mut self, k: String, v: Vec<u8>)
        requires
            old(self).wf(),
        ensures
            final(self).wf(),
            final(self).bytes_view() == old(self).bytes_view().insert(k@, v@),
            final(self)@.dom() == old(self)@.dom().insert(k@),
            old(self).has_key(k@) ==> final(self).key_seq() == old(self).key_seq(),
    {
        let ghost pre = *self;
        let ghost kv = k@;
        let ghost vv = v@;
        self.insert(k, v);
        proof {
            assert(self.bytes_view() =~= pre.bytes_view().insert(kv, vv));
            assert(self@.dom() =~= pre@.dom().insert(kv));
        }
    }
}

impl StrMap<String> {
    /// The map with each value seen as its characters.
    pub open spec fn text_view(&self) -> Map<Seq<char>, Seq<char>> {
        self@.map_values(|v: String| v@)
    }

    /// Sets the value for key `k` to the characters of `v`.
    pub fn insert_str(&mut self, k: &str, v: &str)
        requires
            old(self).wf(),
        ensures
            final(self).wf(),
            final(self).text_view() == old(self).text_view().insert(k@, v@),
    {
        let ghost pre = *self;
        self.insert(String::from_str(k), String::from_str(v));
        proof {
            assert(self.text_view() =~= pre.text_view().insert(k@, v@));
        }
    }

    /// A copy of the map.
    pub fn duplicate(&self) -> (r: Self)
        ensures
            r.entries@.len() == self.entries@.len(),
            forall|i: int| 0 <= i < self.entries@.len() ==> #[trigger] r.entries@[i] == self.entries@[i],
            self.wf() ==> r.wf() && r@ == self@,
    {
        let mut entries: Vec<(String, String)> = Vec::new();
        let mut i: usize = 0;
        while i < self.entries.len()
            invariant
                i <= self.entries@.len(),
                entries@ == self.entries@.take(i as int),
            decreases self.entries.len() - i,
        {
            let e = (self.entries[i].0.clone(), self.entries[i].1.clone());
            entries.push(e);
            i = i + 1;
            proof {
                assert(entries@ =~= self.entries@.take(i as int));
            }
        }
        proof {
            assert(entries@ =~= self.entries@);
        }
        let r = StrMap { entries };
        proof {
            assert(r@ =~= self@);
        }
        r
    }
}

} // verus!
