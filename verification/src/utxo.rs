//! The UTXO index: a mapping from output identity `(txid, output position)`
//! to the spendable output, mutated only as a side effect of block
//! acceptance.

use vstd::prelude::*;

verus! {

use crate::block::{TxOut, TxOutV};

/// One currently spendable output together with its key.
pub struct UtxoEntry {
    pub txid: String,
    pub index: usize,
    pub output: TxOut,
}

/// A finite map from `(creating transaction's id, output position)` to the
/// spendable output, stored as a list of entries with pairwise distinct
/// keys.
pub struct UtxoIndex {
    entries: Vec<UtxoEntry>,
}

impl UtxoIndex {
    spec fn key_at(self, i: int) -> (Seq<char>, int) {
        (self.entries@[i].txid@, self.entries@[i].index as int)
    }

    spec fn has_key(self, k: (Seq<char>, int)) -> bool {
        exists|i: int| 0 <= i < self.entries@.len() && self.key_at(i) == k
    }

    spec fn entry_of(self, k: (Seq<char>, int)) -> int {
        choose|i: int| 0 <= i < self.entries@.len() && self.key_at(i) == k
    }

    /// The mathematical map this index represents.
    pub closed spec fn as_map(self) -> Map<(Seq<char>, int), TxOutV> {
        Map::new(
            |k: (Seq<char>, int)| self.has_key(k),
            |k: (Seq<char>, int)| self.entries@[self.entry_of(k)].output@,
        )
    }

    /// Well-formed: entry keys are pairwise distinct, so each key denotes at
    /// most one output.
    pub closed spec fn wf(self) -> bool {
        forall|i: int, j: int|
            0 <= i < j < self.entries@.len() ==> self.key_at(i) != self.key_at(j)
    }

    proof fn lemma_at(self, i: int)
        requires
            self.wf(),
            0 <= i < self.entries@.len(),
        ensures
            self.has_key(self.key_at(i)),
            self.entry_of(self.key_at(i)) == i,
            self.as_map().contains_key(self.key_at(i)),
            self.as_map()[self.key_at(i)] == self.entries@[i].output@,
    {
        let k = self.key_at(i);
        assert(0 <= i < self.entries@.len() && self.key_at(i) == k);
        assert(self.has_key(k));
        let j = self.entry_of(k);
        assert(0 <= j < self.entries@.len() && self.key_at(j) == k);
        if i < j {
            assert(self.key_at(i) != self.key_at(j));
            assert(false);
        }
        if j < i {
            assert(self.key_at(j) != self.key_at(i));
            assert(false);
        }
    }

    /// An empty index.
    pub fn new() -> (r: Self)
        ensures
            r.wf(),
            r.as_map() == Map::<(Seq<char>, int), TxOutV>::empty(),
    {
        let r = UtxoIndex { entries: Vec::new() };
        proof {
            assert(r.as_map() =~= Map::<(Seq<char>, int), TxOutV>::empty());
        }
        r
    }

    /// Read-only lookup of the output created under `(txid, index)`, if it
    /// is still spendable.
    pub fn get(&self, txid: &str, index: usize) -> (r: Option<&TxOut>)
        requires
            self.wf(),
        ensures
            match r {
                Some(o) => self.as_map().contains_key((txid@, index as int)) && o@
                    == self.as_map()[(txid@, index as int)],
                None => !self.as_map().contains_key((txid@, index as int)),
            },
    {
        let ghost k = (txid@, index as int);
        let key = txid.to_owned();
        let mut i: usize = 0;
        while i < self.entries.len()
            invariant
                self.wf(),
                key@ == txid@,
                k == (txid@, index as int),
                i <= self.entries.len(),
                forall|j: int| 0 <= j < i ==> self.key_at(j) != k,
            decreases self.entries.len() - i,
        {
            let e = &self.entries[i];
            if e.txid == key && e.index == index {
                proof {
                    assert(self.key_at(i as int) == k);
                    self.lemma_at(i as int);
                }
                return Some(&self.entries[i].output);
            }
            proof {
                assert(self.key_at(i as int) != k);
            }
            i += 1;
        }
        proof {
            if self.has_key(k) {
                let j = self.entry_of(k);
                assert(0 <= j < self.entries@.len() && self.key_at(j) == k);
                assert(false);
            }
        }
        None
    }

    /// Removes the entry under `(txid, index)` if present; absence is not an
    /// error.
    pub fn remove(&mut self, txid: &str, index: usize)
        requires
            old(self).wf(),
        ensures
            final(self).wf(),
            final(self).as_map() == old(self).as_map().remove((txid@, index as int)),
    {
        let ghost k = (txid@, index as int);
        let key = txid.to_owned();
        let mut i: usize = 0;
        while i < self.entries.len()
            invariant
                *self == *old(self),
                old(self).wf(),
                key@ == txid@,
                k == (txid@, index as int),
                i <= self.entries.len(),
                forall|j: int| 0 <= j < i ==> old(self).key_at(j) != k,
            decreases self.entries.len() - i,
        {
            let e = &self.entries[i];
            if e.txid == key && e.index == index {
                proof {
                    assert(old(self).key_at(i as int) == k);
                }
                self.entries.remove(i);
                proof {
                    lemma_entries_remove(*old(self), *self, i as int);
                }
                return ;
            }
            proof {
                assert(old(self).key_at(i as int) != k);
            }
            i += 1;
        }
        proof {
            if old(self).has_key(k) {
                let j = old(self).entry_of(k);
                assert(0 <= j < old(self).entries@.len() && old(self).key_at(j) == k);
                assert(false);
            }
            assert(!old(self).as_map().contains_key(k));
            assert(final(self).as_map() =~= old(self).as_map().remove(k));
        }
    }

    /// Inserts or overwrites the entry under `(txid, index)`.
    pub fn insert(&mut self, txid: String, index: usize, output: TxOut)
        requires
            old(self).wf(),
        ensures
            final(self).wf(),
            final(self).as_map() == old(self).as_map().insert((txid@, index as int), output@),
    {
        let ghost k = (txid@, index as int);
        self.remove(txid.as_str(), index);
        let ghost mid = *self;
        let e = UtxoEntry { txid, index, output };
        let ghost ge = e;
        self.entries.push(e);
        proof {
            assert(!mid.as_map().contains_key(k));
            assert(!mid.has_key(k));
            assert((ge.txid@, ge.index as int) == k);
            lemma_entries_push(mid, *self, ge);
            assert(old(self).as_map().remove(k).insert(k, output@) =~= old(self).as_map().insert(
                k,
                output@,
            ));
        }
    }
}

/// Removing one entry removes exactly its key from the represented map.
proof fn lemma_entries_remove(pre: UtxoIndex, post: UtxoIndex, i: int)
    requires
        pre.wf(),
        0 <= i < pre.entries@.len(),
        post.entries@ == pre.entries@.remove(i),
    ensures
        post.wf(),
        post.as_map() == pre.as_map().remove(pre.key_at(i)),
{
    let k = pre.key_at(i);
    let n = pre.entries@.len() as int;
    assert forall|j: int| 0 <= j < n - 1 implies post.entries@[j] == pre.entries@[
        if j < i {
            j
        } else {
            j + 1
        }
    ] by {}
    assert forall|a: int, b: int|
        0 <= a < b < post.entries@.len() implies post.key_at(a) != post.key_at(b) by {
        let a2 = if a < i { a } else { a + 1 };
        let b2 = if b < i { b } else { b + 1 };
        assert(pre.key_at(a2) != pre.key_at(b2));
    }
    assert forall|k2: (Seq<char>, int)| #[trigger] post.has_key(k2) implies pre.has_key(k2) && k2
        != k by {
        let j = post.entry_of(k2);
        assert(0 <= j < post.entries@.len() && post.key_at(j) == k2);
        let j2 = if j < i { j } else { j + 1 };
        assert(pre.key_at(j2) == k2);
        assert(pre.has_key(k2));
        if k2 == k {
            if j2 < i {
                assert(pre.key_at(j2) != pre.key_at(i));
            } else {
                assert(pre.key_at(i) != pre.key_at(j2));
            }
            assert(false);
        }
    }
    assert forall|k2: (Seq<char>, int)| pre.has_key(k2) && k2 != k implies #[trigger] post.has_key(
        k2,
    ) by {
        let j2 = pre.entry_of(k2);
        assert(0 <= j2 < pre.entries@.len() && pre.key_at(j2) == k2);
        if j2 == i {
            assert(false);
        }
        let j = if j2 < i { j2 } else { j2 - 1 };
        assert(post.key_at(j) == k2);
        assert(post.has_key(k2));
    }
    assert forall|k2: (Seq<char>, int)| #[trigger] post.has_key(k2) implies post.as_map()[k2]
        == pre.as_map()[k2] by {
        let j = post.entry_of(k2);
        assert(0 <= j < post.entries@.len() && post.key_at(j) == k2);
        let j2 = if j < i { j } else { j + 1 };
        assert(pre.key_at(j2) == k2);
        pre.lemma_at(j2);
        assert(pre.entry_of(k2) == j2);
        assert(post.entries@[j] == pre.entries@[j2]);
    }
    assert(post.as_map() =~= pre.as_map().remove(k));
}

/// Appending an entry with a fresh key inserts exactly that key into the
/// represented map.
proof fn lemma_entries_push(pre: UtxoIndex, post: UtxoIndex, e: UtxoEntry)
    requires
        pre.wf(),
        !pre.has_key((e.txid@, e.index as int)),
        post.entries@ == pre.entries@.push(e),
    ensures
        post.wf(),
        post.as_map() == pre.as_map().insert((e.txid@, e.index as int), e.output@),
{
    let k = (e.txid@, e.index as int);
    let n = pre.entries@.len() as int;
    assert(post.entries@[n] == e);
    assert(post.key_at(n) == k);
    assert forall|j: int| 0 <= j < n implies post.entries@[j] == pre.entries@[j] by {}
    assert forall|j: int| 0 <= j < n implies pre.key_at(j) != k by {
        if pre.key_at(j) == k {
            assert(pre.has_key(k));
            assert(false);
        }
    }
    assert forall|a: int, b: int|
        0 <= a < b < post.entries@.len() implies post.key_at(a) != post.key_at(b) by {
        if b < n {
            assert(pre.key_at(a) != pre.key_at(b));
        } else {
            assert(post.key_at(b) == k);
            assert(pre.key_at(a) != k);
        }
    }
    assert forall|k2: (Seq<char>, int)| #[trigger] post.has_key(k2) implies pre.has_key(k2) || k2
        == k by {
        let j = post.entry_of(k2);
        assert(0 <= j < post.entries@.len() && post.key_at(j) == k2);
        if j < n {
            assert(pre.key_at(j) == k2);
            assert(pre.has_key(k2));
        } else {
            assert(k2 == k);
        }
    }
    assert forall|k2: (Seq<char>, int)| pre.has_key(k2) implies #[trigger] post.has_key(k2) by {
        let j = pre.entry_of(k2);
        assert(0 <= j < pre.entries@.len() && pre.key_at(j) == k2);
        assert(post.key_at(j) == k2);
        assert(post.has_key(k2));
    }
    assert(post.has_key(k));
    assert forall|k2: (Seq<char>, int)| #[trigger] post.has_key(k2) && k2 != k implies
        post.as_map()[k2] == pre.as_map()[k2] by {
        let j = post.entry_of(k2);
        assert(0 <= j < post.entries@.len() && post.key_at(j) == k2);
        if j == n {
            assert(false);
        }
        assert(pre.key_at(j) == k2);
        pre.lemma_at(j);
        assert(pre.entry_of(k2) == j);
    }
    assert(post.as_map()[k] == post.entries@[post.entry_of(k)].output@);
    assert(0 <= post.entry_of(k) < post.entries@.len() && post.key_at(post.entry_of(k)) == k) by {
        assert(post.has_key(k));
    }
    assert forall|j: int| 0 <= j < n implies post.key_at(j) != k by {
        assert(pre.key_at(j) != k);
    }
    assert(post.entry_of(k) == n);
    assert(post.as_map() =~= pre.as_map().insert(k, e.output@));
}

} // verus!
