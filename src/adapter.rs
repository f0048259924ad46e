//! Staged state of one contract: writes go to a cache, a successful
//! transaction stashes them, a failed one reverts them, and the epoch's commit
//! flushes the stashed writes into the contract's trie.

use vstd::prelude::*;
use crate::trie::{KvMap, holds_exactly, sorted_by_key};
use crate::bytes::lemma_lex_irreflexive;

verus! {

/// The map that a sequence of pairs denotes, later pairs overriding earlier.
pub open spec fn to_map(s: Seq<(Seq<u8>, Seq<u8>)>) -> Map<Seq<u8>, Seq<u8>>
    decreases s.len(),
{
    if s.len() == 0 {
        Map::empty()
    } else {
        to_map(s.drop_last()).insert(s.last().0, s.last().1)
    }
}

proof fn lemma_to_map_of_sorted(s: Seq<(Seq<u8>, Seq<u8>)>, m: Map<Seq<u8>, Seq<u8>>)
    requires
        sorted_by_key(s),
        holds_exactly(s, m),
    ensures
        to_map(s) == m,
    decreases s.len(),
{
    if s.len() == 0 {
        assert(m =~= Map::<Seq<u8>, Seq<u8>>::empty());
    } else {
        let d = s.drop_last();
        let last = s.last();
        let m2 = m.remove(last.0);
        assert forall|i: int| 0 <= i < d.len() implies #[trigger] m2.contains_key(d[i].0)
            && m2[d[i].0] == d[i].1 by {
            assert(s[i] == d[i]);
            assert(sorted_by_key(s) ==> crate::bytes::lex_lt(s[i].0, s[s.len() - 1].0));
            lemma_lex_irreflexive(last.0);
            assert(m.contains_key(s[i].0));
        }
        assert forall|k: Seq<u8>| #[trigger] m2.contains_key(k) implies exists|i: int|
            0 <= i < d.len() && d[i].0 == k by {
            assert(m.contains_key(k));
            let i = choose|i: int| 0 <= i < s.len() && s[i].0 == k;
            assert(d[i].0 == k);
        }
        lemma_to_map_of_sorted(d, m2);
        assert(m.contains_key(s[s.len() - 1].0));
        assert(to_map(s) =~= m);
    }
}

/// Writes every entry of `src` into `dst`.
pub fn merge_into(dst: &mut KvMap, src: &KvMap)
    requires
        old(dst).wf(),
        src.wf(),
    ensures
        final(dst).wf(),
        final(dst)@ == old(dst)@.union_prefer_right(src@),
{
    let mut i: usize = 0;
    while i < src.entries.len()
        invariant
            dst.wf(),
            src.wf(),
            i <= src.entries@.len(),
            dst@ == old(dst)@.union_prefer_right(to_map(src.pairs().take(i as int))),
        decreases src.entries@.len() - i,
    {
        dst.insert(&src.entries[i].key, &src.entries[i].value);
        assert(src.pairs().take(i + 1).drop_last() =~= src.pairs().take(i as int));
        assert(dst@ =~= old(dst)@.union_prefer_right(to_map(src.pairs().take(i + 1))));
        i = i + 1;
    }
    assert(src.pairs().take(i as int) =~= src.pairs());
    proof {
        lemma_to_map_of_sorted(src.pairs(), src@);
    }
}

/// One contract's state: committed trie, stashed writes, and the writes of the
/// transaction in flight.
pub struct ContractStateAdapter {
    pub trie: KvMap,
    pub stashed: KvMap,
    pub cache: KvMap,
}

impl ContractStateAdapter {
    pub open spec fn wf(&self) -> bool {
        self.trie.wf() && self.stashed.wf() && self.cache.wf()
    }

    /// The state as reads see it: the cache over the stashed writes over the trie.
    pub open spec fn view(&self) -> Map<Seq<u8>, Seq<u8>> {
        self.trie@.union_prefer_right(self.stashed@).union_prefer_right(self.cache@)
    }

    /// The state as it stood at the last stash.
    pub open spec fn stashed_view(&self) -> Map<Seq<u8>, Seq<u8>> {
        self.trie@.union_prefer_right(self.stashed@)
    }

    /// No write is waiting in the cache.
    pub open spec fn settled(&self) -> bool {
        self.cache@ == Map::<Seq<u8>, Seq<u8>>::empty()
    }

    pub fn new(trie: KvMap) -> (r: ContractStateAdapter)
        requires
            trie.wf(),
        ensures
            r.wf(),
            r.settled(),
            r.trie == trie,
            r.stashed@ == Map::<Seq<u8>, Seq<u8>>::empty(),
            r@ == trie@,
    {
        let r = ContractStateAdapter { trie, stashed: KvMap::new(), cache: KvMap::new() };
        assert(r@ =~= r.trie@);
        r
    }

    /// The value that reads see under `key`.
    pub fn get(&self, key: &Vec<u8>) -> (r: Option<Vec<u8>>)
        requires
            self.wf(),
        ensures
            match r {
                Some(v) => self@.contains_key(key@) && self@[key@] == v@,
                None => !self@.contains_key(key@),
            },
    {
        match self.cache.get(key) {
            Some(v) => Some(v),
            None => match self.stashed.get(key) {
                Some(v) => Some(v),
                None => self.trie.get(key),
            },
        }
    }

    /// Writes `value` under `key` in the cache.
    pub fn insert_cache(&mut self, key: &Vec<u8>, value: &Vec<u8>)
        requires
            old(self).wf(),
        ensures
            final(self).wf(),
            final(self)@ == old(self)@.insert(key@, value@),
            final(self).trie == old(self).trie,
            final(self).stashed == old(self).stashed,
    {
        self.cache.insert(key, value);
        assert(self@ =~= old(self)@.insert(key@, value@));
    }

    /// Promotes the cached writes to the stashed set.
    pub fn stash(&mut self)
        requires
            old(self).wf(),
        ensures
            final(self).wf(),
            final(self).settled(),
            final(self)@ == old(self)@,
            final(self).trie == old(self).trie,
            final(self).stashed@ == old(self).stashed@.union_prefer_right(old(self).cache@),
    {
        merge_into(&mut self.stashed, &self.cache);
        self.cache = KvMap::new();
        assert(self@ =~= old(self)@);
    }

    /// Drops the cached writes: the state is again what it was at the last stash.
    pub fn revert_cache(&mut self)
        requires
            old(self).wf(),
        ensures
            final(self).wf(),
            final(self).settled(),
            final(self)@ == old(self).stashed_view(),
            final(self).trie == old(self).trie,
            final(self).stashed == old(self).stashed,
    {
        self.cache = KvMap::new();
        assert(self@ =~= old(self).stashed_view());
    }

    /// Flushes the stashed writes into the trie and returns its root.
    pub fn commit(&mut self) -> (r: Vec<u8>)
        requires
            old(self).wf(),
        ensures
            final(self).wf(),
            final(self).trie@ == old(self).stashed_view(),
            final(self).stashed@ == Map::<Seq<u8>, Seq<u8>>::empty(),
            final(self).cache == old(self).cache,
            final(self)@ == old(self)@,
            r@ == final(self).trie.root(),
    {
        merge_into(&mut self.trie, &self.stashed);
        self.stashed = KvMap::new();
        assert(self@ =~= old(self)@);
        self.trie.root_hash()
    }
}

/// A transaction's writes reach no other transaction once reverted: if
/// `during` differs from the settled `before` only in its cache, reverting it
/// gives back exactly the state of `before`.
pub proof fn lemma_revert_restores(before: ContractStateAdapter, during: ContractStateAdapter)
    requires
        before.settled(),
        during.trie == before.trie,
        during.stashed == before.stashed,
    ensures
        during.stashed_view() == before@,
{
    assert(before@ =~= before.stashed_view());
}

} // verus!
