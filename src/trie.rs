//! A content-addressed key/value index. Entries are kept sorted by key, so the
//! root digest depends on the set of key/value pairs alone, never on the order
//! of the inserts that produced it.

use vstd::prelude::*;
use crate::bytes::{bytes_eq, bytes_lt, copy_bytes, lex_lt, lemma_lex_irreflexive,
    lemma_lex_transitive, lemma_lex_total, lemma_lex_asymmetric, concat};
use crate::hash::{keccak256, keccak256_of};

verus! {

pub struct Entry {
    pub key: Vec<u8>,
    pub value: Vec<u8>,
}

/// A map from byte strings to byte strings, held as entries sorted by key.
pub struct KvMap {
    pub entries: Vec<Entry>,
    pub model: Ghost<Map<Seq<u8>, Seq<u8>>>,
}

/// The entries of a sequence as pairs of views.
pub open spec fn pairs_of(entries: Seq<Entry>) -> Seq<(Seq<u8>, Seq<u8>)> {
    entries.map_values(|e: Entry| (e.key@, e.value@))
}

/// Keys strictly increasing.
pub open spec fn sorted_by_key(s: Seq<(Seq<u8>, Seq<u8>)>) -> bool {
    forall|i: int, j: int| 0 <= i < j < s.len() ==> lex_lt(#[trigger] s[i].0, #[trigger] s[j].0)
}

/// The map that a sequence of pairs with distinct keys denotes.
pub open spec fn holds_exactly(s: Seq<(Seq<u8>, Seq<u8>)>, m: Map<Seq<u8>, Seq<u8>>) -> bool {
    &&& forall|i: int| 0 <= i < s.len() ==> #[trigger] m.contains_key(s[i].0) && m[s[i].0] == s[i].1
    &&& forall|k: Seq<u8>| #[trigger] m.contains_key(k) ==> exists|i: int| 0 <= i < s.len() && s[i].0 == k
}

/// The bytes that a root digest is taken over: for each entry in key order, the
/// digest of its key followed by the digest of its value.
pub open spec fn leaves(s: Seq<(Seq<u8>, Seq<u8>)>) -> Seq<u8>
    decreases s.len(),
{
    if s.len() == 0 {
        Seq::empty()
    } else {
        leaves(s.drop_last()) + keccak256_of(s.last().0) + keccak256_of(s.last().1)
    }
}

/// The root digest of a sequence of pairs.
pub open spec fn root_of(s: Seq<(Seq<u8>, Seq<u8>)>) -> Seq<u8> {
    keccak256_of(leaves(s))
}

impl KvMap {
    pub open spec fn pairs(&self) -> Seq<(Seq<u8>, Seq<u8>)> {
        pairs_of(self.entries@)
    }

    pub open spec fn view(&self) -> Map<Seq<u8>, Seq<u8>> {
        self.model@
    }

    pub open spec fn wf(&self) -> bool {
        sorted_by_key(self.pairs()) && holds_exactly(self.pairs(), self.model@)
    }

    /// The digest of the current contents.
    pub open spec fn root(&self) -> Seq<u8> {
        root_of(self.pairs())
    }

    pub fn new() -> (r: KvMap)
        ensures
            r.wf(),
            r@ == Map::<Seq<u8>, Seq<u8>>::empty(),
    {
        KvMap { entries: Vec::new(), model: Ghost(Map::empty()) }
    }

    /// The value stored under `key`, if any.
    pub fn get(&self, key: &Vec<u8>) -> (r: Option<Vec<u8>>)
        requires
            self.wf(),
        ensures
            match r {
                Some(v) => self@.contains_key(key@) && self@[key@] == v@,
                None => !self@.contains_key(key@),
            },
    {
        let mut i: usize = 0;
        while i < self.entries.len()
            invariant
                self.wf(),
                i <= self.entries@.len(),
                forall|j: int| 0 <= j < i ==> self.pairs()[j].0 != key@,
            decreases self.entries@.len() - i,
        {
            if bytes_eq(&self.entries[i].key, key) {
                assert(self.pairs()[i as int].0 == key@);
                return Some(copy_bytes(&self.entries[i].value));
            }
            i = i + 1;
        }
        None
    }

    /// Stores `value` under `key`, replacing what was there.
    pub fn insert(&mut self, key: &Vec<u8>, value: &Vec<u8>)
        requires
            old(self).wf(),
        ensures
            final(self).wf(),
            final(self)@ == old(self)@.insert(key@, value@),
    {
        let ghost old_pairs = self.pairs();
        let mut i: usize = 0;
        while i < self.entries.len() && bytes_lt(&self.entries[i].key, key)
            invariant
                self.wf(),
                self.pairs() == old_pairs,
                i <= self.entries@.len(),
                forall|j: int| 0 <= j < i ==> lex_lt(#[trigger] self.pairs()[j].0, key@),
            decreases self.entries@.len() - i,
        {
            i = i + 1;
        }
        let ghost new_model = self.model@.insert(key@, value@);
        if i < self.entries.len() && bytes_eq(&self.entries[i].key, key) {
            let e = Entry { key: copy_bytes(key), value: copy_bytes(value) };
            self.entries.set(i, e);
            self.model = Ghost(new_model);
            assert(self.pairs() =~= old_pairs.update(i as int, (key@, value@)));
            let ghost np = self.pairs();
            assert(old_pairs[i as int].0 == key@);
            assert forall|j: int| 0 <= j < np.len() implies np[j].0 == old_pairs[j].0 by {}
            assert forall|j: int| 0 <= j < np.len() implies #[trigger] new_model.contains_key(np[j].0)
                && new_model[np[j].0] == np[j].1 by {
                if j < i {
                    assert(lex_lt(old_pairs[j].0, old_pairs[i as int].0));
                    lemma_lex_irreflexive(key@);
                } else if j > i {
                    assert(lex_lt(old_pairs[i as int].0, old_pairs[j].0));
                    lemma_lex_irreflexive(key@);
                }
            }
            assert forall|k: Seq<u8>| #[trigger] new_model.contains_key(k) implies exists|j: int|
                0 <= j < self.pairs().len() && self.pairs()[j].0 == k by {
                if k != key@ {
                    let j = choose|j: int| 0 <= j < old_pairs.len() && old_pairs[j].0 == k;
                    assert(self.pairs()[j].0 == k);
                } else {
                    assert(self.pairs()[i as int].0 == k);
                }
            }
        } else {
            proof {
                if i < old_pairs.len() {
                    lemma_lex_total(key@, old_pairs[i as int].0);
                }
            }
            let e = Entry { key: copy_bytes(key), value: copy_bytes(value) };
            self.entries.insert(i, e);
            self.model = Ghost(new_model);
            let ghost np = self.pairs();
            assert(np =~= old_pairs.insert(i as int, (key@, value@)));
            assert forall|a: int, b: int| 0 <= a < b < np.len() implies lex_lt(
                #[trigger] np[a].0,
                #[trigger] np[b].0,
            ) by {
                if b == i {
                } else if a == i {
                    if b > i + 1 {
                        lemma_lex_transitive(key@, old_pairs[i as int].0, old_pairs[b - 1].0);
                    }
                } else if a < i && b > i {
                    assert(lex_lt(old_pairs[a].0, key@));
                    if b > i + 1 {
                        lemma_lex_transitive(key@, old_pairs[i as int].0, old_pairs[b - 1].0);
                    }
                    assert(lex_lt(key@, np[b].0));
                    lemma_lex_transitive(old_pairs[a].0, key@, np[b].0);
                }
            }
            assert forall|j: int| 0 <= j < np.len() implies #[trigger] new_model.contains_key(np[j].0)
                && new_model[np[j].0] == np[j].1 by {
                if j < i {
                    assert(np[j] == old_pairs[j]);
                    assert(lex_lt(old_pairs[j].0, key@));
                    lemma_lex_irreflexive(key@);
                    assert(old(self)@.contains_key(old_pairs[j].0));
                } else if j > i {
                    assert(np[j] == old_pairs[j - 1]);
                    assert(old(self)@.contains_key(old_pairs[j - 1].0));
                    if old_pairs[j - 1].0 == key@ {
                        if j - 1 > i {
                            lemma_lex_transitive(key@, old_pairs[i as int].0, old_pairs[j - 1].0);
                        }
                        lemma_lex_irreflexive(key@);
                    }
                }
            }
            assert forall|k: Seq<u8>| #[trigger] new_model.contains_key(k) implies exists|j: int|
                0 <= j < np.len() && np[j].0 == k by {
                if k != key@ {
                    let j = choose|j: int| 0 <= j < old_pairs.len() && old_pairs[j].0 == k;
                    if j < i {
                        assert(np[j].0 == k);
                    } else {
                        assert(np[j + 1].0 == k);
                    }
                } else {
                    assert(np[i as int].0 == k);
                }
            }
        }
    }

    /// A copy with the same entries.
    pub fn duplicate(&self) -> (r: KvMap)
        requires
            self.wf(),
        ensures
            r.wf(),
            r.pairs() == self.pairs(),
            r@ == self@,
    {
        let mut entries: Vec<Entry> = Vec::new();
        let mut i: usize = 0;
        while i < self.entries.len()
            invariant
                i <= self.entries@.len(),
                entries@.len() == i,
                forall|j: int| 0 <= j < i ==> (#[trigger] entries@[j]).key@ == self.entries@[j].key@
                    && entries@[j].value@ == self.entries@[j].value@,
            decreases self.entries@.len() - i,
        {
            let e = Entry { key: copy_bytes(&self.entries[i].key), value: copy_bytes(&self.entries[i].value) };
            entries.push(e);
            i = i + 1;
        }
        assert(pairs_of(entries@) =~= self.pairs());
        KvMap { entries, model: Ghost(self.model@) }
    }

    /// The digest of the current contents.
    pub fn root_hash(&self) -> (r: Vec<u8>)
        ensures
            r@ == self.root(),
    {
        let mut acc: Vec<u8> = Vec::new();
        let mut i: usize = 0;
        while i < self.entries.len()
            invariant
                i <= self.entries@.len(),
                acc@ == leaves(self.pairs().take(i as int)),
            decreases self.entries@.len() - i,
        {
            let kh = keccak256(&self.entries[i].key);
            let vh = keccak256(&self.entries[i].value);
            let with_key = concat(&acc, &kh);
            acc = concat(&with_key, &vh);
            assert(self.pairs().take(i + 1).drop_last() =~= self.pairs().take(i as int));
            i = i + 1;
        }
        assert(self.pairs().take(i as int) =~= self.pairs());
        keccak256(&acc)
    }
}

/// Two key-sorted sequences with the same pairs are the same sequence.
proof fn lemma_sorted_unique(s1: Seq<(Seq<u8>, Seq<u8>)>, s2: Seq<(Seq<u8>, Seq<u8>)>)
    requires
        sorted_by_key(s1),
        sorted_by_key(s2),
        forall|p: (Seq<u8>, Seq<u8>)| s1.contains(p) == s2.contains(p),
    ensures
        s1 == s2,
    decreases s1.len(),
{
    if s1.len() == 0 {
        if s2.len() > 0 {
            assert(s2.contains(s2[0]));
        }
        assert(s1 =~= s2);
    } else {
        assert(s1.contains(s1[0]));
        assert(s2.len() > 0);
        assert(s2.contains(s2[0]));
        let j = choose|j: int| 0 <= j < s2.len() && s2[j] == s1[0];
        let i = choose|i: int| 0 <= i < s1.len() && s1[i] == s2[0];
        if i > 0 && j > 0 {
            assert(lex_lt(s1[0].0, s1[i].0));
            assert(lex_lt(s2[0].0, s2[j].0));
            lemma_lex_asymmetric(s1[0].0, s2[0].0);
        }
        assert(s1[0] == s2[0]);
        let t1 = s1.drop_first();
        let t2 = s2.drop_first();
        assert forall|p: (Seq<u8>, Seq<u8>)| t1.contains(p) == t2.contains(p) by {
            if t1.contains(p) {
                let a = choose|a: int| 0 <= a < t1.len() && t1[a] == p;
                assert(s1[a + 1] == p);
                assert(s1.contains(p));
                assert(lex_lt(s1[0].0, s1[a + 1].0));
                lemma_lex_irreflexive(p.0);
                let b = choose|b: int| 0 <= b < s2.len() && s2[b] == p;
                assert(b != 0);
                assert(t2[b - 1] == p);
            }
            if t2.contains(p) {
                let a = choose|a: int| 0 <= a < t2.len() && t2[a] == p;
                assert(s2[a + 1] == p);
                assert(s2.contains(p));
                assert(lex_lt(s2[0].0, s2[a + 1].0));
                lemma_lex_irreflexive(p.0);
                let b = choose|b: int| 0 <= b < s1.len() && s1[b] == p;
                assert(b != 0);
                assert(t1[b - 1] == p);
            }
        }
        lemma_sorted_unique(t1, t2);
        assert(s1 =~= seq![s1[0]] + t1);
        assert(s2 =~= seq![s2[0]] + t2);
    }
}

/// Two key-sorted sequences that both denote `m` are the same sequence.
proof fn lemma_same_map_same_pairs(s1: Seq<(Seq<u8>, Seq<u8>)>, s2: Seq<(Seq<u8>, Seq<u8>)>, m: Map<Seq<u8>, Seq<u8>>)
    requires
        sorted_by_key(s1),
        sorted_by_key(s2),
        holds_exactly(s1, m),
        holds_exactly(s2, m),
    ensures
        s1 == s2,
{
    assert forall|p: (Seq<u8>, Seq<u8>)| s1.contains(p) == s2.contains(p) by {
        if s1.contains(p) {
            let i = choose|i: int| 0 <= i < s1.len() && s1[i] == p;
            assert(m.contains_key(s1[i].0));
            let j = choose|j: int| 0 <= j < s2.len() && s2[j].0 == p.0;
            assert(s2[j] == p);
        }
        if s2.contains(p) {
            let i = choose|i: int| 0 <= i < s2.len() && s2[i] == p;
            assert(m.contains_key(s2[i].0));
            let j = choose|j: int| 0 <= j < s1.len() && s1[j].0 == p.0;
            assert(s1[j] == p);
        }
    }
    lemma_sorted_unique(s1, s2);
}

/// The key-sorted pairs that a map denotes.
pub open spec fn sorted_pairs_of(m: Map<Seq<u8>, Seq<u8>>) -> Seq<(Seq<u8>, Seq<u8>)> {
    choose|s: Seq<(Seq<u8>, Seq<u8>)>| sorted_by_key(s) && holds_exactly(s, m)
}

/// The root digest of the contents `m`.
pub open spec fn map_root(m: Map<Seq<u8>, Seq<u8>>) -> Seq<u8> {
    root_of(sorted_pairs_of(m))
}

/// The root digest is a function of the contents alone: a well-formed map's
/// root is the root of what it holds, whatever inserts built it.
pub proof fn lemma_root_of_contents(a: KvMap)
    requires
        a.wf(),
    ensures
        a.pairs() == sorted_pairs_of(a@),
        a.root() == map_root(a@),
{
    let s = sorted_pairs_of(a@);
    assert(sorted_by_key(a.pairs()) && holds_exactly(a.pairs(), a@));
    lemma_same_map_same_pairs(a.pairs(), s, a@);
}

/// Two well-formed maps that hold the same key/value pairs have the same root.
pub proof fn lemma_root_depends_on_contents_only(a: KvMap, b: KvMap)
    requires
        a.wf(),
        b.wf(),
        a@ == b@,
    ensures
        a.pairs() == b.pairs(),
        a.root() == b.root(),
{
    lemma_root_of_contents(a);
    lemma_root_of_contents(b);
}

} // verus!
