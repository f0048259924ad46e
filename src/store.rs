//! The backing store: every committed trie, reachable by its root digest.

use vstd::prelude::*;
use crate::bytes::bytes_eq;
use crate::trie::KvMap;

verus! {

pub struct Snapshot {
    pub root: Vec<u8>,
    pub map: KvMap,
}

pub struct TrieDb {
    pub snapshots: Vec<Snapshot>,
}

impl TrieDb {
    pub open spec fn wf(&self) -> bool {
        forall|i: int| 0 <= i < self.snapshots@.len() ==> (#[trigger] self.snapshots@[i]).map.wf()
            && self.snapshots@[i].root@ == self.snapshots@[i].map.root()
    }

    /// Some committed trie has this root.
    pub open spec fn holds_root(&self, root: Seq<u8>) -> bool {
        exists|i: int| 0 <= i < self.snapshots@.len() && (#[trigger] self.snapshots@[i]).root@ == root
    }

    /// Snapshot `i` is the latest committed under `root`.
    pub open spec fn latest_with_root(&self, i: int, root: Seq<u8>) -> bool {
        &&& 0 <= i < self.snapshots@.len()
        &&& self.snapshots@[i].root@ == root
        &&& forall|j: int| i < j < self.snapshots@.len() ==> (#[trigger] self.snapshots@[j]).root@ != root
    }

    pub fn new() -> (r: TrieDb)
        ensures
            r.wf(),
    {
        TrieDb { snapshots: Vec::new() }
    }

    /// Records a copy of `map` and returns its root.
    pub fn put(&mut self, map: &KvMap) -> (r: Vec<u8>)
        requires
            old(self).wf(),
            map.wf(),
        ensures
            final(self).wf(),
            r@ == map.root(),
            final(self).holds_root(r@),
            forall|root: Seq<u8>| old(self).holds_root(root) ==> final(self).holds_root(root),
            final(self).snapshots@.len() == old(self).snapshots@.len() + 1,
            forall|j: int| 0 <= j < old(self).snapshots@.len() ==> final(self).snapshots@[j] == old(
                self,
            ).snapshots@[j],
            final(self).latest_with_root(old(self).snapshots@.len() as int, r@),
            final(self).snapshots@[old(self).snapshots@.len() as int].map@ == map@,
    {
        let root = map.root_hash();
        let copy = map.duplicate();
        let ghost n = self.snapshots@.len();
        self.snapshots.push(Snapshot { root: crate::bytes::copy_bytes(&root), map: copy });
        assert(self.snapshots@[n as int].root@ == root@);
        assert forall|root: Seq<u8>| old(self).holds_root(root) implies self.holds_root(root) by {
            let i = choose|i: int| 0 <= i < old(self).snapshots@.len() && (#[trigger] old(self).snapshots@[i]).root@ == root;
            assert(self.snapshots@[i] == old(self).snapshots@[i]);
        }
        root
    }

    /// A copy of the trie committed under `root`.
    pub fn load(&self, root: &Vec<u8>) -> (r: Option<KvMap>)
        requires
            self.wf(),
        ensures
            match r {
                Some(m) => m.wf() && m.root() == root@ && exists|i: int| self.latest_with_root(i, root@)
                    && m@ == self.snapshots@[i].map@,
                None => !self.holds_root(root@),
            },
    {
        let mut i: usize = self.snapshots.len();
        while i > 0
            invariant
                self.wf(),
                i <= self.snapshots@.len(),
                forall|j: int| i <= j < self.snapshots@.len() ==> (#[trigger] self.snapshots@[j]).root@ != root@,
            decreases i,
        {
            if bytes_eq(&self.snapshots[i - 1].root, root) {
                let m = self.snapshots[i - 1].map.duplicate();
                assert(self.latest_with_root(i - 1, root@));
                return Some(m);
            }
            i = i - 1;
        }
        None
    }
}

} // verus!
