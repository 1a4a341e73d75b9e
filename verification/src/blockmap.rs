//! A map from block ids to blocks, kept as a vector of entries in strictly
//! increasing key order, so that every walk over it visits blocks by id.

use vstd::prelude::*;

verus! {

/// Identifier of a basic block.
pub type BlockId = u32;

/// Blocks of a control-flow graph, keyed by their id.
#[derive(Debug, Clone, PartialEq, Eq)]
pub struct BlockMap<V> {
    pub entries: Vec<(BlockId, V)>,
}

/// Keys strictly increasing.
pub open spec fn sorted_keys<V>(s: Seq<(BlockId, V)>) -> bool {
    forall|i: int, j: int| 0 <= i < j < s.len() ==> (#[trigger] s[i]).0 < (#[trigger] s[j]).0
}

impl<V> BlockMap<V> {
    pub open spec fn wf(&self) -> bool {
        sorted_keys(self.entries@)
    }

    /// The ids of the blocks, in increasing order.
    pub open spec fn key_seq(&self) -> Seq<BlockId> {
        self.entries@.map_values(|e: (BlockId, V)| e.0)
    }

    pub open spec fn has(&self, k: BlockId) -> bool {
        exists|i: int| 0 <= i < self.entries@.len() && (#[trigger] self.entries@[i]).0 == k
    }

    /// Position of key `k` among the entries.
    pub open spec fn pos(&self, k: BlockId) -> int {
        choose|i: int| 0 <= i < self.entries@.len() && (#[trigger] self.entries@[i]).0 == k
    }

    /// The block stored under `k`.
    pub open spec fn at(&self, k: BlockId) -> V {
        self.entries@[self.pos(k)].1
    }

    pub proof fn lemma_pos(&self, i: int)
        requires
            self.wf(),
            0 <= i < self.entries@.len(),
        ensures
            self.has(self.entries@[i].0),
            self.pos(self.entries@[i].0) == i,
            self.at(self.entries@[i].0) == self.entries@[i].1,
    {
        let k = self.entries@[i].0;
        assert(self.has(k));
        let p = self.pos(k);
        if p < i {
            assert(self.entries@[p].0 < self.entries@[i].0);
        } else if p > i {
            assert(self.entries@[i].0 < self.entries@[p].0);
        }
    }

    pub fn new() -> (m: Self)
        ensures
            m.wf(),
            m.entries@.len() == 0,
    {
        BlockMap { entries: Vec::new() }
    }

    /// Whether the keys are strictly increasing (see `wf`).
    pub fn is_sorted(&self) -> (b: bool)
        ensures
            b == self.wf(),
    {
        let mut i: usize = 1;
        if self.entries.len() == 0 {
            return true;
        }
        while i < self.entries.len()
            invariant
                1 <= i <= self.entries@.len(),
                forall|x: int, y: int| 0 <= x < y < i ==> (#[trigger] self.entries@[x]).0 < (#[trigger] self.entries@[y]).0,
            decreases self.entries@.len() - i,
        {
            if self.entries[i - 1].0 >= self.entries[i].0 {
                return false;
            }
            proof {
                assert forall|x: int, y: int| 0 <= x < y < i + 1 implies (#[trigger] self.entries@[x]).0 < (#[trigger] self.entries@[y]).0 by {
                    if y == i && x < i - 1 {
                        assert(self.entries@[x].0 < self.entries@[i - 1].0);
                    }
                }
            }
            i = i + 1;
        }
        true
    }

    /// Number of blocks.
    pub fn len(&self) -> (n: usize)
        ensures
            n == self.entries@.len(),
    {
        self.entries.len()
    }

    pub fn is_empty(&self) -> (b: bool)
        ensures
            b == (self.entries@.len() == 0),
    {
        self.entries.len() == 0
    }

    /// Position of the entry with key `k`, if there is one.
    pub fn find(&self, k: BlockId) -> (r: Option<usize>)
        requires
            self.wf(),
        ensures
            match r {
                Some(i) => i < self.entries@.len() && self.entries@[i as int].0 == k && self.has(k)
                    && self.pos(k) == i,
                None => !self.has(k),
            },
    {
        let mut i: usize = 0;
        while i < self.entries.len()
            invariant
                self.wf(),
                i <= self.entries@.len(),
                forall|j: int| 0 <= j < i ==> (#[trigger] self.entries@[j]).0 != k,
            decreases self.entries@.len() - i,
        {
            if self.entries[i].0 == k {
                proof {
                    self.lemma_pos(i as int);
                }
                return Some(i);
            }
            i = i + 1;
        }
        None
    }

    /// The block stored under `k`, if there is one.
    pub fn get(&self, k: &BlockId) -> (r: Option<&V>)
        requires
            self.wf(),
        ensures
            match r {
                Some(v) => self.has(*k) && *v == self.at(*k),
                None => !self.has(*k),
            },
    {
        match self.find(*k) {
            Some(i) => Some(&self.entries[i].1),
            None => None,
        }
    }

    pub fn contains_key(&self, k: &BlockId) -> (b: bool)
        requires
            self.wf(),
        ensures
            b == self.has(*k),
    {
        self.find(*k).is_some()
    }

    /// The ids of all blocks, in increasing order.
    pub fn keys(&self) -> (r: Vec<BlockId>)
        ensures
            r@ == self.key_seq(),
    {
        let mut out: Vec<BlockId> = Vec::new();
        let mut i: usize = 0;
        while i < self.entries.len()
            invariant
                i <= self.entries@.len(),
                out@ == self.entries@.subrange(0, i as int).map_values(|e: (BlockId, V)| e.0),
            decreases self.entries@.len() - i,
        {
            out.push(self.entries[i].0);
            i = i + 1;
            assert(self.entries@.subrange(0, i as int).map_values(|e: (BlockId, V)| e.0)
                =~= self.entries@.subrange(0, i - 1).map_values(|e: (BlockId, V)| e.0).push(
                self.entries@[i - 1].0,
            ));
        }
        assert(self.entries@.subrange(0, self.entries@.len() as int) =~= self.entries@);
        out
    }

    /// Removes the block stored under `k`.
    pub fn remove(&mut self, k: &BlockId) -> (r: Option<V>)
        requires
            old(self).wf(),
        ensures
            final(self).wf(),
            match r {
                Some(v) => old(self).has(*k) && v == old(self).at(*k)
                    && final(self).entries@ == old(self).entries@.remove(old(self).pos(*k)),
                None => !old(self).has(*k) && final(self).entries@ == old(self).entries@,
            },
    {
        match self.find(*k) {
            Some(i) => {
                let e = self.entries.remove(i);
                proof {
                    assert forall|a: int, b: int| 0 <= a < b < self.entries@.len() implies
                        (#[trigger] self.entries@[a]).0 < (#[trigger] self.entries@[b]).0 by {
                        let oa = if a < i { a } else { a + 1 };
                        let ob = if b < i { b } else { b + 1 };
                        assert(old(self).entries@[oa].0 < old(self).entries@[ob].0);
                    }
                }
                Some(e.1)
            },
            None => None,
        }
    }

    /// Appends an entry whose key is greater than every key present.
    pub fn push_last(&mut self, k: BlockId, v: V)
        requires
            old(self).wf(),
            forall|i: int| 0 <= i < old(self).entries@.len() ==> (#[trigger] old(self).entries@[i]).0 < k,
        ensures
            final(self).wf(),
            final(self).entries@ == old(self).entries@.push((k, v)),
    {
        self.entries.push((k, v));
    }
}

} // verus!
