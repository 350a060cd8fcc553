//! The chunk store: a map from chunk coordinate to chunk, plus the set of
//! coordinates whose build is in flight (the "loading" set).
//!
//! A coordinate is in at most one of {loaded, loading}. The store owns all
//! chunk data; readers take snapshots through `get`, and writers go through
//! `insert`, `remove` and `set_block_at`.

use vstd::prelude::*;

use crate::block::{in_chunk, Block, IVec3};
use crate::chunk::Chunk;

verus! {

pub struct ChunkStore {
    pub chunks: Vec<Chunk>,
    pub loading: Vec<IVec3>,
}

impl ChunkStore {
    /// Every chunk is well formed, positions are distinct, the loading set is
    /// duplicate-free, and no coordinate is both loaded and loading.
    pub open spec fn wf(&self) -> bool {
        &&& forall|i: int| 0 <= i < self.chunks.len() ==> (#[trigger] self.chunks[i]).wf()
        &&& forall|i: int, j: int|
            0 <= i < j < self.chunks.len() ==> (#[trigger] self.chunks[i]).pos != (
            #[trigger] self.chunks[j]).pos
        &&& forall|i: int, j: int|
            0 <= i < j < self.loading.len() ==> #[trigger] self.loading[i]
                != #[trigger] self.loading[j]
        &&& forall|i: int, j: int|
            0 <= i < self.chunks.len() && 0 <= j < self.loading.len()
                ==> (#[trigger] self.chunks[i]).pos != #[trigger] self.loading[j]
    }

    /// Whether the chunk at `p` is loaded.
    pub open spec fn spec_contains(&self, p: IVec3) -> bool {
        exists|i: int| 0 <= i < self.chunks.len() && (#[trigger] self.chunks[i]).pos == p
    }

    /// Whether a build for `p` is in flight.
    pub open spec fn spec_is_loading(&self, p: IVec3) -> bool {
        exists|i: int| 0 <= i < self.loading.len() && #[trigger] self.loading[i] == p
    }

    /// The loaded chunk at `p`, if any.
    pub open spec fn spec_get(&self, p: IVec3) -> Option<Chunk> {
        if self.spec_contains(p) {
            Some(
                self.chunks[
                    choose|i: int|
                        0 <= i < self.chunks.len() && (#[trigger] self.chunks[i]).pos == p
                ],
            )
        } else {
            None
        }
    }

    /// Under `wf`, the chunk `spec_get` finds for the position of entry `i`
    /// is entry `i` itself.
    pub proof fn lemma_get_at(&self, i: int)
        requires
            self.wf(),
            0 <= i < self.chunks.len(),
        ensures
            self.spec_get(self.chunks[i].pos) == Some(self.chunks[i]),
    {
        assert(self.spec_contains(self.chunks[i].pos));
        let j = choose|j: int|
            0 <= j < self.chunks.len() && (#[trigger] self.chunks[j]).pos == self.chunks[i].pos;
        if i < j {
            assert(self.chunks[i].pos != self.chunks[j].pos);
        } else if j < i {
            assert(self.chunks[j].pos != self.chunks[i].pos);
        }
    }

    /// An empty store.
    pub fn new() -> (s: ChunkStore)
        ensures
            s.wf(),
            forall|p: IVec3| !(#[trigger] s.spec_contains(p)) && !s.spec_is_loading(p),
    {
        ChunkStore { chunks: Vec::new(), loading: Vec::new() }
    }

    /// The index of `p` among the loaded chunks, if present.
    fn find(&self, p: IVec3) -> (r: Option<usize>)
        ensures
            match r {
                Some(i) => i < self.chunks.len() && self.chunks[i as int].pos == p,
                None => !self.spec_contains(p),
            },
    {
        let mut i: usize = 0;
        while i < self.chunks.len()
            invariant
                i <= self.chunks.len(),
                forall|j: int| 0 <= j < i ==> (#[trigger] self.chunks[j]).pos != p,
            decreases self.chunks.len() - i,
        {
            if self.chunks[i].pos == p {
                return Some(i);
            }
            i = i + 1;
        }
        None
    }

    /// The index of `p` in the loading set, if present.
    fn find_loading(&self, p: IVec3) -> (r: Option<usize>)
        ensures
            match r {
                Some(i) => i < self.loading.len() && self.loading[i as int] == p,
                None => !self.spec_is_loading(p),
            },
    {
        let mut i: usize = 0;
        while i < self.loading.len()
            invariant
                i <= self.loading.len(),
                forall|j: int| 0 <= j < i ==> #[trigger] self.loading[j] != p,
            decreases self.loading.len() - i,
        {
            if self.loading[i] == p {
                return Some(i);
            }
            i = i + 1;
        }
        None
    }

    /// Probe: is the chunk at `p` loaded?
    pub fn contains(&self, p: IVec3) -> (r: bool)
        ensures
            r == self.spec_contains(p),
    {
        self.find(p).is_some()
    }

    /// Probe: is a build for `p` in flight?
    pub fn is_loading(&self, p: IVec3) -> (r: bool)
        ensures
            r == self.spec_is_loading(p),
    {
        self.find_loading(p).is_some()
    }

    /// Read-only snapshot of the chunk at `p`.
    pub fn get(&self, p: IVec3) -> (r: Option<&Chunk>)
        requires
            self.wf(),
        ensures
            match r {
                Some(c) => self.spec_get(p) == Some(*c) && c.pos == p,
                None => self.spec_get(p) is None && !self.spec_contains(p),
            },
    {
        match self.find(p) {
            Some(i) => {
                proof {
                    self.lemma_get_at(i as int);
                }
                Some(&self.chunks[i])
            },
            None => None,
        }
    }

    /// Atomically claim the build of `p`: adds `p` to the loading set and
    /// returns true exactly when `p` was neither loaded nor loading, so that
    /// exactly one caller owns each build.
    pub fn mark_loading(&mut self, p: IVec3) -> (r: bool)
        requires
            old(self).wf(),
        ensures
            final(self).wf(),
            r == (!old(self).spec_contains(p) && !old(self).spec_is_loading(p)),
            final(self).chunks == old(self).chunks,
            forall|q: IVec3| #[trigger]
                final(self).spec_contains(q) == old(self).spec_contains(q),
            forall|q: IVec3| #[trigger]
                final(self).spec_get(q) == old(self).spec_get(q),
            forall|q: IVec3| #[trigger]
                final(self).spec_is_loading(q) == (old(self).spec_is_loading(q) || (r && q == p)),
    {
        if self.find(p).is_some() || self.find_loading(p).is_some() {
            return false;
        }
        let ghost pre = *self;
        self.loading.push(p);
        proof {
            lemma_same_chunks_same_get(pre, *self);
            let n = pre.loading.len() as int;
            assert(self.loading[n] == p);
            assert forall|q: IVec3| #[trigger] self.spec_is_loading(q)
                == (pre.spec_is_loading(q) || q == p) by {
                if self.spec_is_loading(q) {
                    let i = choose|i: int|
                        0 <= i < self.loading.len() && #[trigger] self.loading[i] == q;
                    if i < n {
                        assert(pre.loading[i] == q);
                    }
                }
                if pre.spec_is_loading(q) {
                    let i = choose|i: int|
                        0 <= i < pre.loading.len() && #[trigger] pre.loading[i] == q;
                    assert(self.loading[i] == q);
                }
            }
        }
        true
    }

    /// Insert a completed chunk and clear its loading bit. A coordinate that
    /// is already loaded is refused: the redundant insert of a superseded
    /// build is dropped rather than applied.
    pub fn insert(&mut self, c: Chunk) -> (r: bool)
        requires
            old(self).wf(),
            c.wf(),
        ensures
            final(self).wf(),
            r == !old(self).spec_contains(c.pos),
            forall|q: IVec3| #[trigger]
                final(self).spec_get(q) == if r && q == c.pos {
                    Some(c)
                } else {
                    old(self).spec_get(q)
                },
            forall|q: IVec3| #[trigger]
                final(self).spec_is_loading(q) == (old(self).spec_is_loading(q) && q != c.pos),
    {
        let ghost pre = *self;
        // clear the loading bit first, preserving wf's disjointness
        match self.find_loading(c.pos) {
            Some(i) => {
                self.loading.remove(i);
                proof {
                    lemma_remove_keeps_others(pre.loading@, i as int);
                    assert forall|q: IVec3| #[trigger] self.spec_is_loading(q)
                        == (pre.spec_is_loading(q) && q != c.pos) by {
                        if self.spec_is_loading(q) {
                            let j = choose|j: int|
                                0 <= j < self.loading.len() && #[trigger] self.loading[j] == q;
                            let jj: int = if j < i { j } else { j + 1 };
                            assert(pre.loading[jj] == q);
                            assert(pre.loading[i as int] == c.pos);
                        }
                        if pre.spec_is_loading(q) && q != c.pos {
                            let j = choose|j: int|
                                0 <= j < pre.loading.len() && #[trigger] pre.loading[j] == q;
                            if j < i {
                                assert(self.loading[j] == q);
                            } else {
                                assert(self.loading[j - 1] == q);
                            }
                        }
                    }
                }
            },
            None => {},
        }
        let ghost mid = *self;
        proof {
            lemma_same_chunks_same_get(pre, mid);
            if !pre.spec_is_loading(c.pos) {
                assert forall|q: IVec3| #[trigger] mid.spec_is_loading(q)
                    == (pre.spec_is_loading(q) && q != c.pos) by {}
            }
        }
        if self.find(c.pos).is_some() {
            return false;
        }
        self.chunks.push(c);
        proof {
            let n = mid.chunks.len() as int;
            assert(self.chunks[n] == c);
            assert forall|i: int| 0 <= i < self.chunks.len() implies (
            #[trigger] self.chunks[i]).wf() by {
                if i < n {
                    assert(self.chunks[i] == mid.chunks[i]);
                }
            }
            assert forall|q: IVec3| true implies #[trigger] self.spec_get(q) == (if q == c.pos {
                Some(c)
            } else {
                pre.spec_get(q)
            }) by {
                if q == c.pos {
                    self.lemma_get_at(n);
                } else {
                    if self.spec_contains(q) {
                        let i = choose|i: int|
                            0 <= i < self.chunks.len() && (#[trigger] self.chunks[i]).pos == q;
                        assert(i < n);
                        assert(mid.chunks[i].pos == q);
                        mid.lemma_get_at(i);
                        self.lemma_get_at(i);
                    } else {
                        if pre.spec_contains(q) {
                            let i = choose|i: int|
                                0 <= i < pre.chunks.len() && (#[trigger] pre.chunks[i]).pos == q;
                            assert(self.chunks[i].pos == q);
                        }
                    }
                }
            }
            lemma_same_loading_same_is_loading(mid, *self);
            assert forall|q: IVec3| #[trigger] self.spec_is_loading(q) == (pre.spec_is_loading(q)
                && q != c.pos) by {
                assert(mid.spec_is_loading(q) == (pre.spec_is_loading(q) && q != c.pos));
                assert(self.spec_is_loading(q) == mid.spec_is_loading(q));
            }
        }
        true
    }

    /// Evict `p`: drop its chunk (if loaded) and its loading bit (if set).
    pub fn remove(&mut self, p: IVec3)
        requires
            old(self).wf(),
        ensures
            final(self).wf(),
            !final(self).spec_contains(p),
            forall|q: IVec3| #[trigger]
                final(self).spec_get(q) == if q == p {
                    None::<Chunk>
                } else {
                    old(self).spec_get(q)
                },
            forall|q: IVec3| #[trigger]
                final(self).spec_is_loading(q) == (old(self).spec_is_loading(q) && q != p),
    {
        let ghost pre = *self;
        match self.find_loading(p) {
            Some(i) => {
                self.loading.remove(i);
                proof {
                    lemma_remove_keeps_others(pre.loading@, i as int);
                    assert forall|q: IVec3| #[trigger] self.spec_is_loading(q)
                        == (pre.spec_is_loading(q) && q != p) by {
                        if self.spec_is_loading(q) {
                            let j = choose|j: int|
                                0 <= j < self.loading.len() && #[trigger] self.loading[j] == q;
                            let jj: int = if j < i { j } else { j + 1 };
                            assert(pre.loading[jj] == q);
                            assert(pre.loading[i as int] == p);
                        }
                        if pre.spec_is_loading(q) && q != p {
                            let j = choose|j: int|
                                0 <= j < pre.loading.len() && #[trigger] pre.loading[j] == q;
                            if j < i {
                                assert(self.loading[j] == q);
                            } else {
                                assert(self.loading[j - 1] == q);
                            }
                        }
                    }
                }
            },
            None => {},
        }
        let ghost mid = *self;
        proof {
            lemma_same_chunks_same_get(pre, mid);
            if !pre.spec_is_loading(p) {
                assert forall|q: IVec3| #[trigger] mid.spec_is_loading(q)
                    == (pre.spec_is_loading(q) && q != p) by {}
            }
        }
        match self.find(p) {
            Some(i) => {
                self.chunks.remove(i);
                proof {
                    lemma_remove_keeps_others(mid.chunks@, i as int);
                    assert forall|q: IVec3| true implies #[trigger] self.spec_get(q) == (if q == p {
                        None::<Chunk>
                    } else {
                        pre.spec_get(q)
                    }) by {
                        if self.spec_contains(q) {
                            let j = choose|j: int|
                                0 <= j < self.chunks.len() && (#[trigger] self.chunks[j]).pos == q;
                            let jj: int = if j < i { j } else { j + 1 };
                            assert(mid.chunks[jj].pos == q);
                            assert(mid.chunks[i as int].pos == p);
                            mid.lemma_get_at(jj);
                            self.lemma_get_at(j);
                        } else {
                            if mid.spec_contains(q) && q != p {
                                let j = choose|j: int|
                                    0 <= j < mid.chunks.len() && (#[trigger] mid.chunks[j]).pos
                                        == q;
                                assert(mid.chunks[i as int].pos == p);
                                if j < i {
                                    assert(self.chunks[j].pos == q);
                                } else {
                                    assert(self.chunks[j - 1].pos == q);
                                }
                            }
                        }
                        if q == p && self.spec_contains(p) {
                            let j = choose|j: int|
                                0 <= j < self.chunks.len() && (#[trigger] self.chunks[j]).pos == p;
                            let jj: int = if j < i { j } else { j + 1 };
                            assert(mid.chunks[jj].pos == p);
                            assert(mid.chunks[i as int].pos == p);
                            assert(false);
                        }
                    }
                    lemma_same_loading_same_is_loading(mid, *self);
                    assert forall|q: IVec3| #[trigger] self.spec_is_loading(q) == (
                    pre.spec_is_loading(q) && q != p) by {
                        assert(mid.spec_is_loading(q) == (pre.spec_is_loading(q) && q != p));
                        assert(self.spec_is_loading(q) == mid.spec_is_loading(q));
                    }
                }
            },
            None => {
                proof {
                    lemma_same_chunks_same_get(mid, *self);
                    assert forall|q: IVec3| true implies #[trigger] self.spec_get(q) == (if q == p {
                        None::<Chunk>
                    } else {
                        pre.spec_get(q)
                    }) by {
                        if q == p && self.spec_contains(p) {
                            assert(mid.spec_contains(p));
                        }
                    }
                }
            },
        }
    }

    /// Write one block of the loaded chunk at `p`. Returns false and changes
    /// nothing when `p` is not loaded or `local` lies outside the chunk (an
    /// out-of-range input is rejected). This is the interaction layer's only
    /// write path into stored chunks.
    pub fn set_block_at(&mut self, p: IVec3, local: IVec3, b: Block) -> (r: bool)
        requires
            old(self).wf(),
        ensures
            final(self).wf(),
            r == (old(self).spec_contains(p) && in_chunk(
                local.x as int,
                local.y as int,
                local.z as int,
            )),
            forall|q: IVec3| #[trigger]
                final(self).spec_is_loading(q) == old(self).spec_is_loading(q),
            forall|q: IVec3|
                q != p ==> #[trigger] final(self).spec_get(q) == old(self).spec_get(q),
            final(self).spec_contains(p) == old(self).spec_contains(p),
            !r ==> final(self).spec_get(p) == old(self).spec_get(p),
            r ==> {
                &&& final(self).spec_get(p) is Some
                &&& final(self).spec_get(p)->Some_0.pos == p
                &&& final(self).spec_get(p)->Some_0.blocks@ == old(self).spec_get(
                    p,
                )->Some_0.blocks@.update(
                    crate::block::spec_block_index(
                        local.x as int,
                        local.y as int,
                        local.z as int,
                    ),
                    b,
                )
            },
    {
        if local.x < 0 || local.x >= 32 || local.y < 0 || local.y >= 32 || local.z < 0
            || local.z >= 32 {
            return false;
        }
        let ghost pre = *self;
        match self.find(p) {
            Some(i) => {
                let mut c = self.chunks.remove(i);
                c.set_block(local, b);
                self.chunks.insert(i, c);
                proof {
                    lemma_same_loading_same_is_loading(pre, *self);
                    assert(self.chunks@ =~= pre.chunks@.update(i as int, c));
                    pre.lemma_get_at(i as int);
                    self.lemma_get_at(i as int);
                    assert(c.blocks@ == pre.chunks[i as int].blocks@.update(
                        crate::block::spec_block_index(
                            local.x as int,
                            local.y as int,
                            local.z as int,
                        ),
                        b,
                    ));
                    assert forall|q: IVec3| q != p implies #[trigger] self.spec_get(q)
                        == pre.spec_get(q) by {
                        if self.spec_contains(q) {
                            let j = choose|j: int|
                                0 <= j < self.chunks.len() && (#[trigger] self.chunks[j]).pos == q;
                            assert(j != i);
                            assert(pre.chunks[j].pos == q);
                            pre.lemma_get_at(j);
                            self.lemma_get_at(j);
                        } else {
                            if pre.spec_contains(q) {
                                let j = choose|j: int|
                                    0 <= j < pre.chunks.len() && (#[trigger] pre.chunks[j]).pos
                                        == q;
                                assert(self.chunks[j].pos == q);
                            }
                        }
                    }
                }
                true
            },
            None => false,
        }
    }
}

/// Two stores with the same chunk list agree on every lookup.
proof fn lemma_same_chunks_same_get(a: ChunkStore, b: ChunkStore)
    requires
        a.chunks == b.chunks,
    ensures
        forall|q: IVec3| #[trigger] a.spec_contains(q) == b.spec_contains(q),
        forall|q: IVec3| #[trigger] a.spec_get(q) == b.spec_get(q),
{
    assert forall|q: IVec3| #[trigger] a.spec_contains(q) == b.spec_contains(q) by {
        if a.spec_contains(q) {
            let i = choose|i: int| 0 <= i < a.chunks.len() && (#[trigger] a.chunks[i]).pos == q;
            assert(b.chunks[i].pos == q);
        }
        if b.spec_contains(q) {
            let i = choose|i: int| 0 <= i < b.chunks.len() && (#[trigger] b.chunks[i]).pos == q;
            assert(a.chunks[i].pos == q);
        }
    }
    assert forall|q: IVec3| #[trigger] a.spec_get(q) == b.spec_get(q) by {
        if a.spec_contains(q) {
            let i = choose|i: int| 0 <= i < a.chunks.len() && (#[trigger] a.chunks[i]).pos == q;
            assert(b.chunks[i].pos == q);
        }
    }
}

/// Two stores with the same loading list agree on every loading probe.
proof fn lemma_same_loading_same_is_loading(a: ChunkStore, b: ChunkStore)
    requires
        a.loading == b.loading,
    ensures
        forall|q: IVec3| #[trigger] a.spec_is_loading(q) == b.spec_is_loading(q),
{
    assert forall|q: IVec3| #[trigger] a.spec_is_loading(q) == b.spec_is_loading(q) by {
        if a.spec_is_loading(q) {
            let i = choose|i: int| 0 <= i < a.loading.len() && #[trigger] a.loading[i] == q;
            assert(b.loading[i] == q);
        }
        if b.spec_is_loading(q) {
            let i = choose|i: int| 0 <= i < b.loading.len() && #[trigger] b.loading[i] == q;
            assert(a.loading[i] == q);
        }
    }
}

/// After `remove(i)`, every surviving index maps back to an old index other
/// than `i` with the same element.
proof fn lemma_remove_keeps_others<T>(s: Seq<T>, i: int)
    requires
        0 <= i < s.len(),
    ensures
        forall|j: int| 0 <= j < i ==> #[trigger] s.remove(i)[j] == s[j],
        forall|j: int| i <= j < s.len() - 1 ==> #[trigger] s.remove(i)[j] == s[j + 1],
{
}

} // verus!
